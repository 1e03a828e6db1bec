//! Reading the ordered layer list out of an exported image's manifest.
use vstd::prelude::*;
use crate::text::same_text;

verus! {

/// A JSON value, as values: numbers as their decimal text, objects as
/// their members in order.
pub enum JsonView {
    Null,
    Bool(bool),
    Number(Seq<char>),
    Str(Seq<char>),
    Array(Seq<JsonView>),
    Object(Seq<(Seq<char>, JsonView)>),
}

/// A JSON value held by the library.
#[derive(Debug)]
pub enum Json {
    Null,
    Bool(bool),
    Number(String),
    Str(String),
    Array(Vec<Json>),
    Object(Vec<(String, Json)>),
}

/// The value that a `Json` holds.
pub open spec fn json_view(j: Json) -> JsonView
    decreases j,
    via json_view_decreases
{
    match j {
        Json::Null => JsonView::Null,
        Json::Bool(b) => JsonView::Bool(b),
        Json::Number(n) => JsonView::Number(n@),
        Json::Str(s) => JsonView::Str(s@),
        Json::Array(items) => JsonView::Array(
            Seq::new(items@.len(), |i: int|
                if 0 <= i < items@.len() {
                    json_view(items@[i])
                } else {
                    JsonView::Null
                }),
        ),
        Json::Object(members) => JsonView::Object(
            Seq::new(members@.len(), |i: int|
                if 0 <= i < members@.len() {
                    (members@[i].0@, json_view(members@[i].1))
                } else {
                    (Seq::empty(), JsonView::Null)
                }),
        ),
    }
}

#[via_fn]
proof fn json_view_decreases(j: Json) {
    broadcast use vstd::std_specs::vec::axiom_vec_decreases_to_view;
    match j {
        Json::Array(items) => {
            assert forall|i: int| 0 <= i < items@.len() implies decreases_to!(j => items@[i]) by {
                assert(decreases_to!(items => items@));
                assert(decreases_to!(items@ => items@[i]));
            }
        },
        Json::Object(members) => {
            assert forall|i: int| 0 <= i < members@.len() implies decreases_to!(j => members@[i].1) by {
                assert(decreases_to!(members => members@));
                assert(decreases_to!(members@ => members@[i]));
            }
        },
        _ => {},
    }
}

/// serde_json's JSON value, carried through without looking inside.
#[verifier::external_type_specification]
#[verifier::external_body]
pub struct ExJsonValue(serde_json::Value);

/// The JSON value that `text` encodes, as serde_json parses it; `None` where
/// it is not valid JSON.
pub uninterp spec fn json_of(text: Seq<char>) -> Option<JsonView>;

/// The value that an optional `Json` holds.
pub open spec fn opt_json_view(o: Option<Json>) -> Option<JsonView> {
    match o {
        Some(j) => Some(json_view(j)),
        None => None,
    }
}

/// Relies on serde_json's `Value` variants: moves a parsed value into the
/// library's `Json` one for one, numbers through `serde_json::Number`'s
/// `Display`, object members in the map's own order.
#[verifier::external_body]
fn json_from_value(v: serde_json::Value) -> Json {
    match v {
        serde_json::Value::Null => Json::Null,
        serde_json::Value::Bool(b) => Json::Bool(b),
        serde_json::Value::Number(n) => Json::Number(n.to_string()),
        serde_json::Value::String(s) => Json::Str(s),
        serde_json::Value::Array(a) => Json::Array(a.into_iter().map(json_from_value).collect()),
        serde_json::Value::Object(m) => Json::Object(
            m.into_iter().map(|(k, x)| (k, json_from_value(x))).collect(),
        ),
    }
}

/// Relies on serde_json::from_str: parses `text` as JSON, the result
/// depending on the text alone.
#[verifier::external_body]
fn parse_json(text: &str) -> (r: Option<Json>)
    ensures
        opt_json_view(r) == json_of(text@),
{
    match serde_json::from_str::<serde_json::Value>(text) {
        Ok(v) => Some(json_from_value(v)),
        Err(_) => None,
    }
}

/// Why the layer list could not be read from a manifest.
#[derive(Debug, Clone, Copy, PartialEq, Eq, Structural)]
pub enum ManifestError {
    /// The manifest is not valid JSON.
    Malformed,
    /// The manifest is not a non-empty array whose first element has a
    /// `Layers` array.
    NoLayers,
    /// An entry of `Layers` is not a string.
    BadLayer,
}

/// The key under which an image's entry lists its layers.
pub open spec fn layers_key() -> Seq<char> {
    seq!['L', 'a', 'y', 'e', 'r', 's']
}

/// The value of the first member of an object named `key`.
pub open spec fn member_spec(members: Seq<(Seq<char>, JsonView)>, key: Seq<char>) -> Option<
    JsonView,
>
    decreases members.len(),
{
    if members.len() == 0 {
        None
    } else if members[0].0 == key {
        Some(members[0].1)
    } else {
        member_spec(members.drop_first(), key)
    }
}

/// The entries of the `Layers` array of the first element of a manifest.
pub open spec fn layer_entries(v: JsonView) -> Option<Seq<JsonView>> {
    match v {
        JsonView::Array(images) => if images.len() > 0 {
            match images[0] {
                JsonView::Object(members) => match member_spec(members, layers_key()) {
                    Some(JsonView::Array(layers)) => Some(layers),
                    _ => None,
                },
                _ => None,
            }
        } else {
            None
        },
        _ => None,
    }
}

/// The layer list of a parsed manifest (`None` where it is not JSON).
pub open spec fn manifest_layers_spec(parsed: Option<JsonView>) -> Result<
    Seq<Seq<char>>,
    ManifestError,
> {
    match parsed {
        None => Err(ManifestError::Malformed),
        Some(v) => match layer_entries(v) {
            None => Err(ManifestError::NoLayers),
            Some(layers) => if forall|i: int| 0 <= i < layers.len() ==> (#[trigger] layers[i]) is Str {
                Ok(Seq::new(layers.len(), |i: int| layers[i]->Str_0))
            } else {
                Err(ManifestError::BadLayer)
            },
        },
    }
}

/// The texts of a layer list, or its error.
pub open spec fn layers_result_view(r: Result<Vec<String>, ManifestError>) -> Result<
    Seq<Seq<char>>,
    ManifestError,
> {
    match r {
        Ok(v) => Ok(v@.map_values(|s: String| s@)),
        Err(e) => Err(e),
    }
}

/// The member named `key` of an object.
fn find_member<'a>(members: &'a Vec<(String, Json)>, key: &str) -> (r: Option<&'a Json>)
    ensures
        match member_spec(json_view(Json::Object(*members))->Object_0, key@) {
            Some(v) => r is Some && json_view(*r->0) == v,
            None => r is None,
        },
{
    let ghost mv = json_view(Json::Object(*members))->Object_0;
    let mut i: usize = 0;
    assert(mv.subrange(0, mv.len() as int) =~= mv);
    while i < members.len()
        invariant
            i <= members@.len(),
            mv.len() == members@.len(),
            mv == json_view(Json::Object(*members))->Object_0,
            forall|j: int| 0 <= j < mv.len() ==> #[trigger] mv[j] == (members@[j].0@, json_view(members@[j].1)),
            member_spec(mv, key@) == member_spec(mv.subrange(i as int, mv.len() as int), key@),
        decreases members@.len() - i,
    {
        proof {
            let rest = mv.subrange(i as int, mv.len() as int);
            assert(rest[0] == mv[i as int]);
            assert(rest.drop_first() =~= mv.subrange(i + 1, mv.len() as int));
        }
        if same_text(members[i].0.as_str(), key) {
            proof {
                let rest = mv.subrange(i as int, mv.len() as int);
                assert(rest[0] == mv[i as int]);
                assert(rest[0].0 == key@);
                assert(member_spec(rest, key@) == Some(rest[0].1));
            }
            return Some(&members[i].1);
        }
        i = i + 1;
    }
    None
}

/// The layer list of a parsed manifest.
pub fn layers_of_json(manifest: &Json) -> (r: Result<Vec<String>, ManifestError>)
    ensures
        layers_result_view(r) == manifest_layers_spec(Some(json_view(*manifest))),
{
    let images = match manifest {
        Json::Array(a) => a,
        _ => return Err(ManifestError::NoLayers),
    };
    if images.len() == 0 {
        return Err(ManifestError::NoLayers);
    }
    let ghost iv = json_view(Json::Array(*images))->Array_0;
    assert(iv[0] == json_view(images@[0]));
    let members = match &images[0] {
        Json::Object(m) => m,
        _ => return Err(ManifestError::NoLayers),
    };
    let key = "Layers";
    proof {
        reveal_strlit("Layers");
        assert(key@ =~= layers_key());
    }
    let layers = match find_member(members, key) {
        Some(Json::Array(l)) => l,
        _ => return Err(ManifestError::NoLayers),
    };
    let ghost lv = json_view(Json::Array(*layers))->Array_0;
    assert(layer_entries(json_view(*manifest)) == Some(lv));
    assert forall|j: int| 0 <= j < lv.len() implies #[trigger] lv[j] == json_view(layers@[j]) by {}
    let mut out: Vec<String> = Vec::new();
    let mut i: usize = 0;
    while i < layers.len()
        invariant
            i <= layers@.len(),
            lv.len() == layers@.len(),
            layer_entries(json_view(*manifest)) == Some(lv),
            forall|j: int| 0 <= j < lv.len() ==> #[trigger] lv[j] == json_view(layers@[j]),
            out@.len() == i,
            forall|j: int| 0 <= j < i ==> (#[trigger] lv[j]) is Str && out@[j]@ == lv[j]->Str_0,
        decreases layers@.len() - i,
    {
        match &layers[i] {
            Json::Str(s) => out.push(s.clone()),
            _ => {
                assert(lv[i as int] == json_view(layers@[i as int]));
                assert(!(lv[i as int] is Str));
                assert(!(forall|j: int| 0 <= j < lv.len() ==> (#[trigger] lv[j]) is Str));
                return Err(ManifestError::BadLayer);
            },
        }
        i = i + 1;
    }
    assert(out@.map_values(|s: String| s@) =~= Seq::new(lv.len(), |j: int| lv[j]->Str_0));
    Ok(out)
}

/// The layer archives that a manifest lists, in order: the `Layers` array of
/// the first element of the manifest's top-level array.
pub fn manifest_layers(text: &str) -> (r: Result<Vec<String>, ManifestError>)
    ensures
        layers_result_view(r) == manifest_layers_spec(json_of(text@)),
{
    match parse_json(text) {
        None => Err(ManifestError::Malformed),
        Some(manifest) => layers_of_json(&manifest),
    }
}

} // verus!
