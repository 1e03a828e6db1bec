//! Ingestion of an image into the fingerprint store: the writes it issues,
//! their order, and what the store holds once they are applied.
use vstd::prelude::*;
use crate::text::{starts_with, strip_prefix_text};
use crate::binary::{content_hash, content_hash_spec, is_executable, is_elf_header, sniff_path_spec};
use crate::process::opt_view;

verus! {

/// What the fingerprint store holds: the content hash of each
/// `(image digest, in-image path)`, and the digests of the images whose
/// ingestion was committed.
pub struct StoreModel {
    pub files: Map<(Seq<char>, Seq<char>), Seq<char>>,
    pub hashed: Set<Seq<char>>,
}

/// A write to the fingerprint store, as values.
pub enum OpModel {
    Put(Seq<char>, Seq<char>, Seq<char>),
    MarkHashed(Seq<char>),
}

/// A write to the fingerprint store.
#[derive(Debug, Clone, PartialEq, Eq)]
pub enum StoreOp {
    /// Insert or replace the hash stored for `(digest, path)`.
    PutFingerprint { digest: String, path: String, hash: String },
    /// Record that the image `digest` was ingested completely.
    MarkHashed { digest: String },
}

impl View for StoreOp {
    type V = OpModel;

    open spec fn view(&self) -> OpModel {
        match self {
            StoreOp::PutFingerprint { digest, path, hash } => OpModel::Put(digest@, path@, hash@),
            StoreOp::MarkHashed { digest } => OpModel::MarkHashed(digest@),
        }
    }
}

/// An executable found in an image: its in-image path and content hash.
#[derive(Debug, Clone, PartialEq, Eq)]
pub struct Fingerprint {
    pub path: String,
    pub hash: String,
}

impl View for Fingerprint {
    type V = (Seq<char>, Seq<char>);

    open spec fn view(&self) -> (Seq<char>, Seq<char>) {
        (self.path@, self.hash@)
    }
}

/// The writes of a sequence, as values.
pub open spec fn ops_view(ops: Seq<StoreOp>) -> Seq<OpModel> {
    ops.map_values(|o: StoreOp| o@)
}

/// The found executables, as `(path, hash)` pairs.
pub open spec fn found_view(found: Seq<Fingerprint>) -> Seq<(Seq<char>, Seq<char>)> {
    found.map_values(|f: Fingerprint| f@)
}

/// The store after one write: a put inserts or replaces one row, a mark
/// adds the digest to the committed images.
pub open spec fn apply_op(s: StoreModel, op: OpModel) -> StoreModel {
    match op {
        OpModel::Put(d, p, h) => StoreModel { files: s.files.insert((d, p), h), hashed: s.hashed },
        OpModel::MarkHashed(d) => StoreModel { files: s.files, hashed: s.hashed.insert(d) },
    }
}

/// The store after a sequence of writes, applied in order.
pub open spec fn apply_ops(s: StoreModel, ops: Seq<OpModel>) -> StoreModel
    decreases ops.len(),
{
    if ops.len() == 0 {
        s
    } else {
        apply_op(apply_ops(s, ops.drop_last()), ops.last())
    }
}

/// The writes that ingest image `d`, whose layers yielded the executables
/// `found` in the order they were walked: none where the image is already
/// committed; else a put for each, then the commit mark.
pub open spec fn ingestion_plan(d: Seq<char>, hashed: bool, found: Seq<(Seq<char>, Seq<char>)>) -> Seq<
    OpModel,
> {
    if hashed {
        Seq::empty()
    } else {
        found.map_values(|f: (Seq<char>, Seq<char>)| OpModel::Put(d, f.0, f.1)).push(
            OpModel::MarkHashed(d),
        )
    }
}

/// The store after ingesting image `d` into `s`.
pub open spec fn ingest_spec(s: StoreModel, d: Seq<char>, found: Seq<(Seq<char>, Seq<char>)>) -> StoreModel {
    apply_ops(s, ingestion_plan(d, s.hashed.contains(d), found))
}

/// The writes that ingest the image `digest`, given whether it is already
/// committed and the executables its layers yielded, in walk order.
pub fn ingestion_ops(digest: &str, already_hashed: bool, found: &Vec<Fingerprint>) -> (r: Vec<
    StoreOp,
>)
    ensures
        ops_view(r@) == ingestion_plan(digest@, already_hashed, found_view(found@)),
{
    let mut ops: Vec<StoreOp> = Vec::new();
    if already_hashed {
        assert(ops_view(ops@) =~= ingestion_plan(digest@, already_hashed, found_view(found@)));
        return ops;
    }
    let mut i: usize = 0;
    while i < found.len()
        invariant
            i <= found@.len(),
            ops@.len() == i,
            forall|j: int|
                0 <= j < i ==> #[trigger] ops@[j]@ == OpModel::Put(
                    digest@,
                    found@[j].path@,
                    found@[j].hash@,
                ),
        decreases found@.len() - i,
    {
        let f = &found[i];
        ops.push(
            StoreOp::PutFingerprint {
                digest: String::from_str(digest),
                path: f.path.clone(),
                hash: f.hash.clone(),
            },
        );
        i = i + 1;
    }
    ops.push(StoreOp::MarkHashed { digest: String::from_str(digest) });
    assert(ops_view(ops@) =~= ingestion_plan(digest@, already_hashed, found_view(found@)));
    ops
}

/// The path of a layer archive inside the directory the image was unpacked to.
pub fn layer_archive_path(unpack_dir: &str, layer: &str) -> (r: String)
    ensures
        r@ == unpack_dir@ + seq!['/'] + layer@,
{
    let mut p = String::from_str(unpack_dir);
    let slash = "/";
    proof {
        reveal_strlit("/");
    }
    p.append(slash);
    p.append(layer);
    p
}

/// The path that a file walked under `root` has inside the image: what
/// follows `root`, where that begins with `/`.
pub open spec fn in_image_path_spec(walked: Seq<char>, root: Seq<char>) -> Option<Seq<char>> {
    let rest = walked.subrange(root.len() as int, walked.len() as int);
    if starts_with(walked, root) && rest.len() > 0 && rest[0] == '/' {
        Some(rest)
    } else {
        None
    }
}

/// The in-image path of a file found at `walked` under the scratch
/// directory `root`.
pub fn in_image_path(walked: &str, root: &str) -> (r: Option<String>)
    ensures
        match in_image_path_spec(walked@, root@) {
            Some(p) => r is Some && r->0@ == p,
            None => r is None,
        },
{
    match strip_prefix_text(walked, root) {
        None => None,
        Some(rest) => {
            if rest.as_str().unicode_len() > 0 && rest.as_str().get_char(0) == '/' {
                Some(rest)
            } else {
                None
            }
        },
    }
}

/// Writes that only put fingerprints leave the committed images as they were.
pub proof fn lemma_puts_keep_hashed(s: StoreModel, ops: Seq<OpModel>)
    requires
        forall|j: int| 0 <= j < ops.len() ==> #[trigger] ops[j] is Put,
    ensures
        apply_ops(s, ops).hashed == s.hashed,
    decreases ops.len(),
{
    if ops.len() > 0 {
        lemma_puts_keep_hashed(s, ops.drop_last());
    }
}

/// The committed flag of an image never goes from set to unset.
pub proof fn lemma_hashed_monotone(s: StoreModel, ops: Seq<OpModel>)
    ensures
        s.hashed.subset_of(apply_ops(s, ops).hashed),
    decreases ops.len(),
{
    if ops.len() > 0 {
        lemma_hashed_monotone(s, ops.drop_last());
    }
}

/// The last put of a key decides the hash stored for it.
pub proof fn lemma_last_put_wins(
    s: StoreModel,
    ops: Seq<OpModel>,
    k: int,
    d: Seq<char>,
    p: Seq<char>,
    h: Seq<char>,
)
    requires
        0 <= k < ops.len(),
        ops[k] == OpModel::Put(d, p, h),
        forall|j: int|
            k < j < ops.len() ==> !(#[trigger] ops[j] is Put && ops[j]->Put_0 == d && ops[j]->Put_1
                == p),
    ensures
        apply_ops(s, ops).files.contains_key((d, p)),
        apply_ops(s, ops).files[(d, p)] == h,
    decreases ops.len(),
{
    if k < ops.len() - 1 {
        let init = ops.drop_last();
        assert forall|j: int| k < j < init.len() implies !(#[trigger] init[j] is Put && init[j]->Put_0
            == d && init[j]->Put_1 == p) by {
            assert(init[j] == ops[j]);
        }
        lemma_last_put_wins(s, init, k, d, p, h);
        assert(!(ops[ops.len() - 1] is Put && ops[ops.len() - 1]->Put_0 == d && ops[ops.len()
            - 1]->Put_1 == p));
    }
}

/// Ingesting an image twice leaves the store as ingesting it once, and the
/// image is committed after either.
pub proof fn lemma_ingestion_idempotent(
    s: StoreModel,
    d: Seq<char>,
    found: Seq<(Seq<char>, Seq<char>)>,
)
    ensures
        ingest_spec(s, d, found).hashed.contains(d),
        ingest_spec(ingest_spec(s, d, found), d, found) == ingest_spec(s, d, found),
{
    let s1 = ingest_spec(s, d, found);
    let plan = ingestion_plan(d, s.hashed.contains(d), found);
    if !s.hashed.contains(d) {
        assert(plan.last() == OpModel::MarkHashed(d));
        assert(s1 == apply_op(apply_ops(s, plan.drop_last()), plan.last()));
    }
    assert(ingestion_plan(d, s1.hashed.contains(d), found) =~= Seq::<OpModel>::empty());
}

/// Where a later layer holds a path that an earlier layer held too, the hash
/// stored for it after ingestion is the later layer's.
pub proof fn lemma_later_layer_wins(
    s: StoreModel,
    d: Seq<char>,
    earlier: Seq<(Seq<char>, Seq<char>)>,
    later: Seq<(Seq<char>, Seq<char>)>,
    k: int,
)
    requires
        !s.hashed.contains(d),
        0 <= k < later.len(),
        forall|j: int| k < j < later.len() ==> (#[trigger] later[j]).0 != later[k].0,
    ensures
        ingest_spec(s, d, earlier + later).files.contains_key((d, later[k].0)),
        ingest_spec(s, d, earlier + later).files[(d, later[k].0)] == later[k].1,
{
    let found = earlier + later;
    let plan = ingestion_plan(d, false, found);
    let i = earlier.len() + k;
    assert(found[i] == later[k]);
    assert(plan[i] == OpModel::Put(d, later[k].0, later[k].1));
    assert forall|j: int| i < j < plan.len() implies !(#[trigger] plan[j] is Put && plan[j]->Put_0
        == d && plan[j]->Put_1 == later[k].0) by {
        if j < plan.len() - 1 {
            assert(found[j] == later[j - earlier.len()]);
        }
    }
    lemma_last_put_wins(s, plan, i, d, later[k].0, later[k].1);
}

/// A crash after any number of the puts of an ingestion, before its commit
/// mark, leaves the image uncommitted, so that the next ingestion issues
/// the whole plan again.
pub proof fn lemma_crash_before_commit(
    s: StoreModel,
    d: Seq<char>,
    found: Seq<(Seq<char>, Seq<char>)>,
    k: int,
)
    requires
        !s.hashed.contains(d),
        0 <= k < ingestion_plan(d, false, found).len(),
    ensures
        !apply_ops(s, ingestion_plan(d, false, found).take(k)).hashed.contains(d),
        ingestion_plan(d, apply_ops(s, ingestion_plan(d, false, found).take(k)).hashed.contains(d), found)
            == ingestion_plan(d, false, found),
{
    let done = ingestion_plan(d, false, found).take(k);
    assert forall|j: int| 0 <= j < done.len() implies #[trigger] done[j] is Put by {}
    lemma_puts_keep_hashed(s, done);
}

/// Whether `op` writes the row `key`.
pub open spec fn writes(op: OpModel, key: (Seq<char>, Seq<char>)) -> bool {
    op is Put && (op->Put_0, op->Put_1) == key
}

/// `a` and `b` agree on the row `key`.
pub open spec fn same_row(a: StoreModel, b: StoreModel, key: (Seq<char>, Seq<char>)) -> bool {
    a.files.contains_key(key) == b.files.contains_key(key) && (a.files.contains_key(key)
        ==> a.files[key] == b.files[key])
}

/// Some write of `ops` writes the row `key`.
pub open spec fn written(ops: Seq<OpModel>, key: (Seq<char>, Seq<char>)) -> bool {
    exists|j: int| 0 <= j < ops.len() && writes(#[trigger] ops[j], key)
}

/// Some write of `ops` marks the image `d` committed.
pub open spec fn marked(ops: Seq<OpModel>, d: Seq<char>) -> bool {
    exists|j: int| 0 <= j < ops.len() && #[trigger] ops[j] == OpModel::MarkHashed(d)
}

/// `s` and `t` agree wherever `ops` writes nothing.
pub open spec fn agree_outside(s: StoreModel, t: StoreModel, ops: Seq<OpModel>) -> bool {
    &&& forall|key: (Seq<char>, Seq<char>)| !written(ops, key) ==> #[trigger] same_row(s, t, key)
    &&& forall|d: Seq<char>|
        !marked(ops, d) ==> (#[trigger] s.hashed.contains(d) == t.hashed.contains(d))
}

/// What the store holds after `ops` is fixed by `ops` wherever it writes:
/// two stores that agree elsewhere agree after it.
pub proof fn lemma_writes_decide(s: StoreModel, t: StoreModel, ops: Seq<OpModel>)
    requires
        agree_outside(s, t, ops),
    ensures
        apply_ops(s, ops) == apply_ops(t, ops),
{
    let a = apply_ops(s, ops);
    let b = apply_ops(t, ops);
    assert forall|key: (Seq<char>, Seq<char>)| #[trigger] same_row(a, b, key) by {
        if written(ops, key) {
            let j = choose|j: int| 0 <= j < ops.len() && writes(#[trigger] ops[j], key);
            let k = last_write_index(ops, key, j);
            lemma_tail_decides(s, ops, k, key);
            lemma_tail_decides(t, ops, k, key);
        } else {
            assert(same_row(s, t, key));
            lemma_untouched_row(s, ops, key);
            lemma_untouched_row(t, ops, key);
        }
    }
    assert forall|d: Seq<char>| #[trigger] a.hashed.contains(d) == b.hashed.contains(d) by {
        if marked(ops, d) {
            let j = choose|j: int| 0 <= j < ops.len() && #[trigger] ops[j] == OpModel::MarkHashed(d);
            lemma_mark_stays(s, ops, j, d);
            lemma_mark_stays(t, ops, j, d);
        } else {
            assert(s.hashed.contains(d) == t.hashed.contains(d));
            lemma_unmarked(s, ops, d);
            lemma_unmarked(t, ops, d);
        }
    }
    assert(a.files.dom() =~= b.files.dom()) by {
        assert forall|key: (Seq<char>, Seq<char>)| a.files.dom().contains(key) == b.files.dom().contains(key) by {
            assert(same_row(a, b, key));
        }
    }
    assert forall|key: (Seq<char>, Seq<char>)| a.files.dom().contains(key) implies a.files[key]
        == b.files[key] by {
        assert(same_row(a, b, key));
    }
    assert(a.files =~= b.files);
    assert(a.hashed =~= b.hashed);
}

/// The index of the last write of `key` in `ops`, at or after `j`.
proof fn last_write_index(ops: Seq<OpModel>, key: (Seq<char>, Seq<char>), j: int) -> (k: int)
    requires
        0 <= j < ops.len(),
        writes(ops[j], key),
    ensures
        j <= k < ops.len(),
        writes(ops[k], key),
        forall|i: int| k < i < ops.len() ==> !writes(#[trigger] ops[i], key),
    decreases ops.len() - j,
{
    if exists|i: int| j < i < ops.len() && writes(#[trigger] ops[i], key) {
        let i = choose|i: int| j < i < ops.len() && writes(#[trigger] ops[i], key);
        last_write_index(ops, key, i)
    } else {
        j
    }
}

proof fn lemma_tail_decides(s: StoreModel, ops: Seq<OpModel>, k: int, key: (Seq<char>, Seq<char>))
    requires
        0 <= k < ops.len(),
        writes(ops[k], key),
        forall|i: int| k < i < ops.len() ==> !writes(#[trigger] ops[i], key),
    ensures
        apply_ops(s, ops).files.contains_key(key),
        apply_ops(s, ops).files[key] == ops[k]->Put_2,
{
    assert forall|i: int| k < i < ops.len() implies !(#[trigger] ops[i] is Put && ops[i]->Put_0
        == key.0 && ops[i]->Put_1 == key.1) by {
        assert(!writes(ops[i], key));
    }
    lemma_last_put_wins(s, ops, k, key.0, key.1, ops[k]->Put_2);
}

proof fn lemma_untouched_row(s: StoreModel, ops: Seq<OpModel>, key: (Seq<char>, Seq<char>))
    requires
        forall|i: int| 0 <= i < ops.len() ==> !writes(#[trigger] ops[i], key),
    ensures
        same_row(apply_ops(s, ops), s, key),
    decreases ops.len(),
{
    if ops.len() > 0 {
        let init = ops.drop_last();
        assert forall|i: int| 0 <= i < init.len() implies !writes(#[trigger] init[i], key) by {
            assert(init[i] == ops[i]);
        }
        lemma_untouched_row(s, init, key);
        assert(!writes(ops[ops.len() - 1], key));
    }
}

proof fn lemma_mark_stays(s: StoreModel, ops: Seq<OpModel>, j: int, d: Seq<char>)
    requires
        0 <= j < ops.len(),
        ops[j] == OpModel::MarkHashed(d),
    ensures
        apply_ops(s, ops).hashed.contains(d),
    decreases ops.len(),
{
    if j < ops.len() - 1 {
        let init = ops.drop_last();
        assert(init[j] == ops[j]);
        lemma_mark_stays(s, init, j, d);
        lemma_hashed_monotone(apply_ops(s, init), seq![ops.last()]);
        assert(seq![ops.last()].drop_last() =~= Seq::<OpModel>::empty());
    }
}

proof fn lemma_unmarked(s: StoreModel, ops: Seq<OpModel>, d: Seq<char>)
    requires
        forall|i: int| 0 <= i < ops.len() ==> #[trigger] ops[i] != OpModel::MarkHashed(d),
    ensures
        apply_ops(s, ops).hashed.contains(d) == s.hashed.contains(d),
    decreases ops.len(),
{
    if ops.len() > 0 {
        let init = ops.drop_last();
        assert forall|i: int| 0 <= i < init.len() implies #[trigger] init[i] != OpModel::MarkHashed(
            d,
        ) by {
            assert(init[i] == ops[i]);
        }
        lemma_unmarked(s, init, d);
        assert(ops[ops.len() - 1] != OpModel::MarkHashed(d));
    }
}

/// Applying a sequence of writes again on top of a prefix of itself gives
/// the store that applying it once gives.
pub proof fn lemma_replay_after_prefix(s: StoreModel, ops: Seq<OpModel>, k: int)
    requires
        0 <= k <= ops.len(),
    ensures
        apply_ops(apply_ops(s, ops.take(k)), ops) == apply_ops(s, ops),
{
    let pre = ops.take(k);
    let mid = apply_ops(s, pre);
    assert forall|key: (Seq<char>, Seq<char>)| !written(ops, key) implies #[trigger] same_row(
        mid,
        s,
        key,
    ) by {
        assert forall|i: int| 0 <= i < pre.len() implies !writes(#[trigger] pre[i], key) by {
            assert(pre[i] == ops[i]);
        }
        lemma_untouched_row(s, pre, key);
    }
    assert forall|d: Seq<char>| !marked(ops, d) implies (#[trigger] mid.hashed.contains(d)
        == s.hashed.contains(d)) by {
        assert forall|i: int| 0 <= i < pre.len() implies #[trigger] pre[i] != OpModel::MarkHashed(
            d,
        ) by {
            assert(pre[i] == ops[i]);
        }
        lemma_unmarked(s, pre, d);
    }
    lemma_writes_decide(mid, s, ops);
}

/// Ingesting an image after a crash part-way through an earlier ingestion
/// of it leaves the store as one uninterrupted ingestion does.
pub proof fn lemma_reingestion_after_crash(
    s: StoreModel,
    d: Seq<char>,
    found: Seq<(Seq<char>, Seq<char>)>,
    k: int,
)
    requires
        !s.hashed.contains(d),
        0 <= k < ingestion_plan(d, false, found).len(),
    ensures
        ingest_spec(apply_ops(s, ingestion_plan(d, false, found).take(k)), d, found) == ingest_spec(
            s,
            d,
            found,
        ),
{
    lemma_crash_before_commit(s, d, found, k);
    lemma_replay_after_prefix(s, ingestion_plan(d, false, found), k);
}

/// A file that is no native executable contributes no fingerprint.
pub proof fn lemma_non_executable_contributes_nothing(
    walked: Seq<char>,
    root: Seq<char>,
    link_target: Option<Seq<char>>,
    header: Option<Seq<u8>>,
    content: Option<Seq<u8>>,
)
    requires
        header is None || !is_elf_header(header->0),
    ensures
        entry_fingerprint_spec(walked, root, link_target, header, content) is None,
{
}

/// Ingestion writes a row only for a path that the walk found: where the
/// store had no row for `(d, p)` and no executable found has path `p`, it
/// has none afterwards.
pub proof fn lemma_unfound_path_gets_no_row(
    s: StoreModel,
    d: Seq<char>,
    found: Seq<(Seq<char>, Seq<char>)>,
    p: Seq<char>,
)
    requires
        !s.files.contains_key((d, p)),
        forall|i: int| 0 <= i < found.len() ==> (#[trigger] found[i]).0 != p,
    ensures
        !ingest_spec(s, d, found).files.contains_key((d, p)),
{
    let plan = ingestion_plan(d, s.hashed.contains(d), found);
    assert forall|i: int| 0 <= i < plan.len() implies !writes(#[trigger] plan[i], (d, p)) by {
        if !s.hashed.contains(d) && i < found.len() {
            assert(plan[i] == OpModel::Put(d, found[i].0, found[i].1));
        }
    }
    lemma_untouched_row(s, plan, (d, p));
}

/// Marking an image committed twice is the same as marking it once.
pub proof fn lemma_mark_hashed_idempotent(s: StoreModel, d: Seq<char>)
    ensures
        apply_op(apply_op(s, OpModel::MarkHashed(d)), OpModel::MarkHashed(d)) == apply_op(
            s,
            OpModel::MarkHashed(d),
        ),
{
    assert(s.hashed.insert(d).insert(d) =~= s.hashed.insert(d));
}

/// The bytes of an optional slice.
pub open spec fn opt_bytes_view(o: Option<&[u8]>) -> Option<Seq<u8>> {
    match o {
        Some(b) => Some(b@),
        None => None,
    }
}

/// The fingerprint that a file found by the walk contributes, if any: one
/// where it is a native executable, lies under `root`, and its content
/// could be read; its in-image path and the hash of that content.
pub open spec fn entry_fingerprint_spec(
    walked: Seq<char>,
    root: Seq<char>,
    link_target: Option<Seq<char>>,
    header: Option<Seq<u8>>,
    content: Option<Seq<u8>>,
) -> Option<(Seq<char>, Seq<char>)> {
    if sniff_path_spec(walked, link_target) is Some && header is Some && is_elf_header(header->0)
        && content is Some && in_image_path_spec(walked, root) is Some {
        Some((in_image_path_spec(walked, root)->0, content_hash_spec(content->0)))
    } else {
        None
    }
}

/// The fingerprint of a file found at `walked` under the scratch directory
/// `root`, given its link target (where it is a symbolic link), the first
/// bytes and the whole content of the file to sniff (`None` where they
/// could not be read).
pub fn entry_fingerprint(
    walked: &str,
    root: &str,
    link_target: Option<&str>,
    header: Option<&[u8]>,
    content: Option<&[u8]>,
) -> (r: Option<Fingerprint>)
    ensures
        match entry_fingerprint_spec(
            walked@,
            root@,
            opt_view(link_target),
            opt_bytes_view(header),
            opt_bytes_view(content),
        ) {
            Some(f) => r is Some && r->0@ == f,
            None => r is None,
        },
{
    if !is_executable(walked, link_target, header) {
        return None;
    }
    let bytes = match content {
        None => return None,
        Some(b) => b,
    };
    let path = match in_image_path(walked, root) {
        None => return None,
        Some(p) => p,
    };
    Some(Fingerprint { path, hash: content_hash(bytes) })
}

} // verus!
