//! Judging the processes of a host: which container a process belongs to,
//! and whether its executable is the one its image shipped.
use vstd::prelude::*;
use crate::text::{split_on, split_spec, same_text, lemma_split_nonempty};

verus! {

/// The tag that the container engine puts as the first segment of the
/// control-group path of the processes it runs.
pub open spec fn engine_tag() -> Seq<char> {
    seq!['d', 'o', 'c', 'k', 'e', 'r']
}

/// The `/`-separated segments of the first line of a control-group file.
pub open spec fn cgroup_segments(contents: Seq<char>) -> Seq<Seq<char>> {
    split_spec(split_spec(contents, '\n')[0], '/')
}

/// The container that a control-group file names: the segment after the
/// engine tag, where the first segment after the root is that tag.
pub open spec fn cgroup_container(contents: Seq<char>) -> Option<Seq<char>> {
    let segs = cgroup_segments(contents);
    if segs.len() > 2 && segs[1] == engine_tag() {
        Some(segs[2])
    } else {
        None
    }
}

/// Why a process has no container to be checked against.
#[derive(Debug, Clone, PartialEq, Eq, Structural)]
pub enum CgroupError {
    /// The control-group file could not be read: the process is gone.
    Gone,
    /// The control-group file does not name a container of the engine.
    NotInContainer,
}

/// The container that a process runs in, from the text of its control-group
/// file (`None` where the file could not be read).
pub fn container_from_cgroup(contents: Option<&str>) -> (r: Result<String, CgroupError>)
    ensures
        contents is None ==> r == Err::<String, CgroupError>(CgroupError::Gone),
        contents is Some ==> match cgroup_container(contents->0@) {
            Some(c) => r is Ok && r->Ok_0@ == c,
            None => r == Err::<String, CgroupError>(CgroupError::NotInContainer),
        },
{
    let text = match contents {
        None => return Err(CgroupError::Gone),
        Some(t) => t,
    };
    let lines = split_on(text, '\n');
    proof {
        lemma_split_nonempty(text@, '\n');
    }
    let segs = split_on(lines[0].as_str(), '/');
    if segs.len() <= 2 {
        return Err(CgroupError::NotInContainer);
    }
    let tag = "docker";
    proof {
        reveal_strlit("docker");
        assert(tag@ =~= engine_tag());
    }
    if !same_text(segs[1].as_str(), tag) {
        return Err(CgroupError::NotInContainer);
    }
    Ok(segs[2].clone())
}

/// How a live process stands against the fingerprint of its image.
#[derive(Debug, Clone, Copy, PartialEq, Eq, Structural)]
pub enum Verdict {
    /// Its executable hashes to the stored fingerprint.
    Legitimate,
    /// Its executable is unknown to the image, or hashes differently.
    Foreign,
    /// It could not be judged (it exited, or its executable could not be read).
    Unknown,
}

/// The verdict on a process from its executable's path (`None` where the
/// process is gone), the fingerprint stored for that path in its image
/// (`None` where the image has none), and the hash of the live executable
/// (`None` where it could not be read).
pub open spec fn verdict_spec(
    exe_path: Option<Seq<char>>,
    stored: Option<Seq<char>>,
    live: Option<Seq<char>>,
) -> Verdict {
    if exe_path is None {
        Verdict::Unknown
    } else if stored is None {
        Verdict::Foreign
    } else if live is None {
        Verdict::Unknown
    } else if stored == live {
        Verdict::Legitimate
    } else {
        Verdict::Foreign
    }
}

/// The text of an optional string.
pub open spec fn opt_view(o: Option<&str>) -> Option<Seq<char>> {
    match o {
        Some(s) => Some(s@),
        None => None,
    }
}

/// Judges a process. The stored fingerprint is only consulted where the path
/// is known, and the live hash only where a fingerprint is stored.
pub fn classify_process(exe_path: Option<&str>, stored: Option<&str>, live: Option<&str>) -> (r:
    Verdict)
    ensures
        r == verdict_spec(opt_view(exe_path), opt_view(stored), opt_view(live)),
        exe_path is Some && stored is Some && live is Some && stored->0@ == live->0@ ==> r
            == Verdict::Legitimate,
        exe_path is Some && stored is None ==> r == Verdict::Foreign,
{
    if exe_path.is_none() {
        return Verdict::Unknown;
    }
    let expected = match stored {
        None => return Verdict::Foreign,
        Some(h) => h,
    };
    let actual = match live {
        None => return Verdict::Unknown,
        Some(h) => h,
    };
    if same_text(expected, actual) {
        Verdict::Legitimate
    } else {
        Verdict::Foreign
    }
}

/// The container whose processes are to be checked: the one the
/// control-group file names, unless it is the monitor's own.
pub open spec fn checked_container(cgroup: Option<Seq<char>>, own: Option<Seq<char>>) -> Option<
    Seq<char>,
> {
    match cgroup {
        None => None,
        Some(t) => match cgroup_container(t) {
            Some(c) => if own == Some(c) {
                None
            } else {
                Some(c)
            },
            None => None,
        },
    }
}

/// The container to check a process against, given the text of its
/// control-group file and the monitor's own container, where known.
pub fn container_to_check(cgroup: Option<&str>, own: Option<&str>) -> (r: Option<String>)
    ensures
        opt_string_view(&r) == checked_container(opt_view(cgroup), opt_view(own)),
{
    match container_from_cgroup(cgroup) {
        Err(_) => None,
        Ok(c) => {
            match own {
                Some(o) => {
                    if same_text(c.as_str(), o) {
                        None
                    } else {
                        Some(c)
                    }
                },
                None => Some(c),
            }
        },
    }
}

/// The text of an optional owned string.
pub open spec fn opt_string_view(o: &Option<String>) -> Option<Seq<char>> {
    match o {
        Some(s) => Some(s@),
        None => None,
    }
}

/// The container to remediate on account of a process, if any.
pub open spec fn remediation_spec(
    cgroup: Option<Seq<char>>,
    own: Option<Seq<char>>,
    exe_path: Option<Seq<char>>,
    stored: Option<Seq<char>>,
    live: Option<Seq<char>>,
) -> Option<Seq<char>> {
    match checked_container(cgroup, own) {
        Some(c) => if verdict_spec(exe_path, stored, live) == Verdict::Foreign {
            Some(c)
        } else {
            None
        },
        None => None,
    }
}

/// The container to remediate on account of one process: the container it
/// runs in, where that is checked and the process is judged foreign.
pub fn remediation_target(
    cgroup: Option<&str>,
    own: Option<&str>,
    exe_path: Option<&str>,
    stored: Option<&str>,
    live: Option<&str>,
) -> (r: Option<String>)
    ensures
        opt_string_view(&r) == remediation_spec(
            opt_view(cgroup),
            opt_view(own),
            opt_view(exe_path),
            opt_view(stored),
            opt_view(live),
        ),
{
    match container_to_check(cgroup, own) {
        None => None,
        Some(c) => {
            if classify_process(exe_path, stored, live) == Verdict::Foreign {
                Some(c)
            } else {
                None
            }
        },
    }
}

/// A process whose control-group file does not name an engine container
/// never causes a remediation, whatever else is known of it.
pub proof fn lemma_host_process_never_remediated(
    contents: Seq<char>,
    own: Option<Seq<char>>,
    exe_path: Option<Seq<char>>,
    stored: Option<Seq<char>>,
    live: Option<Seq<char>>,
)
    requires
        cgroup_segments(contents).len() < 2 || cgroup_segments(contents)[1] != engine_tag(),
    ensures
        cgroup_container(contents) is None,
        remediation_spec(Some(contents), own, exe_path, stored, live) is None,
{
}

/// The monitor never remediates its own container.
pub proof fn lemma_own_container_never_remediated(
    cgroup: Option<Seq<char>>,
    own: Seq<char>,
    exe_path: Option<Seq<char>>,
    stored: Option<Seq<char>>,
    live: Option<Seq<char>>,
)
    ensures
        remediation_spec(cgroup, Some(own), exe_path, stored, live) != Some(own),
{
}

/// Whether the running container `id` is one the monitor watches: any but
/// its own.
pub fn is_monitored_container(id: &str, own: Option<&str>) -> (r: bool)
    ensures
        r == (opt_view(own) != Some(id@)),
{
    match own {
        None => true,
        Some(o) => !same_text(id, o),
    }
}

/// The running containers whose images a tick ingests, in order: all but
/// the monitor's own.
pub open spec fn monitored_spec(ids: Seq<Seq<char>>, own: Option<Seq<char>>) -> Seq<Seq<char>>
    decreases ids.len(),
{
    if ids.len() == 0 {
        Seq::empty()
    } else {
        let rest = monitored_spec(ids.drop_last(), own);
        if own == Some(ids.last()) {
            rest
        } else {
            rest.push(ids.last())
        }
    }
}

/// The monitor's own container is never among those it watches.
pub proof fn lemma_own_container_not_monitored(ids: Seq<Seq<char>>, own: Seq<char>)
    ensures
        !monitored_spec(ids, Some(own)).contains(own),
    decreases ids.len(),
{
    if ids.len() > 0 {
        lemma_own_container_not_monitored(ids.drop_last(), own);
        let rest = monitored_spec(ids.drop_last(), Some(own));
        if Some(own) != Some(ids.last()) {
            assert forall|i: int| 0 <= i < rest.push(ids.last()).len() implies rest.push(
                ids.last(),
            )[i] != own by {
                if i < rest.len() {
                    assert(rest.push(ids.last())[i] == rest[i]);
                }
            }
        }
    }
}

/// The texts of a sequence of strings.
pub open spec fn strings_view(v: Seq<String>) -> Seq<Seq<char>> {
    v.map_values(|s: String| s@)
}

/// The running containers `ids` that the monitor watches, in order.
pub fn monitored_containers(ids: &Vec<String>, own: Option<&str>) -> (r: Vec<String>)
    ensures
        strings_view(r@) == monitored_spec(strings_view(ids@), opt_view(own)),
{
    let mut out: Vec<String> = Vec::new();
    let mut i: usize = 0;
    assert(strings_view(ids@).take(0) =~= Seq::<Seq<char>>::empty());
    assert(strings_view(out@) =~= Seq::<Seq<char>>::empty());
    while i < ids.len()
        invariant
            i <= ids@.len(),
            strings_view(out@) == monitored_spec(strings_view(ids@).take(i as int), opt_view(own)),
        decreases ids@.len() - i,
    {
        let id = &ids[i];
        proof {
            assert(strings_view(ids@).take(i + 1).drop_last() =~= strings_view(ids@).take(
                i as int,
            ));
            assert(strings_view(ids@).take(i + 1).last() == id@);
        }
        if is_monitored_container(id.as_str(), own) {
            let ghost before = out@;
            out.push(id.clone());
            assert(strings_view(out@) =~= strings_view(before).push(id@));
        }
        i = i + 1;
    }
    assert(strings_view(ids@).take(ids@.len() as int) =~= strings_view(ids@));
    out
}

/// A step of the remediation of a container.
#[derive(Debug, Clone, PartialEq, Eq)]
pub enum EngineCommand {
    /// Kill the container, with no preference of signal.
    Kill { container: String },
    /// Remove the container, with default options.
    Remove { container: String },
    /// Create, without starting it, a container from the image.
    Create { image: String },
}

/// The commands that remediate `container`, which runs `image`: kill it,
/// remove it, and create a fresh container from the same image.
pub fn remediation_commands(container: &str, image: &str) -> (r: Vec<EngineCommand>)
    ensures
        r@.len() == 3,
        r@[0] is Kill && r@[0]->Kill_container@ == container@,
        r@[1] is Remove && r@[1]->Remove_container@ == container@,
        r@[2] is Create && r@[2]->Create_image@ == image@,
{
    let mut cmds: Vec<EngineCommand> = Vec::new();
    cmds.push(EngineCommand::Kill { container: String::from_str(container) });
    cmds.push(EngineCommand::Remove { container: String::from_str(container) });
    cmds.push(EngineCommand::Create { image: String::from_str(image) });
    cmds
}

} // verus!
