use std::collections::{HashMap, HashSet};

use container_guard::binary::{content_hash, has_elf_magic, is_executable, path_to_sniff, to_hex};
use container_guard::ingest::{
    entry_fingerprint, in_image_path, ingestion_ops, layer_archive_path, Fingerprint, StoreOp,
};
use container_guard::manifest::{layers_of_json, manifest_layers, Json, ManifestError};
use container_guard::process::{
    classify_process, container_from_cgroup, container_to_check, is_monitored_container,
    monitored_containers, remediation_commands, remediation_target, CgroupError, EngineCommand, Verdict,
};
use container_guard::text::{contains_text, same_text, split_on, strip_prefix_text};

#[derive(Default)]
struct Store {
    files: HashMap<(String, String), String>,
    hashed: HashSet<String>,
}

impl Store {
    fn apply(&mut self, op: &StoreOp) {
        match op {
            StoreOp::PutFingerprint { digest, path, hash } => {
                self.files.insert((digest.clone(), path.clone()), hash.clone());
            }
            StoreOp::MarkHashed { digest } => {
                self.hashed.insert(digest.clone());
            }
        }
    }

    fn is_hashed(&self, d: &str) -> bool {
        self.hashed.contains(d)
    }

    fn get(&self, d: &str, p: &str) -> Option<String> {
        self.files.get(&(d.to_string(), p.to_string())).cloned()
    }

    fn ingest(&mut self, d: &str, found: &Vec<Fingerprint>) {
        for op in ingestion_ops(d, self.is_hashed(d), found) {
            self.apply(&op);
        }
    }
}

fn md5_hex(bytes: &[u8]) -> String {
    format!("{:x}", md5::compute(bytes))
}

fn elf(tail: &[u8]) -> Vec<u8> {
    let mut v = vec![0x7f, 0x45, 0x4c, 0x46];
    v.extend_from_slice(tail);
    v
}

fn walk(root: &str, files: &[(&str, &[u8])]) -> Vec<Fingerprint> {
    let mut found = Vec::new();
    for (path, bytes) in files {
        let walked = format!("{}{}", root, path);
        let header = &bytes[..bytes.len().min(4)];
        if let Some(f) = entry_fingerprint(&walked, root, None, Some(header), Some(bytes)) {
            found.push(f);
        }
    }
    found
}

#[test]
fn clean_image_ingestion() {
    let hello = elf(b"hello world");
    let found = walk("out", &[("/usr/bin/hello", &hello), ("/etc/passwd", b"root:x:0:0")]);
    let mut store = Store::default();
    store.ingest("d", &found);
    assert!(store.is_hashed("d"));
    assert_eq!(store.get("d", "/usr/bin/hello"), Some(md5_hex(&hello)));
    assert_eq!(store.get("d", "/etc/passwd"), None);
}

#[test]
fn layer_overwrite() {
    let a = elf(b"version A");
    let b = elf(b"version B");
    let mut found = walk("out", &[("/a/ls", &a)]);
    found.extend(walk("out", &[("/a/ls", &b)]));
    let mut store = Store::default();
    store.ingest("d", &found);
    assert_eq!(store.get("d", "/a/ls"), Some(md5_hex(&b)));
}

#[test]
fn ingestion_twice_is_ingestion_once() {
    let x = elf(b"x");
    let found = walk("out", &[("/bin/x", &x)]);
    let mut once = Store::default();
    once.ingest("d", &found);
    let mut twice = Store::default();
    twice.ingest("d", &found);
    assert!(ingestion_ops("d", twice.is_hashed("d"), &found).is_empty());
    twice.ingest("d", &found);
    assert_eq!(once.files, twice.files);
    assert_eq!(once.hashed, twice.hashed);
    assert!(twice.is_hashed("d"));
}

#[test]
fn crash_before_commit_reingests() {
    let x = elf(b"x");
    let y = elf(b"y");
    let found = walk("out", &[("/bin/x", &x), ("/bin/y", &y)]);
    let plan = ingestion_ops("d", false, &found);
    assert_eq!(plan.len(), 3);
    assert_eq!(plan[2], StoreOp::MarkHashed { digest: "d".to_string() });
    let mut store = Store::default();
    for op in &plan[..2] {
        store.apply(op);
    }
    assert!(!store.is_hashed("d"));
    assert_eq!(ingestion_ops("d", store.is_hashed("d"), &found), plan);
}

#[test]
fn plan_for_committed_image_is_empty() {
    let found = vec![Fingerprint { path: "/bin/x".to_string(), hash: "h".to_string() }];
    assert!(ingestion_ops("d", true, &found).is_empty());
    let plan = ingestion_ops("d", false, &found);
    assert_eq!(
        plan[0],
        StoreOp::PutFingerprint {
            digest: "d".to_string(),
            path: "/bin/x".to_string(),
            hash: "h".to_string()
        }
    );
}

#[test]
fn tampered_process() {
    let stored = md5_hex(&elf(b"hello"));
    let live = md5_hex(&elf(b"evil"));
    let cg = "12:pids:/docker/c\n11:cpu:/docker/c\n";
    assert_eq!(
        classify_process(Some("/usr/bin/hello"), Some(&stored), Some(&live)),
        Verdict::Foreign
    );
    let target = remediation_target(Some(cg), None, Some("/usr/bin/hello"), Some(&stored), Some(&live));
    assert_eq!(target, Some("c".to_string()));
    assert_eq!(
        remediation_commands("c", "d"),
        vec![
            EngineCommand::Kill { container: "c".to_string() },
            EngineCommand::Remove { container: "c".to_string() },
            EngineCommand::Create { image: "d".to_string() },
        ]
    );
}

#[test]
fn unknown_path() {
    assert_eq!(classify_process(Some("/tmp/dropper"), None, None), Verdict::Foreign);
    let target = remediation_target(Some("1:name=x:/docker/c"), None, Some("/tmp/dropper"), None, None);
    assert_eq!(target, Some("c".to_string()));
}

#[test]
fn host_pid_ignored() {
    let cg = "0::/init.scope\n";
    assert_eq!(container_from_cgroup(Some(cg)), Err(CgroupError::NotInContainer));
    assert_eq!(container_to_check(Some(cg), None), None);
    assert_eq!(remediation_target(Some(cg), None, Some("/bin/x"), None, None), None);
}

#[test]
fn dead_pid() {
    assert_eq!(classify_process(None, None, None), Verdict::Unknown);
    assert_eq!(remediation_target(Some("1:x:/docker/c"), None, None, None, None), None);
    assert_eq!(container_from_cgroup(None), Err(CgroupError::Gone));
}

#[test]
fn matching_hash_is_legitimate() {
    let h = md5_hex(b"same");
    assert_eq!(classify_process(Some("/bin/x"), Some(&h), Some(&h)), Verdict::Legitimate);
    assert_eq!(classify_process(Some("/bin/x"), Some(&h), None), Verdict::Unknown);
    assert_eq!(remediation_target(Some("1:x:/docker/c"), None, Some("/bin/x"), Some(&h), Some(&h)), None);
}

#[test]
fn own_container_skipped() {
    let cg = "1:x:/docker/me";
    assert_eq!(container_to_check(Some(cg), Some("me")), None);
    assert_eq!(remediation_target(Some(cg), Some("me"), Some("/tmp/dropper"), None, None), None);
    assert_eq!(container_to_check(Some(cg), Some("other")), Some("me".to_string()));
    assert!(!is_monitored_container("me", Some("me")));
    assert!(is_monitored_container("c", Some("me")));
    assert!(is_monitored_container("c", None));
}

#[test]
fn cgroup_parsing() {
    assert_eq!(container_from_cgroup(Some("12:pids:/docker/abc123\n")), Ok("abc123".to_string()));
    assert_eq!(container_from_cgroup(Some("12:pids:/docker")), Err(CgroupError::NotInContainer));
    assert_eq!(container_from_cgroup(Some("")), Err(CgroupError::NotInContainer));
    assert_eq!(
        container_from_cgroup(Some("1:x:/system.slice/docker/abc\n")),
        Err(CgroupError::NotInContainer)
    );
}

#[test]
fn hashing_is_md5_hex() {
    assert_eq!(content_hash(b""), "d41d8cd98f00b204e9800998ecf8427e");
    assert_eq!(content_hash(b"abc"), "900150983cd24fb0d6963f7d28e17f72");
    assert_eq!(to_hex(&[0x00, 0x7f, 0xab, 0xff]), "007fabff");
    assert_eq!(to_hex(&[]), "");
}

#[test]
fn elf_sniffing() {
    assert!(has_elf_magic(&[0x7f, 0x45, 0x4c, 0x46]));
    assert!(!has_elf_magic(&[0x7f, 0x45, 0x4c]));
    assert!(!has_elf_magic(b"#!/b"));
    assert_eq!(path_to_sniff("/dev/null", None), None);
    assert_eq!(path_to_sniff("out/bin/sh", Some("/dev/tty")), None);
    assert_eq!(path_to_sniff("out/bin/sh", Some("out/bin/bash")), Some("out/bin/bash".to_string()));
    assert_eq!(path_to_sniff("out/bin/sh", None), Some("out/bin/sh".to_string()));
    assert!(is_executable("out/bin/ls", None, Some(&[0x7f, 0x45, 0x4c, 0x46])));
    assert!(!is_executable("out/bin/ls", None, None));
    assert!(!is_executable("out/dev/x", None, Some(&[0x7f, 0x45, 0x4c, 0x46])));
}

#[test]
fn device_entries_are_not_fingerprinted() {
    let bytes = elf(b"x");
    assert!(entry_fingerprint("out/dev/zero", "out", None, Some(&bytes[..4]), Some(&bytes)).is_none());
    assert!(entry_fingerprint("out/bin/x", "out", None, Some(&bytes[..4]), None).is_none());
    let f = entry_fingerprint("out/bin/x", "out", None, Some(&bytes[..4]), Some(&bytes)).unwrap();
    assert_eq!(f.path, "/bin/x");
    assert_eq!(f.hash, md5_hex(&bytes));
}

#[test]
fn paths_in_image() {
    assert_eq!(in_image_path("out/usr/bin/hello", "out"), Some("/usr/bin/hello".to_string()));
    assert_eq!(in_image_path("out", "out"), None);
    assert_eq!(in_image_path("outer/x", "out"), None);
    assert_eq!(in_image_path("elsewhere/x", "out"), None);
    assert_eq!(layer_archive_path("unpack", "abc/layer.tar"), "unpack/abc/layer.tar");
}

#[test]
fn manifest_layer_lists() {
    let text = r#"[{"Config":"c.json","RepoTags":["x:1"],"Layers":["a/layer.tar","b/layer.tar"]}]"#;
    assert_eq!(
        manifest_layers(text),
        Ok(vec!["a/layer.tar".to_string(), "b/layer.tar".to_string()])
    );
    assert_eq!(manifest_layers("not json"), Err(ManifestError::Malformed));
    assert_eq!(manifest_layers(""), Err(ManifestError::Malformed));
    assert_eq!(manifest_layers("[]"), Err(ManifestError::NoLayers));
    assert_eq!(manifest_layers(r#"[{"Config":"c.json"}]"#), Err(ManifestError::NoLayers));
    assert_eq!(manifest_layers(r#"[{"Layers":[1]}]"#), Err(ManifestError::BadLayer));
    assert_eq!(manifest_layers(r#"{"Layers":["a.tar"]}"#), Err(ManifestError::NoLayers));
    assert_eq!(manifest_layers(r#"[{"Layers":"a.tar"}]"#), Err(ManifestError::NoLayers));
    assert_eq!(manifest_layers(r#"[{"Layers":[]}]"#), Ok(vec![]));
}

#[test]
fn text_helpers() {
    assert_eq!(split_on("a/b//c", '/'), vec!["a", "b", "", "c"]);
    assert_eq!(split_on("", '/'), vec![""]);
    assert!(contains_text("/x/dev/y", "/dev/"));
    assert!(!contains_text("/x/device/y", "/dev/"));
    assert!(contains_text("abc", ""));
    assert!(same_text("abc", "abc"));
    assert!(!same_text("abc", "abd"));
    assert_eq!(strip_prefix_text("outside", "out"), Some("side".to_string()));
    assert_eq!(strip_prefix_text("ou", "out"), None);
}

#[test]
fn reingestion_after_crash_matches_clean_ingestion() {
    let x = elf(b"x");
    let y = elf(b"y");
    let found = walk("out", &[("/bin/x", &x), ("/bin/y", &y), ("/bin/x", &y)]);
    let mut clean = Store::default();
    clean.ingest("d", &found);
    let plan = ingestion_ops("d", false, &found);
    for k in 0..plan.len() {
        let mut crashed = Store::default();
        for op in &plan[..k] {
            crashed.apply(op);
        }
        assert!(!crashed.is_hashed("d"));
        crashed.ingest("d", &found);
        assert_eq!(crashed.files, clean.files);
        assert_eq!(crashed.hashed, clean.hashed);
    }
    assert_eq!(clean.get("d", "/bin/x"), Some(md5_hex(&y)));
}

#[test]
fn layers_read_from_parsed_manifest() {
    let entry = |layers: Json| Json::Array(vec![Json::Object(vec![
        ("Config".to_string(), Json::Str("c.json".to_string())),
        ("Layers".to_string(), layers),
    ])]);
    let two = entry(Json::Array(vec![Json::Str("a.tar".to_string()), Json::Str("b.tar".to_string())]));
    assert_eq!(layers_of_json(&two), Ok(vec!["a.tar".to_string(), "b.tar".to_string()]));
    assert_eq!(layers_of_json(&entry(Json::Array(vec![]))), Ok(vec![]));
    let bad = entry(Json::Array(vec![Json::Str("a.tar".to_string()), Json::Null]));
    assert_eq!(layers_of_json(&bad), Err(ManifestError::BadLayer));
    assert_eq!(layers_of_json(&entry(Json::Str("a.tar".to_string()))), Err(ManifestError::NoLayers));
    assert_eq!(layers_of_json(&Json::Null), Err(ManifestError::NoLayers));
    assert_eq!(layers_of_json(&Json::Array(vec![])), Err(ManifestError::NoLayers));
    assert_eq!(layers_of_json(&Json::Array(vec![Json::Bool(true)])), Err(ManifestError::NoLayers));
}

#[test]
fn own_container_not_ingested() {
    let ids = vec!["a".to_string(), "me".to_string(), "b".to_string()];
    assert_eq!(monitored_containers(&ids, Some("me")), vec!["a".to_string(), "b".to_string()]);
    assert_eq!(monitored_containers(&ids, None), ids);
    assert!(monitored_containers(&vec![], Some("me")).is_empty());
}
