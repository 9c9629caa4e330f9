use earl::template::cache::{
    compare_path, normalize_fingerprint, CacheFile, FingerprintEntry, PathComponent, PathOrder, CACHE_VERSION,
};

fn path(text: &str) -> Vec<PathComponent> {
    let mut out = vec![PathComponent::RootDir];
    for part in text.split('/').filter(|p| !p.is_empty()) {
        out.push(PathComponent::Normal(part.as_bytes().to_vec()));
    }
    out
}

fn entry(text: &str, mtime: u64) -> FingerprintEntry {
    FingerprintEntry { path: path(text), mtime }
}

fn names(v: &[FingerprintEntry]) -> Vec<(String, u64)> {
    v.iter()
        .map(|e| {
            let parts: Vec<String> = e
                .path
                .iter()
                .filter_map(|c| match c {
                    PathComponent::Normal(b) => Some(String::from_utf8(b.clone()).unwrap()),
                    _ => None,
                })
                .collect();
            (format!("/{}", parts.join("/")), e.mtime)
        })
        .collect()
}

#[test]
fn entries_are_sorted_by_path_and_deduplicated() {
    let out = normalize_fingerprint(vec![
        entry("/home/u/.config/earl/b.hcl", 2),
        entry("/home/u/.config/earl/a.hcl", 1),
        entry("/home/u/.config/earl/b.hcl", 9),
    ]);
    assert_eq!(
        names(&out),
        vec![("/home/u/.config/earl/a.hcl".to_string(), 1), ("/home/u/.config/earl/b.hcl".to_string(), 2)]
    );
}

#[test]
fn first_occurrence_wins() {
    let out = normalize_fingerprint(vec![entry("/t/x.hcl", 100), entry("/t/x.hcl", 200)]);
    assert_eq!(names(&out), vec![("/t/x.hcl".to_string(), 100)]);
}

#[test]
fn empty_fingerprint_stays_empty() {
    assert!(normalize_fingerprint(vec![]).is_empty());
}

#[test]
fn paths_compare_by_component() {
    // Byte order would put "a-b" before "a/b"; paths compare component by component.
    assert_eq!(compare_path(&path("/a/b"), &path("/a-b")), PathOrder::Less);
    assert_eq!(compare_path(&path("/a"), &path("/a/b")), PathOrder::Less);
    assert_eq!(compare_path(&path("/a//b"), &path("/a/b")), PathOrder::Same);
    assert_eq!(compare_path(&path("/b"), &path("/a/z")), PathOrder::Greater);
    assert_eq!(
        compare_path(&vec![PathComponent::CurDir], &vec![PathComponent::ParentDir]),
        PathOrder::Less
    );
    assert_eq!(
        compare_path(&vec![PathComponent::RootDir], &vec![PathComponent::CurDir]),
        PathOrder::Less
    );
}

#[test]
fn normalizing_twice_changes_nothing() {
    let once = normalize_fingerprint(vec![entry("/z.hcl", 3), entry("/a/b.hcl", 1), entry("/a-b.hcl", 2), entry("/z.hcl", 4)]);
    let first = names(&once);
    let twice = normalize_fingerprint(once);
    assert_eq!(names(&twice), first);
    assert_eq!(
        first,
        vec![("/a/b.hcl".to_string(), 1), ("/a-b.hcl".to_string(), 2), ("/z.hcl".to_string(), 3)]
    );
}

#[test]
fn cache_file_holds_version_and_fingerprint() {
    let file = CacheFile { version: CACHE_VERSION, fingerprint: vec![entry("/tmp/foo.hcl", 1_700_000_000)], catalog: () };
    assert_eq!(file.version, 1);
    assert_eq!(names(&file.fingerprint), vec![("/tmp/foo.hcl".to_string(), 1_700_000_000)]);
}

#[test]
fn directory_order_does_not_change_the_fingerprint() {
    let global = vec![entry("/g/a.hcl", 1), entry("/shared/x.hcl", 5)];
    let local = vec![entry("/l/b.hcl", 2), entry("/shared/x.hcl", 5)];
    let mut gl = Vec::new();
    gl.extend(global.iter().map(|e| entry_clone(e)));
    gl.extend(local.iter().map(|e| entry_clone(e)));
    let mut lg = Vec::new();
    lg.extend(local.iter().map(|e| entry_clone(e)));
    lg.extend(global.iter().map(|e| entry_clone(e)));
    let a = names(&normalize_fingerprint(gl));
    let b = names(&normalize_fingerprint(lg));
    assert_eq!(a, b);
    assert_eq!(
        a,
        vec![("/g/a.hcl".to_string(), 1), ("/l/b.hcl".to_string(), 2), ("/shared/x.hcl".to_string(), 5)]
    );
}

fn entry_clone(e: &FingerprintEntry) -> FingerprintEntry {
    FingerprintEntry {
        path: e
            .path
            .iter()
            .map(|c| match c {
                PathComponent::RootDir => PathComponent::RootDir,
                PathComponent::CurDir => PathComponent::CurDir,
                PathComponent::ParentDir => PathComponent::ParentDir,
                PathComponent::Normal(b) => PathComponent::Normal(b.clone()),
            })
            .collect(),
        mtime: e.mtime,
    }
}
