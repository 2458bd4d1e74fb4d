use scrutin::hashing::{hash_file, hash_package_files, is_dep_map_stale, project_key, runner_cache_path};

#[test]
fn hash_file_is_xxh64_seed_zero() {
    assert_eq!(hash_file(b""), 0xEF46DB3751D8E999);
    assert_eq!(hash_file(b"abc"), 0x44BC2CF5AD770999);
    assert_ne!(hash_file(b"abc"), hash_file(b"abd"));
}

fn files(entries: &[(&str, &str)]) -> Vec<(String, Vec<u8>)> {
    entries.iter().map(|(p, c)| (p.to_string(), c.as_bytes().to_vec())).collect()
}

#[test]
fn hash_package_files_keeps_last_digest_per_path() {
    let h = hash_package_files(&files(&[("/p/R/a.R", "x"), ("/p/tests/t.R", "y"), ("/p/R/a.R", "z")]));
    assert_eq!(h.len(), 2);
    assert_eq!(h[0], ("/p/R/a.R".to_string(), hash_file(b"z")));
    assert_eq!(h[1], ("/p/tests/t.R".to_string(), hash_file(b"y")));
}

#[test]
fn dep_map_stale_on_any_add_delete_or_change() {
    let snap = hash_package_files(&files(&[("a", "1"), ("b", "2")]));
    assert!(!is_dep_map_stale(Some(&snap), &snap.clone()));
    let changed = hash_package_files(&files(&[("a", "1"), ("b", "3")]));
    assert!(is_dep_map_stale(Some(&snap), &changed));
    let added = hash_package_files(&files(&[("a", "1"), ("b", "2"), ("c", "3")]));
    assert!(is_dep_map_stale(Some(&snap), &added));
    let deleted = hash_package_files(&files(&[("a", "1")]));
    assert!(is_dep_map_stale(Some(&snap), &deleted));
    let renamed = hash_package_files(&files(&[("a", "1"), ("c", "2")]));
    assert!(is_dep_map_stale(Some(&snap), &renamed));
    let reordered = hash_package_files(&files(&[("b", "2"), ("a", "1")]));
    assert!(!is_dep_map_stale(Some(&snap), &reordered));
}

#[test]
fn dep_map_stale_without_snapshot() {
    let cur = hash_package_files(&files(&[("a", "1")]));
    assert!(is_dep_map_stale(None, &cur));
    assert!(is_dep_map_stale(Some(&Vec::new()), &cur));
    assert!(is_dep_map_stale(Some(&Vec::new()), &Vec::new()));
}

#[test]
fn runner_cache_location() {
    let key = project_key("/home/u/proj");
    assert_eq!(key, format!("{:016x}", xxhash_rust::xxh64::xxh64(b"/home/u/proj", 0)));
    assert_eq!(key.len(), 16);
    assert_eq!(project_key(""), "ef46db3751d8e999");
    assert_eq!(
        runner_cache_path("/home/u/.cache", "", "runner_testthat.R"),
        "/home/u/.cache/scrutin/runners/ef46db3751d8e999/runner_testthat.R"
    );
    assert_eq!(
        runner_cache_path("/tmp/", "", "scrutin_pytest.py"),
        "/tmp/scrutin/runners/ef46db3751d8e999/scrutin_pytest.py"
    );
}
