use elworthy::disk_cache::{decode_entry, encode_entry, is_entry_file_name, join_path, CacheDirError, DiskCache, EntryError, FORMAT_VERSION};
use elworthy::expr::Expr;
use elworthy::hash::expr_hash;
use elworthy::serial::DecodeError;

#[test]
fn store_then_load_roundtrips() {
    let e = Expr::param(0) * Expr::state(0) + Expr::c(1.0f64.to_bits());
    let bytes = encode_entry(&e);
    let loaded = decode_entry(&bytes);
    assert!(loaded.is_ok());
    let loaded = loaded.unwrap();
    assert_eq!(expr_hash(&e), expr_hash(&loaded));
}

#[test]
fn entry_starts_with_the_format_version() {
    let bytes = encode_entry(&Expr::time());
    assert_eq!(FORMAT_VERSION, 1);
    assert_eq!(bytes, vec![1, 0, 0, 0, 1, 1]);
}

#[test]
fn stale_or_broken_entries_are_refused() {
    assert_eq!(decode_entry(&[1, 0]).err(), Some(EntryError::Truncated));
    assert_eq!(decode_entry(&[2, 0, 0, 0, 1, 1]).err(), Some(EntryError::StaleVersion));
    assert_eq!(
        decode_entry(&[1, 0, 0, 0, 7]).err(),
        Some(EntryError::Malformed(DecodeError::UnknownExprTag(7)))
    );
    assert_eq!(
        decode_entry(&[1, 0, 0, 0]).err(),
        Some(EntryError::Malformed(DecodeError::UnexpectedEof))
    );
}

#[test]
fn entry_paths_are_named_by_hash() {
    let cache = DiskCache::new("/tmp/cache".to_string());
    assert_eq!(cache.path_for_hash(0x2a), "/tmp/cache/000000000000002a.ast");
    assert_eq!(cache.path_for_hash(u64::MAX), "/tmp/cache/ffffffffffffffff.ast");
    let e = Expr::state(0);
    assert_eq!(cache.path_for(&e), format!("/tmp/cache/{:016x}.ast", expr_hash(&e)));
    let slash = DiskCache::new("/tmp/cache/".to_string());
    assert_eq!(slash.path_for_hash(1), "/tmp/cache/0000000000000001.ast");
    assert_eq!(slash.root(), "/tmp/cache/");
}

#[test]
fn default_root_prefers_explicit_then_xdg_then_home() {
    let c = DiskCache::open_default(Some("/a".to_string()), Some("/b".to_string()), Some("/h".to_string())).ok().unwrap();
    assert_eq!(c.root(), "/a");
    let c = DiskCache::open_default(None, Some("/b".to_string()), Some("/h".to_string())).ok().unwrap();
    assert_eq!(c.root(), "/b/elworthy");
    let c = DiskCache::open_default(None, None, Some("/home/u".to_string())).ok().unwrap();
    assert_eq!(c.root(), "/home/u/.cache/elworthy");
    assert_eq!(DiskCache::open_default(None, None, None).err(), Some(CacheDirError::NotFound));
}

#[test]
fn joining_paths() {
    assert_eq!(join_path("", "x"), "x");
    assert_eq!(join_path("a/", "x"), "a/x");
    assert_eq!(join_path("a", "x/y"), "a/x/y");
}

#[test]
fn cache_file_names_carry_the_ast_extension() {
    assert!(is_entry_file_name("00000000000000ff.ast"));
    assert!(is_entry_file_name("x.ast"));
    assert!(!is_entry_file_name(".ast"));
    assert!(!is_entry_file_name("x.ast.tmp"));
    assert!(!is_entry_file_name("ast"));
    assert!(!is_entry_file_name("x.asx"));
}
