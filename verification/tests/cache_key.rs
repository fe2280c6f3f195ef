use lunar::cache_key::{fnv1a_hash, icon_cache_key, icon_file_name, FileStamp};

#[test]
fn cache_key_includes_source_and_index() {
    assert_ne!(
        icon_cache_key(r"C:\Apps\app.exe", None, None),
        icon_cache_key(r"C:\Apps\app.exe", Some(0), None)
    );
    assert_ne!(
        icon_cache_key(r"C:\Apps\app.exe", None, None),
        icon_cache_key(r"C:\Other\app.exe", None, None)
    );
}

#[test]
fn fnv1a_of_known_texts() {
    assert_eq!(fnv1a_hash(b""), 0xcbf29ce484222325);
    assert_eq!(fnv1a_hash(b"a|-2147483648"), 6766275100669740190);
}

#[test]
fn cache_key_hashes_lowercased_text() {
    assert_eq!(icon_cache_key("A", None, None), 6766275100669740190);
    assert_eq!(icon_cache_key(r"C:\Apps\APP.exe", None, None), 7120960873530928651);
    assert_eq!(icon_cache_key(r"c:\apps\app.exe", Some(0), None), 2765202663873874185);
    assert_eq!(icon_cache_key("É", Some(1), None), 17955203856944045090);
}

#[test]
fn cache_key_includes_file_stamp() {
    let stamp = FileStamp { len: 1024, modified_nanos: Some(99) };
    assert_eq!(icon_cache_key(r"C:\Apps\app.exe", Some(5), Some(stamp)), 7374479757631109677);
    let later = FileStamp { len: 1024, modified_nanos: Some(100) };
    assert_ne!(
        icon_cache_key(r"C:\Apps\app.exe", Some(5), Some(stamp)),
        icon_cache_key(r"C:\Apps\app.exe", Some(5), Some(later))
    );
}

#[test]
fn icon_file_name_is_sixteen_hex_digits() {
    assert_eq!(icon_file_name(0x5de6a35ad3fd849e), "5de6a35ad3fd849e.png");
    assert_eq!(icon_file_name(0), "0000000000000000.png");
    assert_eq!(icon_file_name(u64::MAX), "ffffffffffffffff.png");
    assert_eq!(icon_file_name(0xab), format!("{:016x}.png", 0xabu64));
}

#[test]
fn missing_index_keys_like_minimum_index() {
    assert_eq!(
        icon_cache_key(r"C:\Apps\app.exe", None, None),
        icon_cache_key(r"C:\Apps\app.exe", Some(i32::MIN), None)
    );
}

#[test]
fn size_change_changes_key() {
    let a = FileStamp { len: 1, modified_nanos: None };
    let b = FileStamp { len: 10, modified_nanos: None };
    assert_ne!(icon_cache_key("x.exe", None, Some(a)), icon_cache_key("x.exe", None, Some(b)));
    assert_ne!(icon_cache_key("x.exe", None, Some(a)), icon_cache_key("x.exe", None, None));
}
