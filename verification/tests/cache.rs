use patchbay::cache::{download_file_name, is_archive, is_binary_entry, url_cache_key};

#[test]
fn cache_key_is_the_first_half_of_the_sha256() {
    // SHA-256("abc") = ba7816bf8f01cfea414140de5dae2223b00361a396177a9cb410ff61f20015ad
    assert_eq!(url_cache_key("abc"), "ba7816bf8f01cfea414140de5dae2223");
    assert_eq!(url_cache_key("abc").len(), 32);
    assert_ne!(url_cache_key("abd"), url_cache_key("abc"));
}

#[test]
fn file_name_of_url() {
    assert_eq!(download_file_name("https://example.com/a/b/tool.tar.gz?x=1"), "tool.tar.gz");
    assert_eq!(download_file_name("https://example.com/tool"), "tool");
    assert_eq!(download_file_name("plain"), "plain");
    assert_eq!(download_file_name("https://example.com/dir/"), "");
}

#[test]
fn archives_and_binaries() {
    assert!(is_archive("x.tar.gz"));
    assert!(is_archive("x.tgz"));
    assert!(!is_archive("x.zip"));
    assert!(is_binary_entry("tool", ""));
    assert!(is_binary_entry("tool.bin", "bin"));
    assert!(!is_binary_entry(".hidden", ""));
    assert!(!is_binary_entry("README.md", "md"));
    assert!(!is_binary_entry("", ""));
}
