use makecab::cli::{default_destination, define_is_supported};

#[test]
fn only_mszip_can_be_defined() {
    assert!(define_is_supported(b"CompressionType=MSZIP"));
    for other in [
        &b""[..],
        b"CompressionType=LZX",
        b"CompressionType=MSZIP ",
        b"compressiontype=mszip",
        b"CompressionType=MSZIQ",
        b"XompressionType=MSZIP",
        b"MaxDiskSize=0",
    ] {
        assert!(!define_is_supported(other));
    }
}

#[test]
fn default_destination_replaces_the_last_character() {
    assert_eq!(default_destination(b"setup.exe"), Some(b"setup.ex_".to_vec()));
    assert_eq!(default_destination(b"a"), Some(b"_".to_vec()));
    assert_eq!(default_destination(b"readme"), Some(b"readm_".to_vec()));
}

#[test]
fn default_destination_replaces_a_whole_character() {
    let name = "caf\u{e9}";
    assert_eq!(default_destination(name.as_bytes()), Some(b"caf_".to_vec()));
    let name = "data.\u{65e5}";
    assert_eq!(default_destination(name.as_bytes()), Some(b"data._".to_vec()));
    let name = "x\u{1f600}";
    assert_eq!(default_destination(name.as_bytes()), Some(b"x_".to_vec()));
}

#[test]
fn default_destination_of_no_character_is_none() {
    assert_eq!(default_destination(b""), None);
    assert_eq!(default_destination(&[0x80, 0xbf]), None);
}
