use netiso_srv::names::{
    ends_with, is_disable_name, normalize_name, BACKSLASH, DISABLE_NAME, MOUNT_TAG,
};

fn reference(raw: &str) -> String {
    raw.replace("\\Mount", "").replace("\\", "").replace("\x00", "")
}

#[test]
fn name_constants_spell_their_ascii_text() {
    assert_eq!(&MOUNT_TAG, b"\\Mount");
    assert_eq!(&DISABLE_NAME, b"[Disable Current ISO]");
    assert_eq!(BACKSLASH, b'\\');
}

#[test]
fn normalize_strips_tag_backslashes_and_nuls() {
    assert_eq!(normalize_name(b"\\Mount\\Disc A.iso\0"), b"Disc A.iso".to_vec());
    assert_eq!(normalize_name(b"Disc A"), b"Disc A".to_vec());
    assert_eq!(normalize_name(b""), Vec::<u8>::new());
    assert_eq!(normalize_name(b"\\\\\0\0"), Vec::<u8>::new());
    assert_eq!(normalize_name(b"\\Mount"), Vec::<u8>::new());
}

#[test]
fn normalize_cuts_every_tag() {
    assert_eq!(normalize_name(b"\\Mount\\Mounta\\Mount"), b"a".to_vec());
}

#[test]
fn normalize_does_not_search_again_what_a_cut_left() {
    // Cutting the inner tag leaves "\Mount", of which only the backslash goes.
    assert_eq!(normalize_name(b"\\Mo\\Mountunt"), b"Mount".to_vec());
}

#[test]
fn normalize_keeps_a_tag_without_its_backslash() {
    assert_eq!(normalize_name(b"Mount\\x"), b"Mountx".to_vec());
    assert_eq!(normalize_name(b"\\mount"), b"mount".to_vec());
    assert_eq!(normalize_name(b"\\Moun"), b"Moun".to_vec());
}

#[test]
fn normalize_agrees_with_string_replace() {
    let samples: [&str; 12] = [
        "",
        "\\Mount\\game.iso",
        "\\Mount\\\\Mount\\x\0\0",
        "\\Mo\\Mountunt",
        "\\\\Mount",
        "\\Mount\\Mount\\Mount",
        "plain name.iso",
        "\0\\\0\\",
        "\\M\\Mo\\Mou\\Moun\\Mount!",
        "[Disable Current ISO]",
        "\\Mount\\[Disable Current ISO]\0",
        "caf\u{e9}\\Mount\u{1f4bf}.iso",
    ];
    for raw in samples.iter() {
        assert_eq!(normalize_name(raw.as_bytes()), reference(raw).into_bytes());
    }
}

#[test]
fn disable_name_is_recognised_exactly() {
    assert!(is_disable_name(b"[Disable Current ISO]"));
    assert!(!is_disable_name(b"[Disable Current ISO"));
    assert!(!is_disable_name(b"[Disable Current ISO]]"));
    assert!(!is_disable_name(b"[disable current iso]"));
    assert!(!is_disable_name(b""));
}

#[test]
fn ends_with_matches_suffixes() {
    assert!(ends_with(b"Disc A.iso", b"A.iso"));
    assert!(ends_with(b"Disc A.iso", b"Disc A.iso"));
    assert!(ends_with(b"Disc A.iso", b""));
    assert!(ends_with(b"", b""));
    assert!(!ends_with(b"Disc A.iso", b"Disc"));
    assert!(!ends_with(b"Disc A.iso", b"a.iso"));
    assert!(!ends_with(b"iso", b"A.iso"));
}
