use vhdx_manager::vhdx::{
    decode_locator_text, extract_locator_value, inspect_vhd_parent_path, parse_parent_locator,
    pick_existing, resolve_relative_parent, sanitize_locator_value,
};

#[test]
fn prefers_relative_parent_when_absolute_is_stale() {
    let locator = parse_parent_locator(
        "parent_linkage{guid}absolute_win32_pathE:\\disks\\0002-base.vhdxrelative_path.\\0002-base.vhdxvolume_path\\\\?\\Volume{guid}\\disks\\0002-base.vhdxparent_linkage2{00000000-0000-0000-0000-000000000000}",
    );

    let resolved = locator.resolve(r"E:\backup\disks\0003-init.vhdx");
    assert_eq!(
        resolved.as_deref(),
        Some(r"E:\backup\disks\0002-base.vhdx")
    );
}

#[test]
fn falls_back_to_absolute_parent_without_relative_path() {
    let locator = parse_parent_locator(
        "parent_linkage{guid}absolute_win32_pathE:\\workspace\\disks\\0002-base.vhdxparent_linkage2{00000000-0000-0000-0000-000000000000}",
    );

    let resolved = locator.resolve(r"E:\workspace\disks\0003-child.vhdx");
    assert_eq!(
        resolved.as_deref(),
        Some(r"E:\workspace\disks\0002-base.vhdx")
    );
}

#[test]
fn returns_none_when_no_parent_locator_exists() {
    let locator = parse_parent_locator("random text without locator");
    let resolved = locator.resolve(r"E:\workspace\disks\0002-base.vhdx");
    assert_eq!(resolved, None);
}

#[test]
fn locator_entries_are_parsed_and_cleaned() {
    let locator = parse_parent_locator(
        "parent_linkage{guid}absolute_win32_pathE:\\disks\\0002-base.vhdxrelative_path.\\0002-base.vhdxvolume_path\\\\?\\Volume{guid}\\disks\\0002-base.vhdxparent_linkage2{0}",
    );
    assert_eq!(locator.absolute_win32_path.as_deref(), Some(r"E:\disks\0002-base.vhdx"));
    assert_eq!(locator.relative_path.as_deref(), Some(r".\0002-base.vhdx"));
    assert_eq!(locator.volume_path.as_deref(), Some(r"\\?\Volume{guid}\disks\0002-base.vhdx"));
    let c = locator.candidates(r"E:\backup\disks\0003-init.vhdx");
    assert_eq!(c.len(), 3);
    assert_eq!(c[1], r"E:\disks\0002-base.vhdx");
}

#[test]
fn noise_before_a_value_is_dropped() {
    assert_eq!(sanitize_locator_value("\u{1}\u{0}  $%E:/a/b.vhdx\u{0} \n").as_deref(), Some(r"E:\a\b.vhdx"));
    assert_eq!(sanitize_locator_value("\u{0}\u{2} 123 "), None);
    assert_eq!(extract_locator_value("xxrelative_path\0\0.\\p.vhdx\0\0", "relative_path").as_deref(), Some(r".\p.vhdx"));
    assert_eq!(extract_locator_value("no key here", "relative_path"), None);
}

#[test]
fn relative_parent_uses_the_child_folder() {
    assert_eq!(resolve_relative_parent(r"E:\a\b\c.vhdx", "./d.vhdx").as_deref(), Some(r"E:\a\b\d.vhdx"));
    assert_eq!(resolve_relative_parent(r"E:\c.vhdx", "d.vhdx").as_deref(), Some(r"E:\d.vhdx"));
    assert_eq!(resolve_relative_parent(r"E:\a\c.vhdx", r"F:\x.vhdx").as_deref(), Some(r"F:\x.vhdx"));
    assert_eq!(resolve_relative_parent(r"E:\", "d.vhdx"), None);
}

#[test]
fn an_existing_candidate_is_preferred() {
    let c = vec!["a".to_string(), "b".to_string(), "c".to_string()];
    assert_eq!(pick_existing(&c, &vec![false, true, true]).as_deref(), Some("b"));
    assert_eq!(pick_existing(&c, &vec![false, false, false]).as_deref(), Some("a"));
    assert_eq!(pick_existing(&vec![], &vec![]), None);
}

fn utf16le(s: &str) -> Vec<u8> {
    s.encode_utf16().flat_map(|u| u.to_le_bytes()).collect()
}

#[test]
fn locator_text_is_decoded_from_utf16le() {
    let mut bytes = utf16le("ab\u{1F600}c");
    bytes.push(0x41);
    let text: String = decode_locator_text(&bytes).into_iter().collect();
    assert_eq!(text, "ab\u{1F600}c");
    let lone = vec![0x00, 0xD8, 0x41, 0x00];
    let text: String = decode_locator_text(&lone).into_iter().collect();
    assert_eq!(text, "\u{FFFD}A");
}

#[test]
fn parent_path_is_read_from_the_header() {
    let header = utf16le("\0\0parent_linkage{g}absolute_win32_pathE:\\w\\disks\\0002-base.vhdxparent_linkage2{0}");
    assert_eq!(
        inspect_vhd_parent_path(r"E:\w\disks\0003-child.vhdx", &header).as_deref(),
        Some(r"E:\w\disks\0002-base.vhdx")
    );
    assert_eq!(inspect_vhd_parent_path(r"E:\w\disks\0002-base.vhdx", &utf16le("nothing")), None);
}
