use vhdx_manager::winpath::{file_name_chars, join, parent};

fn file_name(p: &str) -> Option<String> {
    file_name_chars(&p.chars().collect()).map(|v| v.into_iter().collect())
}

#[test]
fn file_names_follow_path_components() {
    assert_eq!(file_name(r"E:\ws\disks\a.vhdx").as_deref(), Some("a.vhdx"));
    assert_eq!(file_name(r"E:\ws\disks\").as_deref(), Some("disks"));
    assert_eq!(file_name(r"E:\ws\disks\.").as_deref(), Some("disks"));
    assert_eq!(file_name(r"E:\ws\disks\.\.\").as_deref(), Some("disks"));
    assert_eq!(file_name("a/./b").as_deref(), Some("b"));
    assert_eq!(file_name(r"E:\ws\.."), None);
    assert_eq!(file_name(".."), None);
    assert_eq!(file_name("."), None);
    assert_eq!(file_name(r"E:\."), None);
    assert_eq!(file_name(r"E:\"), None);
    assert_eq!(file_name(""), None);
}

#[test]
fn parents_skip_current_dir_components() {
    assert_eq!(parent(r"E:\ws\disks\a.vhdx").as_deref(), Some(r"E:\ws\disks"));
    assert_eq!(parent(r"E:\ws\.\a.vhdx").as_deref(), Some(r"E:\ws"));
    assert_eq!(parent(r"E:\ws\disks\.").as_deref(), Some(r"E:\ws"));
    assert_eq!(parent(r"E:\.\a").as_deref(), Some(r"E:\"));
    assert_eq!(parent(r"E:\ws\..").as_deref(), Some(r"E:\ws"));
    assert_eq!(parent("./a").as_deref(), Some("."));
    assert_eq!(parent("a").as_deref(), Some(""));
    assert_eq!(parent(r"E:\."), None);
    assert_eq!(parent(r"E:\"), None);
}

#[test]
fn joins_follow_path_push() {
    assert_eq!(join(r"E:\ws", "disks"), r"E:\ws\disks");
    assert_eq!(join(r"E:\ws\", "disks"), r"E:\ws\disks");
    assert_eq!(join("E:", "disks"), "E:disks");
    assert_eq!(join(r"E:\ws", r"\x"), r"E:\x");
    assert_eq!(join(r"E:\ws", r"F:\x"), r"F:\x");
}
