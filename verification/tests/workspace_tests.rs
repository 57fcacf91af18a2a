use vhdx_manager::diskpart::{attach_list_vdisk_script, detach_vdisk_script};
use vhdx_manager::error::AppError;
use vhdx_manager::winpath::join;
use vhdx_manager::workspace::{decide_attach, decide_detach, AttachDecision};
use vhdx_manager::models::{Node, NodeStatus};
use vhdx_manager::sys::CommandOutput;
use vhdx_manager::workspace::{
    attached_descendants, child_disk_path, command_error, delete_order, derive_name_from_path,
    device_path_to_drive, ensure_no_attached_descendants, has_vhdx_extension,
    new_node_record, normalize_path, path_within_root, pick_free_letter, pick_free_letters,
    should_skip_scan_dir, subtree_walk, vhd_file_name,
};

fn node(id: &str, parent: Option<&str>, path: &str) -> Node {
    Node {
        id: id.into(),
        parent_id: parent.map(|p| p.to_string()),
        name: id.into(),
        path: path.into(),
        bcd_guid: None,
        desc: None,
        created_at: "2024-01-01T00:00:00+00:00".into(),
        status: NodeStatus::Normal,
        boot_files_ready: false,
    }
}

fn devices() -> Vec<Option<String>> {
    let mut d = vec![None; 26];
    d[4] = Some(r"\Device\HarddiskVolume10".to_string());
    d
}

#[test]
fn paths_are_compared_by_normalised_key() {
    let none: Vec<Option<String>> = vec![];
    assert_eq!(normalize_path(r"  \\?\E:/WS/Disks/A.VHDX ", &none), r"e:\ws\disks\a.vhdx");
    assert_eq!(normalize_path(r"\\?\\\?\C:\x", &none), r"c:\x");
    assert_eq!(
        normalize_path(r"\Device\HarddiskVolume10\WS\a.vhdx", &devices()),
        r"e:\ws\a.vhdx"
    );
    assert_eq!(
        normalize_path(r"\\?\GLOBALROOT\Device\HarddiskVolume10\b.vhdx", &devices()),
        r"globalroot\device\harddiskvolume10\b.vhdx"
    );
}

#[test]
fn a_device_matches_only_up_to_a_component_boundary() {
    let mut d = vec![None; 26];
    d[2] = Some(r"\Device\HarddiskVolume1".to_string());
    d[4] = Some(r"\Device\HarddiskVolume10".to_string());
    assert_eq!(device_path_to_drive(r"\Device\HarddiskVolume10\foo", &d).as_deref(), Some(r"E:\foo"));
    assert_eq!(device_path_to_drive(r"\Device\HarddiskVolume1\foo", &d).as_deref(), Some(r"C:\foo"));
    assert_eq!(device_path_to_drive(r"\Device\HarddiskVolume1", &d).as_deref(), Some(r"C:\"));
    assert_eq!(device_path_to_drive(r"\Device\HarddiskVolume12\foo", &d), None);
}

#[test]
fn device_paths_map_to_drives() {
    assert_eq!(
        device_path_to_drive(r"\Device\HarddiskVolume10\a\\b", &devices()).as_deref(),
        Some(r"E:\a\\b")
    );
    // `\??\` and `\GLOBALROOT\` are removed with their trailing separator,
    // so what is left no longer starts with `\device\`.
    assert_eq!(device_path_to_drive(r"\??\GLOBALROOT\Device\HarddiskVolume10\a", &devices()), None);
    assert_eq!(device_path_to_drive(r"\??\Device\HarddiskVolume10\a", &devices()), None);
    assert_eq!(device_path_to_drive(r"\GLOBALROOT\Device\HarddiskVolume10\a", &devices()), None);
    assert_eq!(device_path_to_drive(r"\Device\HarddiskVolume10", &devices()).as_deref(), Some(r"E:\"));
    assert_eq!(device_path_to_drive(r"\Device\HarddiskVolume9\a", &devices()), None);
    assert_eq!(device_path_to_drive(r"E:\a", &devices()), None);
}

#[test]
fn roots_contain_their_subfolders_only() {
    let none: Vec<Option<String>> = vec![];
    assert!(path_within_root(r"E:\ws", r"e:\WS\disks\a.vhdx", &none));
    assert!(path_within_root(r"E:\ws", r"E:\ws", &none));
    assert!(!path_within_root(r"E:\ws", r"E:\ws2\a.vhdx", &none));
    assert!(!path_within_root(r"E:\ws", r"D:\ws\a.vhdx", &none));
}

#[test]
fn disk_names_drop_the_sequence_prefix() {
    assert_eq!(derive_name_from_path(r"E:\ws\disks\0003-win11.vhdx"), "win11");
    assert_eq!(derive_name_from_path(r"E:\ws\disks\base-1.vhdx"), "base-1");
    assert_eq!(derive_name_from_path(r"E:\ws\disks\0003-.vhdx"), "0003-");
    assert_eq!(derive_name_from_path(r"E:\ws\disks\-x.vhdx"), "x");
    assert_eq!(derive_name_from_path(r"E:\"), "vhdx");
    assert_eq!(derive_name_from_path("plain"), "plain");
}

#[test]
fn scan_skips_system_folders_and_keeps_vhdx_files() {
    assert!(should_skip_scan_dir(r"E:\System Volume Information"));
    assert!(should_skip_scan_dir(r"E:\$RECYCLE.BIN"));
    assert!(should_skip_scan_dir(r"E:\ws\Windows\"));
    assert!(!should_skip_scan_dir(r"E:\ws\disks"));
    assert!(has_vhdx_extension(r"E:\a.VHDX"));
    assert!(!has_vhdx_extension(r"E:\a.vhd"));
    assert!(!has_vhdx_extension(r"E:\.vhdx"));
}

#[test]
fn free_letters_come_from_s_to_z() {
    // A, C, S and U in use.
    let mask: u32 = (1 << 0) | (1 << 2) | (1 << 18) | (1 << 20);
    assert_eq!(pick_free_letters(mask, 2), Some(vec!['T', 'V']));
    assert_eq!(pick_free_letter(mask), Some('T'));
    assert_eq!(pick_free_letters(0, 1), None);
    assert_eq!(pick_free_letters(mask, 0), None);
    let all: u32 = 0xff << 18;
    assert_eq!(pick_free_letter(all | 1), None);
    assert_eq!(pick_free_letters(1, 8).map(|v| v.len()), Some(8));
    assert_eq!(pick_free_letters(1, 9), None);
}

#[test]
fn command_errors_summarise_the_run() {
    let o = CommandOutput { exit_code: Some(-1), stdout: "out".into(), stderr: " ".into() };
    match command_error("diskpart attach", &o, Some(r"C:\t\a.txt")) {
        AppError::Message(m) => {
            assert_eq!(m, r"diskpart attach failed: exit=-1 | script=C:\t\a.txt | stdout=out")
        }
        _ => panic!(),
    }
    let o = CommandOutput { exit_code: None, stdout: "".into(), stderr: "".into() };
    match command_error("bcdboot", &o, None) {
        AppError::Message(m) => assert_eq!(m, "bcdboot failed: no output"),
        _ => panic!(),
    }
}

#[test]
fn new_disks_are_numbered_and_lower_cased() {
    assert_eq!(vhd_file_name(3, "Win11"), "0003-win11.vhdx");
    assert_eq!(vhd_file_name(12345, "A"), "12345-a.vhdx");
    assert_eq!(vhd_file_name(-5, "B"), "-005-b.vhdx");
}

#[test]
fn new_records_follow_the_bcd_guid() {
    let n = new_node_record("id1".into(), Some("p".into()), "win", r"E:\a.vhdx", "", None);
    assert_eq!(n.bcd_guid, None);
    assert!(!n.boot_files_ready);
    assert_eq!(n.status, NodeStatus::Normal);
    let n = new_node_record("id2".into(), None, "win", r"E:\a.vhdx", "{g}", Some("d".into()));
    assert_eq!(n.bcd_guid.as_deref(), Some("{g}"));
    assert!(n.boot_files_ready);
    assert_eq!(n.desc.as_deref(), Some("d"));
    assert!(!n.created_at.is_empty());
}

#[test]
fn differencing_disks_sit_beside_their_parent() {
    match child_disk_path(r"E:\ws\disks\0002-base.vhdx", "0003-child.vhdx") {
        Ok(p) => assert_eq!(p, r"E:\ws\disks\0003-child.vhdx"),
        Err(_) => panic!(),
    }
    match child_disk_path(r"E:\", "x.vhdx") {
        Err(AppError::Message(m)) => assert_eq!(m, r"invalid parent path: E:\"),
        _ => panic!(),
    }
}

fn tree() -> Vec<Node> {
    vec![
        node("a", None, r"E:\a.vhdx"),
        node("b", Some("a"), r"E:\b.vhdx"),
        node("c", Some("a"), r"E:\c.vhdx"),
        node("d", Some("b"), r"E:\d.vhdx"),
        node("x", None, r"E:\x.vhdx"),
        node("y", Some("x"), r"E:\y.vhdx"),
    ]
}

#[test]
fn subtree_is_deleted_leaves_first() {
    let order = delete_order(&tree(), "a");
    assert_eq!(order, vec!["d", "c", "b", "a"]);
    assert_eq!(delete_order(&tree(), "y"), vec!["y"]);
    assert_eq!(delete_order(&tree(), "missing"), vec!["missing"]);
}

#[test]
fn a_parent_cycle_does_not_loop() {
    let nodes = vec![node("a", Some("b"), "a"), node("b", Some("a"), "b")];
    assert_eq!(delete_order(&nodes, "a"), vec!["b", "a"]);
}

#[test]
fn attached_descendants_block_operations() {
    let nodes = tree();
    let walk = subtree_walk(&nodes, "a");
    assert_eq!(walk, vec![1, 2, 3]);
    let attached = attached_descendants(&nodes, &walk, &vec![false, true, true]);
    assert_eq!(attached.len(), 2);
    assert_eq!(attached[0].id, "c");
    assert_eq!(attached[1].id, "d");
    match ensure_no_attached_descendants(&attached) {
        Err(AppError::Message(m)) => assert_eq!(
            m,
            r"attached descendants must be detached first: c (E:\c.vhdx), d (E:\d.vhdx)"
        ),
        _ => panic!(),
    }
    assert!(ensure_no_attached_descendants(&vec![]).is_ok());
}

#[test]
fn a_created_disk_is_named_back_by_a_scan() {
    let file = vhd_file_name(12, "Win11-Dev.Test");
    assert_eq!(file, "0012-win11-dev.test.vhdx");
    assert_eq!(derive_name_from_path(&join(r"E:\ws\disks", &file)), "win11-dev.test");
    assert_eq!(derive_name_from_path(&join("E:", &vhd_file_name(12345, "x"))), "x");
    assert_eq!(derive_name_from_path(&vhd_file_name(0, "base")), "base");
    assert_eq!(derive_name_from_path(&format!("{}/{:04}-{}.vhdx", r"E:\ws", 7, "My.Disk")), "My.Disk");
    assert_eq!(derive_name_from_path(&format!("{}/{:04}-{}.vhdx", "", 123456, "a-b")), "a-b");
}

#[test]
fn attach_and_detach_decide_before_running() {
    let below = vec![node("c", Some("a"), r"E:\c.vhdx")];
    assert!(matches!(decide_attach(true, &below, r"E:\a.vhdx"), AttachDecision::AlreadyDone));
    match decide_attach(false, &below, r"E:\a.vhdx") {
        AttachDecision::Refused(AppError::Message(m)) => {
            assert_eq!(m, r"attached descendants must be detached first: c (E:\c.vhdx)")
        }
        _ => panic!("a descendant is attached"),
    }
    match decide_attach(false, &vec![], r"E:\a.vhdx") {
        AttachDecision::RunDiskpart { script_name, script } => {
            assert_eq!(script_name, "attach_vhd.txt");
            assert_eq!(script, attach_list_vdisk_script(r"E:\a.vhdx"));
        }
        _ => panic!("the disk is to be attached"),
    }
    assert!(matches!(decide_detach(true, &below, r"E:\a.vhdx"), AttachDecision::Refused(_)));
    assert!(matches!(decide_detach(false, &vec![], r"E:\a.vhdx"), AttachDecision::AlreadyDone));
    match decide_detach(true, &vec![], r"E:\a.vhdx") {
        AttachDecision::RunDiskpart { script_name, script } => {
            assert_eq!(script_name, "detach_vhd.txt");
            assert_eq!(script, detach_vdisk_script(r"E:\a.vhdx", &[], true));
            assert_eq!(script, "select vdisk file=\"E:\\a.vhdx\"\nselect vdisk file=\"E:\\a.vhdx\"\ndetach vdisk");
        }
        _ => panic!("the disk is to be detached"),
    }
}
