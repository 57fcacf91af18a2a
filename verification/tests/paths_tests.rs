use vhdx_manager::error::AppError;
use vhdx_manager::paths::{
    is_windows_drive_root, normalize_workspace_path, validate_workspace_root, AppPaths,
};

#[test]
fn rejects_drive_roots() {
    for sample in [r"E:\", r"E:/", r"e:", r"\\?\E:\", r"D:\"] {
        assert!(
            validate_workspace_root(sample).is_err(),
            "should reject {sample}"
        );
    }
}

#[test]
fn accepts_normal_folders() {
    for sample in [r"E:\test-vhdx", r"E:\backup", r"D:\Programs\vhdx-manager", r"\\?\E:\test-vhdx\"] {
        assert!(
            validate_workspace_root(sample).is_ok(),
            "should accept {sample}"
        );
    }
}

#[test]
fn normalizes_trailing_slashes_for_detection() {
    assert!(is_windows_drive_root(&normalize_workspace_path(r"E:\")));
    assert!(is_windows_drive_root(&normalize_workspace_path(r"E:/")));
    assert!(!is_windows_drive_root(&normalize_workspace_path(
        r"E:\test-vhdx\"
    )));
}

fn message_of(r: Result<(), AppError>) -> String {
    match r {
        Err(AppError::Message(m)) => m,
        _ => panic!("expected a message error"),
    }
}

#[test]
fn blank_root_is_reported_as_empty() {
    assert_eq!(message_of(validate_workspace_root("   ")), "workspace root path is empty");
    assert_eq!(message_of(validate_workspace_root("")), "workspace root path is empty");
}

#[test]
fn drive_root_error_names_the_rule() {
    assert_eq!(
        message_of(validate_workspace_root(r"  z:\\\ ")),
        r"workspace root cannot be a drive root (for example E:\); choose a normal folder such as E:\test-vhdx"
    );
}

#[test]
fn normalization_strips_verbatim_prefix_and_trailing_separators() {
    assert_eq!(normalize_workspace_path(r"  \\?\E:/a/b//  "), r"E:\a\b");
    assert_eq!(normalize_workspace_path(r"E:\\\"), "E:");
    assert!(!is_windows_drive_root("1:"));
    assert!(!is_windows_drive_root(r"E:\x"));
}

#[test]
fn layout_folders_sit_below_the_root() {
    let p = AppPaths::new(r"E:\ws");
    assert_eq!(p.root(), r"E:\ws");
    assert_eq!(p.base_dir(), r"E:\ws\disks");
    assert_eq!(p.diff_dir(), r"E:\ws\disks");
    assert_eq!(p.meta_dir(), r"E:\ws\meta");
    assert_eq!(p.tmp_dir(), r"E:\ws\meta\tmp");
    assert_eq!(p.locales_dir(), r"E:\ws\meta\locales");
    assert_eq!(p.mount_root(), r"E:\ws\meta\mnt");
    assert_eq!(p.vms_dir(), r"E:\ws\vms");
    assert_eq!(p.state_db_path(), r"E:\ws\meta\state.db");
    assert_eq!(p.ops_log_path(), r"E:\ws\meta\ops.log");
    let with_sep = AppPaths::new(r"E:\ws\");
    assert_eq!(with_sep.base_dir(), r"E:\ws\disks");
    let dirs = p.layout_dirs();
    assert_eq!(dirs.len(), 8);
    assert_eq!(dirs[0], r"E:\ws");
    assert_eq!(dirs[7], r"E:\ws\vms");
}

#[test]
fn a_cloned_layout_keeps_its_root() {
    let p = AppPaths::new(r"E:\ws");
    let q = p.clone();
    assert_eq!(q.root(), r"E:\ws");
    assert_eq!(q.base_dir(), p.base_dir());
}
