use vhdx_manager::storage::{
    compact_command_output, find_system_partition_number, inspect_vhd_layout_script,
    is_vhd_attached_script, matches_gpt_type, normalize_guid, ps_escape_single,
    script_json_output, VhdLayout, VhdPartition, GPT_BASIC_DATA_PARTITION,
};
use vhdx_manager::error::AppError;
use vhdx_manager::sys::CommandOutput;

fn sample_layout() -> VhdLayout {
    VhdLayout {
        path: r"E:\workspace\disks\0003-base-child.vhdx".into(),
        attached: true,
        partitions: vec![
            VhdPartition {
                partition_number: 1,
                kind: "Reserved".into(),
                gpt_type: Some("{e3c9e316-0b5c-4db8-817d-f92df00215ae}".into()),
                size_mb: 16,
                drive_letter: None,
                file_system: None,
                label: None,
            },
            VhdPartition {
                partition_number: 2,
                kind: "System".into(),
                gpt_type: Some("{c12a7328-f81f-11d2-ba4b-00a0c93ec93b}".into()),
                size_mb: 100,
                drive_letter: None,
                file_system: Some("FAT32".into()),
                label: Some("EFI".into()),
            },
            VhdPartition {
                partition_number: 3,
                kind: "Reserved".into(),
                gpt_type: Some("{e3c9e316-0b5c-4db8-817d-f92df00215ae}".into()),
                size_mb: 16,
                drive_letter: None,
                file_system: None,
                label: None,
            },
            VhdPartition {
                partition_number: 4,
                kind: "Basic".into(),
                gpt_type: Some("{ebd0a0a2-b9e5-4433-87c0-68b6b72699c7}".into()),
                size_mb: 61295,
                drive_letter: None,
                file_system: Some("NTFS".into()),
                label: Some("System".into()),
            },
        ],
    }
}

fn part(n: u32, kind: &str, gpt: Option<&str>, size_mb: u64) -> VhdPartition {
    VhdPartition {
        partition_number: n,
        kind: kind.into(),
        gpt_type: gpt.map(|g| g.to_string()),
        size_mb,
        drive_letter: None,
        file_system: None,
        label: None,
    }
}

#[test]
fn finds_partitions_by_gpt_type() {
    let layout = sample_layout();
    assert_eq!(find_system_partition_number(&layout), Some(4));
}

#[test]
fn falls_back_to_largest_partition_for_system_volume() {
    let mut layout = sample_layout();
    layout.partitions[3].gpt_type = None;
    layout.partitions[3].kind = "Unknown".into();
    assert_eq!(find_system_partition_number(&layout), Some(4));
}

#[test]
fn prefers_basic_kind_over_larger_other_partitions() {
    let layout = VhdLayout {
        path: "x".into(),
        attached: false,
        partitions: vec![
            part(1, "Unknown", None, 900),
            part(2, "BASIC", None, 50),
            part(3, "basic", Some("{C12A7328-F81F-11D2-BA4B-00A0C93EC93B}"), 50),
        ],
    };
    // Equal sizes: the last of the largest basic partitions wins.
    assert_eq!(find_system_partition_number(&layout), Some(3));
}

#[test]
fn first_gpt_basic_data_partition_wins() {
    let layout = VhdLayout {
        path: "x".into(),
        attached: false,
        partitions: vec![
            part(7, "Unknown", Some(" {EBD0A0A2-B9E5-4433-87C0-68B6B72699C7} "), 1),
            part(8, "Basic", Some("ebd0a0a2-b9e5-4433-87c0-68b6b72699c7"), 999),
        ],
    };
    assert_eq!(find_system_partition_number(&layout), Some(7));
}

#[test]
fn empty_layout_has_no_system_partition() {
    let layout = VhdLayout { path: "x".into(), attached: false, partitions: vec![] };
    assert_eq!(find_system_partition_number(&layout), None);
}

#[test]
fn guids_compare_without_braces_and_case() {
    assert_eq!(normalize_guid("  {{ABC-De}} "), "abc-de");
    assert!(matches_gpt_type(Some("{EBD0A0A2-B9E5-4433-87C0-68B6B72699C7}"), GPT_BASIC_DATA_PARTITION));
    assert!(!matches_gpt_type(None, GPT_BASIC_DATA_PARTITION));
    assert!(!matches_gpt_type(Some("{e3c9e316-0b5c-4db8-817d-f92df00215ae}"), GPT_BASIC_DATA_PARTITION));
}

#[test]
fn single_quotes_are_doubled() {
    assert_eq!(ps_escape_single("it's a 'disk'"), "it''s a ''disk''");
    assert_eq!(ps_escape_single(r"E:\a.vhdx"), r"E:\a.vhdx");
}

fn output(code: Option<i32>, stdout: &str, stderr: &str) -> CommandOutput {
    CommandOutput { exit_code: code, stdout: stdout.into(), stderr: stderr.into() }
}

#[test]
fn compact_output_prefers_stderr() {
    assert_eq!(compact_command_output(&output(Some(1), " out ", " err ")), "stderr=err");
    assert_eq!(compact_command_output(&output(Some(1), " out ", "  ")), "stdout=out");
    assert_eq!(compact_command_output(&output(None, "", "\n")), "no output");
}

#[test]
fn script_output_is_trimmed_json_or_an_error() {
    match script_json_output("inspect_vhd_layout", &output(Some(0), " {\"A\":1}\r\n", "")) {
        Ok(s) => assert_eq!(s, "{\"A\":1}"),
        Err(_) => panic!("expected json"),
    }
    match script_json_output("is_vhd_attached", &output(None, "x", "")) {
        Err(AppError::Message(m)) => assert_eq!(m, "is_vhd_attached failed: stdout=x"),
        _ => panic!("expected an error"),
    }
    match script_json_output("inspect_vhd_layout", &output(Some(2), "", "boom")) {
        Err(AppError::Message(m)) => assert_eq!(m, "inspect_vhd_layout failed: stderr=boom"),
        _ => panic!("expected an error"),
    }
}

#[test]
fn scripts_quote_the_disk_path() {
    let s = inspect_vhd_layout_script(r"E:\it's.vhdx");
    assert!(s.starts_with("$ErrorActionPreference = 'Stop'\n$ProgressPreference = 'SilentlyContinue'\nImport-Module Storage\n$path = 'E:\\it''s.vhdx'\n$img = Get-DiskImage"));
    assert!(s.ends_with("Dismount-DiskImage -ImagePath $path | Out-Null\n    }\n}"));
    let a = is_vhd_attached_script(r"E:\a.vhdx");
    assert_eq!(a, "$ErrorActionPreference = 'Stop'\n$ProgressPreference = 'SilentlyContinue'\nImport-Module Storage\n$path = 'E:\\a.vhdx'\n[pscustomobject]@{\n    Attached = [bool](Get-DiskImage -ImagePath $path).Attached\n} | ConvertTo-Json -Compress");
}
