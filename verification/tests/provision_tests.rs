use vhdx_manager::diskpart::{
    assign_partitions_script, attach_list_vdisk_script, base_diskpart_script, detach_vdisk_script,
    diff_attach_list_script,
};
use vhdx_manager::error::AppError;
use vhdx_manager::models::{Node, NodeStatus};
use vhdx_manager::provision::{
    action_for, begin, check_diff_parent, plan_base, plan_diff, plan_repair, step,
    ProvisionAction, ProvisionEvent, ProvisionKind, ProvisionPlan, ProvisionState,
};
use vhdx_manager::storage::{VhdLayout, VhdPartition};
use vhdx_manager::sys::CommandOutput;

const S_TO_Z_FREE: u32 = 0b0000_0000_0000_0000_0000_0000_0000_1100;

fn ran(code: Option<i32>, script: Option<&str>) -> ProvisionEvent {
    ProvisionEvent::Ran {
        output: CommandOutput { exit_code: code, stdout: "".into(), stderr: "boom".into() },
        script_path: script.map(|s| s.to_string()),
    }
}

fn message_of(e: &AppError) -> String {
    match e {
        AppError::Message(m) => m.clone(),
        AppError::RootNotInitialized => panic!("unexpected error kind"),
    }
}

fn diff_plan() -> ProvisionPlan {
    ProvisionPlan {
        kind: ProvisionKind::Diff { parent_path: r"E:\ws\disks\0001-base.vhdx".into() },
        vhd_path: r"E:\ws\disks\0002-child.vhdx".into(),
        sys_letter: 'S',
    }
}

fn repair_plan(was_attached: bool, description: Option<&str>) -> ProvisionPlan {
    ProvisionPlan {
        kind: ProvisionKind::Repair {
            was_attached,
            description: description.map(|d| d.to_string()),
        },
        vhd_path: r"E:\ws\disks\0001-base.vhdx".into(),
        sys_letter: 'T',
    }
}

fn base_plan() -> ProvisionPlan {
    ProvisionPlan {
        kind: ProvisionKind::Base {
            image_file: r"D:\sources\install.wim".into(),
            image_index: 6,
            size_gb: 64,
            efi_letter: 'S',
        },
        vhd_path: r"E:\ws\disks\0001-base.vhdx".into(),
        sys_letter: 'T',
    }
}

fn layout(parts: Vec<VhdPartition>) -> VhdLayout {
    VhdLayout { path: r"E:\ws\disks\0002-child.vhdx".into(), attached: true, partitions: parts }
}

fn efi_partition(number: u32) -> VhdPartition {
    VhdPartition {
        partition_number: number,
        kind: "System".into(),
        gpt_type: Some("{c12a7328-f81f-11d2-ba4b-00a0c93ec93b}".into()),
        size_mb: 100,
        drive_letter: None,
        file_system: Some("FAT32".into()),
        label: Some("EFI".into()),
    }
}

fn basic_partition(number: u32, size_mb: u64) -> VhdPartition {
    VhdPartition {
        partition_number: number,
        kind: "Basic".into(),
        gpt_type: Some("{ebd0a0a2-b9e5-4433-87c0-68b6b72699c7}".into()),
        size_mb,
        drive_letter: None,
        file_system: Some("NTFS".into()),
        label: None,
    }
}

#[test]
fn a_repair_of_an_attached_disk_starts_at_its_layout() {
    assert!(matches!(begin(&repair_plan(true, None)), ProvisionState::ReadingLayout));
    assert!(matches!(begin(&repair_plan(false, None)), ProvisionState::Attaching));
    assert!(matches!(begin(&diff_plan()), ProvisionState::Attaching));
    assert!(matches!(begin(&base_plan()), ProvisionState::Attaching));
}

#[test]
fn a_differencing_disk_runs_to_the_guid_found() {
    let p = diff_plan();
    let s = begin(&p);
    match action_for(&p, &s) {
        ProvisionAction::RunDiskpart { script_name, script } => {
            assert_eq!(script_name, "create_diff.txt");
            assert_eq!(
                script,
                diff_attach_list_script(r"E:\ws\disks\0002-child.vhdx", r"E:\ws\disks\0001-base.vhdx")
            );
        }
        _ => panic!("expected the create script"),
    }
    let s = step(&p, s, ran(Some(0), Some(r"C:\t\create_diff.txt")));
    assert!(matches!(s, ProvisionState::ReadingLayout));
    assert!(matches!(action_for(&p, &s), ProvisionAction::ReadLayout { ref vhd_path } if vhd_path == r"E:\ws\disks\0002-child.vhdx"));
    let s = step(&p, s, ProvisionEvent::Layout(layout(vec![efi_partition(2), basic_partition(3, 60000)])));
    assert!(matches!(s, ProvisionState::Assigning { partition: 3 }));
    match action_for(&p, &s) {
        ProvisionAction::RunDiskpart { script_name, script } => {
            assert_eq!(script_name, "assign_diff.txt");
            assert_eq!(script, assign_partitions_script(r"E:\ws\disks\0002-child.vhdx", &[(3, 'S')]));
        }
        _ => panic!("expected the assign script"),
    }
    let s = step(&p, s, ran(Some(0), Some(r"C:\t\assign_diff.txt")));
    assert!(matches!(s, ProvisionState::Booting));
    assert!(matches!(action_for(&p, &s), ProvisionAction::Boot { ref sys_mount } if sys_mount == "S:"));
    let s = step(&p, s, ran(Some(0), None));
    assert!(matches!(s, ProvisionState::Enumerating));
    assert!(matches!(action_for(&p, &s), ProvisionAction::EnumerateBcd { sys_letter: 'S', .. }));
    let s = step(&p, s, ProvisionEvent::Guid(Some("{1234}".into())));
    assert!(matches!(s, ProvisionState::Detaching { result: Ok(Some(ref g)) } if g == "{1234}"));
    match action_for(&p, &s) {
        ProvisionAction::RunDiskpart { script_name, script } => {
            assert_eq!(script_name, "detach_diff.txt");
            assert_eq!(script, detach_vdisk_script(r"E:\ws\disks\0002-child.vhdx", &['S'], true));
        }
        _ => panic!("expected the detach script"),
    }
    let s = step(&p, s, ran(Some(1), None));
    assert!(matches!(s, ProvisionState::Finished { result: Ok(Some(ref g)) } if g == "{1234}"));
    assert!(matches!(action_for(&p, &s), ProvisionAction::Finish));
}

#[test]
fn a_base_disk_applies_its_image_and_boots_to_efi() {
    let p = base_plan();
    let s = begin(&p);
    match action_for(&p, &s) {
        ProvisionAction::RunDiskpart { script_name, script } => {
            assert_eq!(script_name, "create_base.txt");
            assert_eq!(script, base_diskpart_script(r"E:\ws\disks\0001-base.vhdx", 64, 'S', 'T'));
        }
        _ => panic!("expected the create script"),
    }
    let s = step(&p, s, ran(Some(0), Some("x")));
    assert!(matches!(s, ProvisionState::Applying));
    match action_for(&p, &s) {
        ProvisionAction::ApplyImage { image_file, index, apply_dir } => {
            assert_eq!(image_file, r"D:\sources\install.wim");
            assert_eq!(index, 6);
            assert_eq!(apply_dir, r"T:\");
        }
        _ => panic!("expected the image to be applied"),
    }
    let s = step(&p, s, ran(Some(0), None));
    assert!(matches!(s, ProvisionState::BootingEfi));
    match action_for(&p, &s) {
        ProvisionAction::BootToEfi { sys_mount, efi_mount } => {
            assert_eq!(sys_mount, "T:");
            assert_eq!(efi_mount, "S:");
        }
        _ => panic!("expected boot files for the EFI volume"),
    }
    let s = step(&p, s, ran(Some(0), None));
    assert!(matches!(s, ProvisionState::Booting));
    let s = step(&p, s, ran(Some(0), None));
    let s = step(&p, s, ProvisionEvent::Guid(None));
    assert!(matches!(s, ProvisionState::Detaching { result: Ok(None) }));
    match action_for(&p, &s) {
        ProvisionAction::RunDiskpart { script_name, script } => {
            assert_eq!(script_name, "detach_base.txt");
            assert_eq!(script, detach_vdisk_script(r"E:\ws\disks\0001-base.vhdx", &['T', 'S'], true));
        }
        _ => panic!("expected the detach script"),
    }
    let s = step(&p, s, ProvisionEvent::Done);
    assert!(matches!(s, ProvisionState::Finished { result: Ok(None) }));
}

#[test]
fn a_failed_image_is_reported_after_detach_and_rescan() {
    let p = base_plan();
    let s = step(&p, begin(&p), ran(Some(0), None));
    let s = step(&p, s, ran(Some(2), None));
    match &s {
        ProvisionState::Detaching { result: Err(e) } => {
            assert_eq!(message_of(e), "dism apply failed: exit=2 | stderr=boom")
        }
        _ => panic!("expected the detach"),
    }
    let s = step(&p, s, ran(Some(0), None));
    assert!(matches!(s, ProvisionState::Rescanning { .. }));
    assert!(matches!(action_for(&p, &s), ProvisionAction::Rescan));
    let s = step(&p, s, ProvisionEvent::Failed(AppError::Message("scan failed".into())));
    match &s {
        ProvisionState::Finished { result: Err(e) } => {
            assert_eq!(message_of(e), "dism apply failed: exit=2 | stderr=boom")
        }
        _ => panic!("expected the error"),
    }
}

#[test]
fn a_failed_create_rescans_without_detaching() {
    let p = diff_plan();
    let s = step(&p, begin(&p), ran(Some(5), Some(r"C:\t\create_diff.txt")));
    match &s {
        ProvisionState::Rescanning { error } => assert_eq!(
            message_of(error),
            r"diskpart create diff failed: exit=5 | script=C:\t\create_diff.txt | stderr=boom"
        ),
        _ => panic!("expected a rescan"),
    }
    let s = step(&p, s, ProvisionEvent::Done);
    assert!(matches!(s, ProvisionState::Finished { result: Err(_) }));
}

#[test]
fn a_command_that_cannot_start_before_attach_is_returned_at_once() {
    let p = repair_plan(false, None);
    let s = step(&p, begin(&p), ProvisionEvent::Failed(AppError::Message("spawn".into())));
    match &s {
        ProvisionState::Finished { result: Err(e) } => assert_eq!(message_of(e), "spawn"),
        _ => panic!("expected the error"),
    }
}

#[test]
fn a_layout_without_partitions_is_an_error() {
    let p = repair_plan(true, None);
    let s = step(&p, begin(&p), ProvisionEvent::Layout(layout(vec![])));
    match &s {
        ProvisionState::Detaching { result: Err(e) } => {
            assert_eq!(message_of(e), "failed to detect system partition from storage layout")
        }
        _ => panic!("expected the detach"),
    }
    match action_for(&p, &s) {
        ProvisionAction::RunDiskpart { script_name, script } => {
            assert_eq!(script_name, "detach_repair.txt");
            assert_eq!(script, detach_vdisk_script(r"E:\ws\disks\0001-base.vhdx", &['T'], false));
        }
        _ => panic!("expected the detach script"),
    }
}

#[test]
fn a_failed_assignment_names_the_script() {
    let p = repair_plan(false, None);
    let s = step(&p, begin(&p), ran(Some(0), None));
    let s = step(&p, s, ProvisionEvent::Layout(layout(vec![basic_partition(4, 9000)])));
    let s = step(&p, s, ran(None, Some(r"C:\t\assign_repair.txt")));
    match &s {
        ProvisionState::Detaching { result: Err(e) } => assert_eq!(
            message_of(e),
            r"diskpart assign failed: script=C:\t\assign_repair.txt | stderr=boom"
        ),
        _ => panic!("expected the detach"),
    }
}

#[test]
fn a_repair_records_and_describes_the_guid() {
    let p = repair_plan(false, Some("Windows test"));
    match action_for(&p, &begin(&p)) {
        ProvisionAction::RunDiskpart { script_name, script } => {
            assert_eq!(script_name, "attach_repair.txt");
            assert_eq!(script, attach_list_vdisk_script(r"E:\ws\disks\0001-base.vhdx"));
        }
        _ => panic!("expected the attach script"),
    }
    let s = step(&p, ProvisionState::Enumerating, ProvisionEvent::Guid(Some("{g}".into())));
    assert!(matches!(s, ProvisionState::Storing { ref guid } if guid == "{g}"));
    assert!(matches!(action_for(&p, &s), ProvisionAction::StoreGuid { ref guid } if guid == "{g}"));
    let s = step(&p, s, ProvisionEvent::Done);
    assert!(matches!(s, ProvisionState::Describing { .. }));
    match action_for(&p, &s) {
        ProvisionAction::SetDescription { guid, description } => {
            assert_eq!(guid, "{g}");
            assert_eq!(description, "Windows test");
        }
        _ => panic!("expected the description"),
    }
    let s = step(&p, s, ran(Some(1), None));
    assert!(matches!(s, ProvisionState::Detaching { result: Ok(Some(ref g)) } if g == "{g}"));
    let s = step(&p, s, ran(Some(0), None));
    assert!(matches!(s, ProvisionState::Finished { result: Ok(Some(_)) }));
}

#[test]
fn a_repair_without_description_skips_it() {
    let p = repair_plan(true, None);
    let s = step(&p, ProvisionState::Enumerating, ProvisionEvent::Guid(Some("{g}".into())));
    let s = step(&p, s, ProvisionEvent::Done);
    assert!(matches!(s, ProvisionState::Detaching { result: Ok(Some(ref g)) } if g == "{g}"));
    let s = step(&p, ProvisionState::Enumerating, ProvisionEvent::Guid(None));
    assert!(matches!(s, ProvisionState::Detaching { result: Ok(None) }));
}

#[test]
fn an_event_that_does_not_answer_changes_nothing() {
    let p = diff_plan();
    let s = step(&p, ProvisionState::Booting, ProvisionEvent::Guid(None));
    assert!(matches!(s, ProvisionState::Booting));
    let s = step(&p, ProvisionState::ReadingLayout, ProvisionEvent::Done);
    assert!(matches!(s, ProvisionState::ReadingLayout));
}

#[test]
fn plans_pick_the_lowest_free_letters() {
    // A to D in use, S to Z free.
    match plan_base(r"E:\ws\disks", 7, "Win11", r"D:\install.wim", 1, 64, 0b1111) {
        Ok(p) => {
            assert_eq!(p.vhd_path, r"E:\ws\disks\0007-win11.vhdx");
            assert_eq!(p.sys_letter, 'T');
            assert!(matches!(p.kind, ProvisionKind::Base { efi_letter: 'S', size_gb: 64, image_index: 1, .. }));
        }
        Err(_) => panic!("letters are free"),
    }
    // S, T and U in use.
    let busy = 0b1111 | (0b111 << 18);
    match plan_diff(r"E:\ws\disks\0001-base.vhdx", 12, "Child", busy) {
        Ok(p) => {
            assert_eq!(p.vhd_path, r"E:\ws\disks\0012-child.vhdx");
            assert_eq!(p.sys_letter, 'V');
        }
        Err(_) => panic!("letters are free"),
    }
    match plan_repair(r"E:\a.vhdx", S_TO_Z_FREE, true, None) {
        Ok(p) => {
            assert_eq!(p.sys_letter, 'S');
            assert!(matches!(p.kind, ProvisionKind::Repair { was_attached: true, description: None }));
        }
        Err(_) => panic!("letters are free"),
    }
}

#[test]
fn plans_fail_without_letters_or_folder() {
    let no_letter = "no free drive letter available between S: and Z:";
    match plan_base(r"E:\ws", 1, "a", "w", 1, 1, 0) {
        Err(e) => assert_eq!(message_of(&e), no_letter),
        Ok(_) => panic!("an empty mask has no letters"),
    }
    // Only Z: free: a base disk needs two letters.
    let all_but_z = 0x01ff_ffff;
    match plan_base(r"E:\ws", 1, "a", "w", 1, 1, all_but_z) {
        Err(e) => assert_eq!(message_of(&e), no_letter),
        Ok(_) => panic!("one letter is not enough"),
    }
    match plan_repair(r"E:\a.vhdx", 0x03ff_ffff, false, None) {
        Err(e) => assert_eq!(message_of(&e), no_letter),
        Ok(_) => panic!("no letter is free"),
    }
    match plan_diff(r"E:\", 1, "a", S_TO_Z_FREE) {
        Err(e) => assert_eq!(message_of(&e), r"invalid parent path: E:\"),
        Ok(_) => panic!("a drive root has no folder"),
    }
}

#[test]
fn a_parent_must_be_detached_with_its_descendants() {
    match check_diff_parent(true, &vec![]) {
        Err(e) => assert_eq!(
            message_of(&e),
            "selected parent vhdx must be detached before creating a differencing disk"
        ),
        Ok(_) => panic!("the parent is attached"),
    }
    let child = Node {
        id: "c".into(),
        parent_id: Some("p".into()),
        name: "child".into(),
        path: r"E:\c.vhdx".into(),
        bcd_guid: None,
        desc: None,
        created_at: "2024-01-01T00:00:00+00:00".into(),
        status: NodeStatus::Mounted,
        boot_files_ready: false,
    };
    match check_diff_parent(false, &vec![child]) {
        Err(e) => assert_eq!(
            message_of(&e),
            r"attached descendants must be detached first: child (E:\c.vhdx)"
        ),
        Ok(_) => panic!("a descendant is attached"),
    }
    assert!(check_diff_parent(false, &vec![]).is_ok());
}
