use vhdx_manager::diskpart::{
    assign_partitions_script, attach_list_vdisk_script, base_diskpart_script, detach_vdisk_script,
    diff_attach_list_script, diskpart_args,
};
use vhdx_manager::dism::{apply_image_args, list_images_args, parse_wim_info};
use vhdx_manager::sys::{command_succeeded, powershell_args, CommandOutput};
use vhdx_manager::models::NodeStatus;

#[test]
fn base_script_creates_gpt_layout() {
    let s = base_diskpart_script(r"E:\ws\disks\0001-win.vhdx", 64, 'S', 'T');
    assert_eq!(
        s,
        "\ncreate vdisk file=\"E:\\ws\\disks\\0001-win.vhdx\" maximum=65536 type=expandable\nselect vdisk file=\"E:\\ws\\disks\\0001-win.vhdx\"\nattach vdisk\nconvert gpt\ncreate partition efi size=100\nformat quick fs=fat32 label=\"EFI\"\nassign letter=S\ncreate partition msr size=16\ncreate partition primary\nformat quick fs=ntfs label=\"System\"\nassign letter=T\nlist volume\nlist partition\n"
    );
    assert!(base_diskpart_script("a", 0, 'S', 'T').contains("maximum=0 type"));
}

#[test]
fn diff_and_attach_scripts() {
    assert_eq!(
        diff_attach_list_script(r"E:\c.vhdx", r"E:\p.vhdx"),
        "\ncreate vdisk file=\"E:\\c.vhdx\" parent=\"E:\\p.vhdx\"\nselect vdisk file=\"E:\\c.vhdx\"\nattach vdisk\nlist volume\nlist partition\n"
    );
    assert_eq!(
        attach_list_vdisk_script(r"E:\c.vhdx"),
        "\nselect vdisk file=\"E:\\c.vhdx\"\nattach vdisk\nlist partition\nlist volume\n"
    );
}

#[test]
fn assign_script_lists_each_partition() {
    assert_eq!(
        assign_partitions_script(r"E:\c.vhdx", &[(4, 'T'), (12, 'U')]),
        "select vdisk file=\"E:\\c.vhdx\"\nselect partition 4\nassign letter=T noerr\nselect partition 12\nassign letter=U noerr\nlist volume"
    );
    assert_eq!(
        assign_partitions_script("x", &[]),
        "select vdisk file=\"x\"\nlist volume"
    );
}

#[test]
fn detach_script_removes_letters_then_detaches() {
    assert_eq!(
        detach_vdisk_script(r"E:\c.vhdx", &['T', 'S'], true),
        "select vdisk file=\"E:\\c.vhdx\"\nselect volume T\nremove letter=T noerr\nselect volume S\nremove letter=S noerr\nselect vdisk file=\"E:\\c.vhdx\"\ndetach vdisk"
    );
    assert_eq!(detach_vdisk_script("x", &[], false), "select vdisk file=\"x\"");
    assert_eq!(
        detach_vdisk_script("x", &[], true),
        "select vdisk file=\"x\"\nselect vdisk file=\"x\"\ndetach vdisk"
    );
}

#[test]
fn command_arguments() {
    assert_eq!(diskpart_args(r"C:\t\s.txt"), vec!["/s".to_string(), r"C:\t\s.txt".to_string()]);
    assert_eq!(
        powershell_args("Get-Disk"),
        vec!["-NoLogo", "-NoProfile", "-NonInteractive", "-ExecutionPolicy", "Bypass", "-Command", "Get-Disk"]
    );
    assert_eq!(list_images_args(r"D:\install.wim"), vec!["/English", "/Get-WimInfo", r"/WimFile:D:\install.wim"]);
    assert_eq!(
        apply_image_args(r"D:\install.esd", 6, r"T:\"),
        vec!["/English", "/Apply-Image", r"/ImageFile:D:\install.esd", "/Index:6", r"/ApplyDir:T:\"]
    );
}

#[test]
fn exit_code_zero_is_success() {
    let o = |c| CommandOutput { exit_code: c, stdout: String::new(), stderr: String::new() };
    assert!(command_succeeded(&o(Some(0))));
    assert!(!command_succeeded(&o(Some(1))));
    assert!(!command_succeeded(&o(None)));
}

#[test]
fn wim_info_lists_images() {
    let text = "Deployment Image Servicing and Management tool\r\nVersion: 10.0\r\n\r\nDetails for image : D:\\install.wim\r\n\r\nIndex : 1\r\nName : Windows 10 Home\r\nDescription : Windows 10 Home\r\nSize : 14,998,432,170 bytes\r\n\r\nIndex : 6\r\nName : Windows 10 Pro\r\nDescription : Pro: edition\r\n\r\nThe operation completed successfully.\r\n";
    let images = parse_wim_info(text);
    assert_eq!(images.len(), 2);
    assert_eq!(images[0].index, 1);
    assert_eq!(images[0].name, "Windows 10 Home");
    assert_eq!(images[0].description.as_deref(), Some("Windows 10 Home"));
    assert_eq!(images[0].size.as_deref(), Some("14,998,432,170 bytes"));
    assert_eq!(images[1].index, 6);
    assert_eq!(images[1].name, "Windows 10 Pro");
    // Only the text up to the next colon is kept.
    assert_eq!(images[1].description.as_deref(), Some("Pro"));
    assert_eq!(images[1].size, None);
}

#[test]
fn wim_info_skips_unparsable_indexes() {
    let images = parse_wim_info("Name : orphan\nIndex : x\nName : lost\nIndex : +3\nName : three");
    assert_eq!(images.len(), 1);
    assert_eq!(images[0].index, 3);
    assert_eq!(images[0].name, "three");
    assert!(parse_wim_info("").is_empty());
    assert!(parse_wim_info("Index : 4294967296").is_empty());
}

#[test]
fn status_text_round_trips() {
    for s in [
        NodeStatus::Normal,
        NodeStatus::MissingFile,
        NodeStatus::MissingParent,
        NodeStatus::MissingBcd,
        NodeStatus::Mounted,
        NodeStatus::Error,
    ] {
        assert_eq!(NodeStatus::from_text(&s.as_text()), s);
    }
    assert_eq!(NodeStatus::from_text("whatever"), NodeStatus::Normal);
    assert_eq!(NodeStatus::MissingBcd.as_text(), "MissingBcd");
}
