//! Provisioning the boot files of a disk: creating a base disk from an
//! image, creating a differencing disk on a parent, or rewriting the boot
//! files of an existing disk. The work alternates outside commands (diskpart,
//! DISM, bcdboot, the BCD store) and decisions; the decisions are a state
//! machine here, the caller performs each action and hands back its event.
//!
//! Once the disk is attached every path leaves through a detach, and a
//! failure is answered by a rescan and then the error itself.
use vstd::prelude::*;
use crate::diskpart::{
    assign_partitions_script, assign_script_spec, attach_list_vdisk_script, attach_script_spec,
    base_diskpart_script, base_script_spec, detach_script_spec, detach_vdisk_script,
    diff_attach_list_script, diff_script_spec,
};
use crate::error::{message, AppError};
use crate::storage::{find_system_partition_number, system_partition_spec, VhdLayout};
use crate::sys::{command_succeeded, exited_ok, CommandOutput};
use crate::models::Node;
use crate::text::{opt_view, string_from_chars};
use crate::winpath::{join, join_spec, parent_spec};
use crate::workspace::{
    attached_below_text, child_disk_path, command_error, command_error_text,
    ensure_no_attached_descendants, pick_free_letter, pick_free_letters, pick_letters_spec,
    vhd_file_name, vhd_file_name_spec,
};

verus! {

/// What a provisioning run works on.
pub enum ProvisionKind {
    /// A new base disk of `size_gb` GiB, laid out by diskpart; the image at
    /// `image_index` of `image_file` applied to its system volume and its
    /// boot files written to its EFI volume (letter `efi_letter`).
    Base { image_file: String, image_index: u32, size_gb: u64, efi_letter: char },
    /// A new differencing disk on the parent disk at `parent_path`.
    Diff { parent_path: String },
    /// The boot files of an existing disk written anew. `was_attached` tells
    /// whether the disk was attached before the run (it then stays
    /// attached); `description` is given to the BCD entry found.
    Repair { was_attached: bool, description: Option<String> },
}

/// A provisioning run: its kind, the disk and the letter given to the
/// disk's system volume.
pub struct ProvisionPlan {
    pub kind: ProvisionKind,
    pub vhd_path: String,
    pub sys_letter: char,
}

/// Where a run stands: the action of each state is pending until its event
/// comes back.
pub enum ProvisionState {
    /// The disk is being created or attached.
    Attaching,
    /// The image is being applied to the system volume.
    Applying,
    /// Boot files are being written to the EFI volume.
    BootingEfi,
    /// The disk's partition layout is being read.
    ReadingLayout,
    /// The system partition (this number) is being given its letter.
    Assigning { partition: u32 },
    /// Boot files are being written for the system volume.
    Booting,
    /// The BCD store is being searched for the disk's entry.
    Enumerating,
    /// The GUID found is being recorded for the disk.
    Storing { guid: String },
    /// The BCD entry is being given its description.
    Describing { guid: String },
    /// Letters are being removed and the disk detached; `result` is what
    /// the run reports afterwards.
    Detaching { result: Result<Option<String>, AppError> },
    /// The workspace is being scanned again after a failure.
    Rescanning { error: AppError },
    /// The run is over.
    Finished { result: Result<Option<String>, AppError> },
}

/// What came back from the pending action.
pub enum ProvisionEvent {
    /// A command ran; its output and the path of its script file, if any.
    Ran { output: CommandOutput, script_path: Option<String> },
    /// The action could not be carried out.
    Failed(AppError),
    /// The partition layout read.
    Layout(VhdLayout),
    /// The GUID of the disk's BCD entry, if one was found.
    Guid(Option<String>),
    /// An action without output completed.
    Done,
}

/// The work the caller performs next.
pub enum ProvisionAction {
    /// Write `script` to a file named `script_name` and run diskpart on it.
    RunDiskpart { script_name: String, script: String },
    /// Apply image `index` of `image_file` to the directory `apply_dir`.
    ApplyImage { image_file: String, index: u32, apply_dir: String },
    /// Write boot files of the Windows on `sys_mount` to `efi_mount`.
    BootToEfi { sys_mount: String, efi_mount: String },
    /// Write boot files for the Windows on `sys_mount`.
    Boot { sys_mount: String },
    /// Read the partition layout of the disk.
    ReadLayout { vhd_path: String },
    /// Search the BCD store for the entry of the disk, by its path or else
    /// by the letter of its system volume.
    EnumerateBcd { vhd_path: String, sys_letter: char },
    /// Record the GUID for the disk.
    StoreGuid { guid: String },
    /// Give the BCD entry this description.
    SetDescription { guid: String, description: String },
    /// Scan the workspace again.
    Rescan,
    /// Nothing more: the run's result is in the state.
    Finish,
}

/// The plan can be carried out: the size of a base disk in MiB fits in 64
/// bits.
pub open spec fn plan_ok(p: &ProvisionPlan) -> bool {
    match p.kind {
        ProvisionKind::Base { size_gb, .. } => size_gb * 1024 <= u64::MAX,
        _ => true,
    }
}

/// The state belongs to the plan's kind: only a base disk has an image
/// applied and boot files written to an EFI volume; only a differencing
/// disk or a repaired disk has its layout read and a letter assigned; only a
/// repair records the GUID and describes the entry (the latter when it has a
/// description).
pub open spec fn fits(p: &ProvisionPlan, s: &ProvisionState) -> bool {
    match *s {
        ProvisionState::Applying | ProvisionState::BootingEfi => p.kind is Base,
        ProvisionState::ReadingLayout | ProvisionState::Assigning { .. } => !(p.kind is Base),
        ProvisionState::Storing { .. } => p.kind is Repair,
        ProvisionState::Describing { .. } => p.kind matches ProvisionKind::Repair {
            description: Some(_),
            ..
        },
        _ => true,
    }
}

/// The states in which the disk is attached and not yet being detached.
pub open spec fn in_guard(s: &ProvisionState) -> bool {
    match *s {
        ProvisionState::Applying | ProvisionState::BootingEfi | ProvisionState::ReadingLayout
        | ProvisionState::Assigning { .. } | ProvisionState::Booting
        | ProvisionState::Enumerating | ProvisionState::Storing { .. }
        | ProvisionState::Describing { .. } => true,
        _ => false,
    }
}

/// The first state: a disk that was already attached goes straight to its
/// layout, any other is first created or attached.
pub open spec fn begin_spec(p: &ProvisionPlan) -> ProvisionState {
    if p.kind matches ProvisionKind::Repair { was_attached: true, .. } {
        ProvisionState::ReadingLayout
    } else {
        ProvisionState::Attaching
    }
}

/// The first state once the disk is attached: the image for a base disk,
/// the layout for the others.
pub open spec fn first_guarded(p: &ProvisionPlan) -> ProvisionState {
    if p.kind is Base {
        ProvisionState::Applying
    } else {
        ProvisionState::ReadingLayout
    }
}

/// `X:` for the letter `X`.
pub open spec fn mount_spec(c: char) -> Seq<char> {
    seq![c, ':']
}

/// `X:\` for the letter `X`.
pub open spec fn mount_root_spec(c: char) -> Seq<char> {
    seq![c, ':', '\\']
}

/// The file name and text of the script that creates or attaches the disk.
pub open spec fn attach_script_of(p: &ProvisionPlan) -> (Seq<char>, Seq<char>) {
    match p.kind {
        ProvisionKind::Base { size_gb, efi_letter, .. } => (
            "create_base.txt"@,
            base_script_spec(p.vhd_path@, size_gb as nat, efi_letter, p.sys_letter),
        ),
        ProvisionKind::Diff { parent_path } => (
            "create_diff.txt"@,
            diff_script_spec(p.vhd_path@, parent_path@),
        ),
        ProvisionKind::Repair { .. } => ("attach_repair.txt"@, attach_script_spec(p.vhd_path@)),
    }
}

/// The name under which a failed create or attach is reported.
pub open spec fn attach_error_name(p: &ProvisionPlan) -> Seq<char> {
    match p.kind {
        ProvisionKind::Base { .. } => "diskpart create base"@,
        ProvisionKind::Diff { .. } => "diskpart create diff"@,
        ProvisionKind::Repair { .. } => "diskpart attach"@,
    }
}

/// The file name of the script that assigns the system letter.
pub open spec fn assign_script_name(p: &ProvisionPlan) -> Seq<char> {
    if p.kind is Diff {
        "assign_diff.txt"@
    } else {
        "assign_repair.txt"@
    }
}

/// The name under which a failed letter assignment is reported.
pub open spec fn assign_error_name(p: &ProvisionPlan) -> Seq<char> {
    if p.kind is Diff {
        "diskpart assign diff"@
    } else {
        "diskpart assign"@
    }
}

/// The letters removed on the way out: the system letter, and the EFI
/// letter of a base disk after it.
pub open spec fn guard_letters(p: &ProvisionPlan) -> Seq<char> {
    match p.kind {
        ProvisionKind::Base { efi_letter, .. } => seq![p.sys_letter, efi_letter],
        _ => seq![p.sys_letter],
    }
}

/// Whether the disk is detached on the way out: always, but for a repaired
/// disk that was attached before the run.
pub open spec fn guard_detaches(p: &ProvisionPlan) -> bool {
    match p.kind {
        ProvisionKind::Repair { was_attached, .. } => !was_attached,
        _ => true,
    }
}

/// The file name and text of the script run on the way out.
pub open spec fn detach_script_of(p: &ProvisionPlan) -> (Seq<char>, Seq<char>) {
    let name = match p.kind {
        ProvisionKind::Base { .. } => "detach_base.txt"@,
        ProvisionKind::Diff { .. } => "detach_diff.txt"@,
        ProvisionKind::Repair { .. } => "detach_repair.txt"@,
    };
    (name, detach_script_spec(p.vhd_path@, guard_letters(p), guard_detaches(p)))
}

/// The diskpart action with this script name and text.
pub open spec fn is_diskpart(a: &ProvisionAction, named: (Seq<char>, Seq<char>)) -> bool {
    a matches ProvisionAction::RunDiskpart { script_name, script } && script_name@ == named.0
        && script@ == named.1
}

/// The action pending in a state.
pub open spec fn action_spec(p: &ProvisionPlan, s: &ProvisionState, a: &ProvisionAction) -> bool {
    match *s {
        ProvisionState::Attaching => is_diskpart(a, attach_script_of(p)),
        ProvisionState::Applying => match p.kind {
            ProvisionKind::Base { image_file, image_index, .. } => {
                a matches ProvisionAction::ApplyImage { image_file: f, index, apply_dir } && f@
                    == image_file@ && index == image_index && apply_dir@ == mount_root_spec(
                    p.sys_letter,
                )
            },
            _ => false,
        },
        ProvisionState::BootingEfi => match p.kind {
            ProvisionKind::Base { efi_letter, .. } => {
                a matches ProvisionAction::BootToEfi { sys_mount, efi_mount } && sys_mount@
                    == mount_spec(p.sys_letter) && efi_mount@ == mount_spec(efi_letter)
            },
            _ => false,
        },
        ProvisionState::ReadingLayout => {
            a matches ProvisionAction::ReadLayout { vhd_path } && vhd_path@ == p.vhd_path@
        },
        ProvisionState::Assigning { partition } => is_diskpart(
            a,
            (
                assign_script_name(p),
                assign_script_spec(p.vhd_path@, seq![(partition, p.sys_letter)]),
            ),
        ),
        ProvisionState::Booting => {
            a matches ProvisionAction::Boot { sys_mount } && sys_mount@ == mount_spec(p.sys_letter)
        },
        ProvisionState::Enumerating => {
            a matches ProvisionAction::EnumerateBcd { vhd_path, sys_letter } && vhd_path@
                == p.vhd_path@ && sys_letter == p.sys_letter
        },
        ProvisionState::Storing { guid } => {
            a matches ProvisionAction::StoreGuid { guid: g } && g@ == guid@
        },
        ProvisionState::Describing { guid } => match p.kind {
            ProvisionKind::Repair { description: Some(d), .. } => {
                a matches ProvisionAction::SetDescription { guid: g, description } && g@ == guid@
                    && description@ == d@
            },
            _ => false,
        },
        ProvisionState::Detaching { .. } => is_diskpart(a, detach_script_of(p)),
        ProvisionState::Rescanning { .. } => *a is Rescan,
        ProvisionState::Finished { .. } => *a is Finish,
    }
}

/// The first state of a run.
pub fn begin(p: &ProvisionPlan) -> (s: ProvisionState)
    ensures
        s == begin_spec(p),
        fits(p, &s),
{
    match &p.kind {
        ProvisionKind::Repair { was_attached, .. } => {
            if *was_attached {
                ProvisionState::ReadingLayout
            } else {
                ProvisionState::Attaching
            }
        },
        _ => ProvisionState::Attaching,
    }
}

fn mount(c: char) -> (r: String)
    ensures
        r@ == mount_spec(c),
{
    let v: Vec<char> = vec![c, ':'];
    proof {
        assert(v@ =~= mount_spec(c));
    }
    string_from_chars(v.as_slice())
}

fn mount_root(c: char) -> (r: String)
    ensures
        r@ == mount_root_spec(c),
{
    let v: Vec<char> = vec![c, ':', '\\'];
    proof {
        assert(v@ =~= mount_root_spec(c));
    }
    string_from_chars(v.as_slice())
}

fn detach_action(p: &ProvisionPlan) -> (a: ProvisionAction)
    ensures
        is_diskpart(&a, detach_script_of(p)),
{
    match &p.kind {
        ProvisionKind::Base { efi_letter, .. } => {
            let letters: Vec<char> = vec![p.sys_letter, *efi_letter];
            proof {
                assert(letters@ =~= guard_letters(p));
            }
            ProvisionAction::RunDiskpart {
                script_name: "detach_base.txt".to_owned(),
                script: detach_vdisk_script(p.vhd_path.as_str(), letters.as_slice(), true),
            }
        },
        ProvisionKind::Diff { .. } => {
            let letters: Vec<char> = vec![p.sys_letter];
            proof {
                assert(letters@ =~= guard_letters(p));
            }
            ProvisionAction::RunDiskpart {
                script_name: "detach_diff.txt".to_owned(),
                script: detach_vdisk_script(p.vhd_path.as_str(), letters.as_slice(), true),
            }
        },
        ProvisionKind::Repair { was_attached, .. } => {
            let letters: Vec<char> = vec![p.sys_letter];
            proof {
                assert(letters@ =~= guard_letters(p));
            }
            ProvisionAction::RunDiskpart {
                script_name: "detach_repair.txt".to_owned(),
                script: detach_vdisk_script(p.vhd_path.as_str(), letters.as_slice(), !*was_attached),
            }
        },
    }
}

/// The action pending in a state.
pub fn action_for(p: &ProvisionPlan, s: &ProvisionState) -> (a: ProvisionAction)
    requires
        plan_ok(p),
        fits(p, s),
    ensures
        action_spec(p, s, &a),
{
    match s {
        ProvisionState::Attaching => match &p.kind {
            ProvisionKind::Base { size_gb, efi_letter, .. } => ProvisionAction::RunDiskpart {
                script_name: "create_base.txt".to_owned(),
                script: base_diskpart_script(
                    p.vhd_path.as_str(),
                    *size_gb,
                    *efi_letter,
                    p.sys_letter,
                ),
            },
            ProvisionKind::Diff { parent_path } => ProvisionAction::RunDiskpart {
                script_name: "create_diff.txt".to_owned(),
                script: diff_attach_list_script(p.vhd_path.as_str(), parent_path.as_str()),
            },
            ProvisionKind::Repair { .. } => ProvisionAction::RunDiskpart {
                script_name: "attach_repair.txt".to_owned(),
                script: attach_list_vdisk_script(p.vhd_path.as_str()),
            },
        },
        ProvisionState::Applying => match &p.kind {
            ProvisionKind::Base { image_file, image_index, .. } => ProvisionAction::ApplyImage {
                image_file: image_file.clone(),
                index: *image_index,
                apply_dir: mount_root(p.sys_letter),
            },
            _ => ProvisionAction::Finish,
        },
        ProvisionState::BootingEfi => match &p.kind {
            ProvisionKind::Base { efi_letter, .. } => ProvisionAction::BootToEfi {
                sys_mount: mount(p.sys_letter),
                efi_mount: mount(*efi_letter),
            },
            _ => ProvisionAction::Finish,
        },
        ProvisionState::ReadingLayout => ProvisionAction::ReadLayout {
            vhd_path: p.vhd_path.clone(),
        },
        ProvisionState::Assigning { partition } => {
            let assignments: Vec<(u32, char)> = vec![(*partition, p.sys_letter)];
            proof {
                assert(assignments@ =~= seq![(*partition, p.sys_letter)]);
            }
            let script = assign_partitions_script(p.vhd_path.as_str(), assignments.as_slice());
            match &p.kind {
                ProvisionKind::Diff { .. } => ProvisionAction::RunDiskpart {
                    script_name: "assign_diff.txt".to_owned(),
                    script,
                },
                _ => ProvisionAction::RunDiskpart {
                    script_name: "assign_repair.txt".to_owned(),
                    script,
                },
            }
        },
        ProvisionState::Booting => ProvisionAction::Boot { sys_mount: mount(p.sys_letter) },
        ProvisionState::Enumerating => ProvisionAction::EnumerateBcd {
            vhd_path: p.vhd_path.clone(),
            sys_letter: p.sys_letter,
        },
        ProvisionState::Storing { guid } => ProvisionAction::StoreGuid { guid: guid.clone() },
        ProvisionState::Describing { guid } => match &p.kind {
            ProvisionKind::Repair { description: Some(d), .. } => ProvisionAction::SetDescription {
                guid: guid.clone(),
                description: d.clone(),
            },
            _ => ProvisionAction::Finish,
        },
        ProvisionState::Detaching { .. } => detach_action(p),
        ProvisionState::Rescanning { .. } => ProvisionAction::Rescan,
        ProvisionState::Finished { .. } => ProvisionAction::Finish,
    }
}

/// After a command of the attached part: on a clean exit the next state; on
/// a failed exit the detach, reporting the failure under `name` (with the
/// script's path when `with_script`); when the command could not run, the
/// detach reporting that error. Any other event changes nothing.
pub open spec fn guarded_command(
    s: ProvisionState,
    e: ProvisionEvent,
    r: ProvisionState,
    name: Seq<char>,
    with_script: bool,
    next: ProvisionState,
) -> bool {
    match e {
        ProvisionEvent::Ran { output, script_path } => if exited_ok(&output) {
            r == next
        } else {
            r matches ProvisionState::Detaching { result: Err(err) } && err.is_message(
                command_error_text(
                    name,
                    &output,
                    if with_script {
                        opt_view(script_path)
                    } else {
                        None
                    },
                ),
            )
        },
        ProvisionEvent::Failed(err) => r == ProvisionState::Detaching { result: Err(err) },
        _ => r == s,
    }
}

/// The text of the error when no system partition is found.
pub open spec fn no_system_partition_text() -> Seq<char> {
    "failed to detect system partition from storage layout"@
}

/// The state after an event. An event that does not answer the pending
/// action changes nothing (the action is asked again).
pub open spec fn step_spec(
    p: &ProvisionPlan,
    s: ProvisionState,
    e: ProvisionEvent,
    r: ProvisionState,
) -> bool {
    match s {
        ProvisionState::Attaching => match e {
            ProvisionEvent::Ran { output, script_path } => if exited_ok(&output) {
                r == first_guarded(p)
            } else {
                r matches ProvisionState::Rescanning { error } && error.is_message(
                    command_error_text(attach_error_name(p), &output, opt_view(script_path)),
                )
            },
            ProvisionEvent::Failed(err) => r == ProvisionState::Finished { result: Err(err) },
            _ => r == s,
        },
        ProvisionState::Applying => guarded_command(
            s,
            e,
            r,
            "dism apply"@,
            false,
            ProvisionState::BootingEfi,
        ),
        ProvisionState::BootingEfi => guarded_command(
            s,
            e,
            r,
            "bcdboot"@,
            false,
            ProvisionState::Booting,
        ),
        ProvisionState::ReadingLayout => match e {
            ProvisionEvent::Layout(l) => match system_partition_spec(l.partitions@) {
                Some(n) => r == ProvisionState::Assigning { partition: n },
                None => r matches ProvisionState::Detaching { result: Err(err) } && err.is_message(
                    no_system_partition_text(),
                ),
            },
            ProvisionEvent::Failed(err) => r == ProvisionState::Detaching { result: Err(err) },
            _ => r == s,
        },
        ProvisionState::Assigning { .. } => guarded_command(
            s,
            e,
            r,
            assign_error_name(p),
            true,
            ProvisionState::Booting,
        ),
        ProvisionState::Booting => guarded_command(
            s,
            e,
            r,
            "bcdboot"@,
            false,
            ProvisionState::Enumerating,
        ),
        ProvisionState::Enumerating => match e {
            ProvisionEvent::Guid(g) => if p.kind is Repair && g is Some {
                r == ProvisionState::Storing { guid: g->0 }
            } else {
                r == ProvisionState::Detaching { result: Ok(g) }
            },
            ProvisionEvent::Failed(err) => r == ProvisionState::Detaching { result: Err(err) },
            _ => r == s,
        },
        ProvisionState::Storing { guid } => match e {
            ProvisionEvent::Done => if p.kind matches ProvisionKind::Repair {
                description: Some(_),
                ..
            } {
                r == ProvisionState::Describing { guid }
            } else {
                r == ProvisionState::Detaching { result: Ok(Some(guid)) }
            },
            ProvisionEvent::Failed(err) => r == ProvisionState::Detaching { result: Err(err) },
            _ => r == s,
        },
        ProvisionState::Describing { guid } => match e {
            ProvisionEvent::Ran { .. } => r == ProvisionState::Detaching { result: Ok(Some(guid)) },
            ProvisionEvent::Failed(err) => r == ProvisionState::Detaching { result: Err(err) },
            _ => r == s,
        },
        ProvisionState::Detaching { result } => match result {
            Ok(g) => r == ProvisionState::Finished { result: Ok(g) },
            Err(err) => r == ProvisionState::Rescanning { error: err },
        },
        ProvisionState::Rescanning { error } => r == ProvisionState::Finished { result: Err(error) },
        ProvisionState::Finished { .. } => r == s,
    }
}

fn guarded_step(
    s: ProvisionState,
    e: ProvisionEvent,
    name: &str,
    with_script: bool,
    next: ProvisionState,
) -> (r: ProvisionState)
    ensures
        guarded_command(s, e, r, name@, with_script, next),
{
    match e {
        ProvisionEvent::Ran { output, script_path } => {
            if command_succeeded(&output) {
                next
            } else {
                let err = if with_script {
                    match &script_path {
                        Some(sp) => command_error(name, &output, Some(sp.as_str())),
                        None => command_error(name, &output, None),
                    }
                } else {
                    command_error(name, &output, None)
                };
                ProvisionState::Detaching { result: Err(err) }
            }
        },
        ProvisionEvent::Failed(err) => ProvisionState::Detaching { result: Err(err) },
        other => {
            proof {
                assert(!(other is Ran) && !(other is Failed));
            }
            s
        },
    }
}

/// The state after the event that answers the pending action.
pub fn step(p: &ProvisionPlan, s: ProvisionState, e: ProvisionEvent) -> (r: ProvisionState)
    requires
        fits(p, &s),
    ensures
        step_spec(p, s, e, r),
        fits(p, &r),
{
    match s {
        ProvisionState::Attaching => match e {
            ProvisionEvent::Ran { output, script_path } => {
                if command_succeeded(&output) {
                    match &p.kind {
                        ProvisionKind::Base { .. } => ProvisionState::Applying,
                        _ => ProvisionState::ReadingLayout,
                    }
                } else {
                    let name = match &p.kind {
                        ProvisionKind::Base { .. } => "diskpart create base",
                        ProvisionKind::Diff { .. } => "diskpart create diff",
                        ProvisionKind::Repair { .. } => "diskpart attach",
                    };
                    let error = match &script_path {
                        Some(sp) => command_error(name, &output, Some(sp.as_str())),
                        None => command_error(name, &output, None),
                    };
                    ProvisionState::Rescanning { error }
                }
            },
            ProvisionEvent::Failed(err) => ProvisionState::Finished { result: Err(err) },
            _ => ProvisionState::Attaching,
        },
        ProvisionState::Applying => guarded_step(
            ProvisionState::Applying,
            e,
            "dism apply",
            false,
            ProvisionState::BootingEfi,
        ),
        ProvisionState::BootingEfi => guarded_step(
            ProvisionState::BootingEfi,
            e,
            "bcdboot",
            false,
            ProvisionState::Booting,
        ),
        ProvisionState::ReadingLayout => match e {
            ProvisionEvent::Layout(l) => match find_system_partition_number(&l) {
                Some(n) => ProvisionState::Assigning { partition: n },
                None => ProvisionState::Detaching {
                    result: Err(message("failed to detect system partition from storage layout")),
                },
            },
            ProvisionEvent::Failed(err) => ProvisionState::Detaching { result: Err(err) },
            _ => ProvisionState::ReadingLayout,
        },
        ProvisionState::Assigning { partition } => {
            let name = match &p.kind {
                ProvisionKind::Diff { .. } => "diskpart assign diff",
                _ => "diskpart assign",
            };
            guarded_step(
                ProvisionState::Assigning { partition },
                e,
                name,
                true,
                ProvisionState::Booting,
            )
        },
        ProvisionState::Booting => guarded_step(
            ProvisionState::Booting,
            e,
            "bcdboot",
            false,
            ProvisionState::Enumerating,
        ),
        ProvisionState::Enumerating => match e {
            ProvisionEvent::Guid(g) => match &p.kind {
                ProvisionKind::Repair { .. } => match g {
                    Some(guid) => ProvisionState::Storing { guid },
                    None => ProvisionState::Detaching { result: Ok(None) },
                },
                _ => ProvisionState::Detaching { result: Ok(g) },
            },
            ProvisionEvent::Failed(err) => ProvisionState::Detaching { result: Err(err) },
            _ => ProvisionState::Enumerating,
        },
        ProvisionState::Storing { guid } => match e {
            ProvisionEvent::Done => match &p.kind {
                ProvisionKind::Repair { description: Some(_), .. } => ProvisionState::Describing {
                    guid,
                },
                _ => ProvisionState::Detaching { result: Ok(Some(guid)) },
            },
            ProvisionEvent::Failed(err) => ProvisionState::Detaching { result: Err(err) },
            _ => ProvisionState::Storing { guid },
        },
        ProvisionState::Describing { guid } => match e {
            ProvisionEvent::Ran { .. } => ProvisionState::Detaching { result: Ok(Some(guid)) },
            ProvisionEvent::Failed(err) => ProvisionState::Detaching { result: Err(err) },
            _ => ProvisionState::Describing { guid },
        },
        ProvisionState::Detaching { result } => match result {
            Ok(g) => ProvisionState::Finished { result: Ok(g) },
            Err(err) => ProvisionState::Rescanning { error: err },
        },
        ProvisionState::Rescanning { error } => ProvisionState::Finished { result: Err(error) },
        ProvisionState::Finished { result } => ProvisionState::Finished { result },
    }
}

/// Once the disk is attached, no event takes the run anywhere but to
/// another step of the attached part or to the detach: every way out passes
/// through the detach.
pub proof fn law_attached_leaves_through_detach(
    p: &ProvisionPlan,
    s: ProvisionState,
    e: ProvisionEvent,
    r: ProvisionState,
)
    requires
        fits(p, &s),
        in_guard(&s),
        step_spec(p, s, e, r),
    ensures
        in_guard(&r) || r is Detaching,
{
}

/// A failure met while the disk is attached is answered, after the detach,
/// by a rescan and then by that very error, whatever the detach and the
/// rescan report.
pub proof fn law_failure_detach_rescan_error(
    p: &ProvisionPlan,
    err: AppError,
    e1: ProvisionEvent,
    r1: ProvisionState,
    e2: ProvisionEvent,
    r2: ProvisionState,
)
    requires
        step_spec(p, ProvisionState::Detaching { result: Err(err) }, e1, r1),
        step_spec(p, r1, e2, r2),
    ensures
        r1 == (ProvisionState::Rescanning { error: err }),
        r2 == (ProvisionState::Finished { result: Err(err) }),
{
}

/// When creating or attaching the disk fails, nothing is detached: the run
/// rescans and then reports the failed command under its name.
pub proof fn law_failed_attach_rescans(
    p: &ProvisionPlan,
    output: CommandOutput,
    script_path: Option<String>,
    r1: ProvisionState,
    e2: ProvisionEvent,
    r2: ProvisionState,
)
    requires
        !exited_ok(&output),
        step_spec(
            p,
            ProvisionState::Attaching,
            ProvisionEvent::Ran { output, script_path },
            r1,
        ),
        step_spec(p, r1, e2, r2),
    ensures
        r1 is Rescanning,
        r2 matches ProvisionState::Finished { result: Err(err) } && err.is_message(
            command_error_text(attach_error_name(p), &output, opt_view(script_path)),
        ),
{
}

/// A new base or differencing disk reports, after the detach, exactly the
/// GUID that the search of the BCD store found (none when none was found).
pub proof fn law_new_disk_reports_found_guid(
    p: &ProvisionPlan,
    g: Option<String>,
    r1: ProvisionState,
    e2: ProvisionEvent,
    r2: ProvisionState,
)
    requires
        !(p.kind is Repair),
        step_spec(p, ProvisionState::Enumerating, ProvisionEvent::Guid(g), r1),
        step_spec(p, r1, e2, r2),
    ensures
        r1 == (ProvisionState::Detaching { result: Ok(g) }),
        r2 == (ProvisionState::Finished { result: Ok(g) }),
{
}

/// A repair without a description that finds a GUID records it first and
/// reports it once the disk is detached.
pub proof fn law_repair_records_found_guid(
    p: &ProvisionPlan,
    g: String,
    r1: ProvisionState,
    r2: ProvisionState,
    e3: ProvisionEvent,
    r3: ProvisionState,
)
    requires
        p.kind matches ProvisionKind::Repair { description: None, .. },
        step_spec(p, ProvisionState::Enumerating, ProvisionEvent::Guid(Some(g)), r1),
        step_spec(p, r1, ProvisionEvent::Done, r2),
        step_spec(p, r2, e3, r3),
    ensures
        r1 == (ProvisionState::Storing { guid: g }),
        r2 == (ProvisionState::Detaching { result: Ok(Some(g)) }),
        r3 == (ProvisionState::Finished { result: Ok(Some(g)) }),
{
}

/// The text of the error when no drive letter is free.
pub open spec fn no_letter_text() -> Seq<char> {
    "no free drive letter available between S: and Z:"@
}

/// The text of the error when the parent of a new differencing disk is
/// attached.
pub open spec fn parent_attached_text() -> Seq<char> {
    "selected parent vhdx must be detached before creating a differencing disk"@
}

/// The plan for a new base disk named `name` with number `seq`, in
/// `base_dir`: the two lowest free letters between S: and Z: go to its EFI
/// and its system volume; an error when fewer than two are free (or the
/// drive query gave an empty mask).
pub fn plan_base(
    base_dir: &str,
    seq: i64,
    name: &str,
    image_file: &str,
    image_index: u32,
    size_gb: u64,
    free_mask: u32,
) -> (r: Result<ProvisionPlan, AppError>)
    requires
        size_gb * 1024 <= u64::MAX,
    ensures
        match pick_letters_spec(free_mask, 2) {
            Some(ls) => match r {
                Ok(p) => {
                    &&& plan_ok(&p)
                    &&& p.vhd_path@ == join_spec(base_dir@, vhd_file_name_spec(seq as int, name@))
                    &&& p.sys_letter == ls[1]
                    &&& match p.kind {
                        ProvisionKind::Base { image_file: f, image_index: i, size_gb: g, efi_letter } => {
                            &&& f@ == image_file@
                            &&& i == image_index
                            &&& g == size_gb
                            &&& efi_letter == ls[0]
                        },
                        _ => false,
                    }
                },
                Err(_) => false,
            },
            None => r matches Err(e) && e.is_message(no_letter_text()),
        },
{
    let file_name = vhd_file_name(seq, name);
    let vhd_path = join(base_dir, file_name.as_str());
    match pick_free_letters(free_mask, 2) {
        Some(letters) => {
            proof {
                assert(letters@.len() == 2) by {
                    assert(pick_letters_spec(free_mask, 2) == Some(letters@));
                }
            }
            Ok(ProvisionPlan {
                kind: ProvisionKind::Base {
                    image_file: image_file.to_owned(),
                    image_index,
                    size_gb,
                    efi_letter: letters[0],
                },
                vhd_path,
                sys_letter: letters[1],
            })
        },
        None => Err(message("no free drive letter available between S: and Z:")),
    }
}

/// The checks on the parent of a new differencing disk: it must be
/// detached, and so must every disk below it (`attached_below`, the
/// attached descendants found).
pub fn check_diff_parent(parent_attached: bool, attached_below: &Vec<Node>) -> (r: Result<
    (),
    AppError,
>)
    ensures
        parent_attached ==> (r matches Err(e) && e.is_message(parent_attached_text())),
        !parent_attached ==> (r is Ok <==> attached_below.len() == 0),
        !parent_attached ==> (r matches Err(e) ==> e.is_message(attached_below_text(attached_below@))),
{
    if parent_attached {
        return Err(
            message("selected parent vhdx must be detached before creating a differencing disk"),
        );
    }
    ensure_no_attached_descendants(attached_below)
}

/// The plan for a new differencing disk named `name` with number `seq`, on
/// the parent at `parent_path`: beside the parent, with the lowest free
/// letter between S: and Z: for its system volume.
pub fn plan_diff(parent_path: &str, seq: i64, name: &str, free_mask: u32) -> (r: Result<
    ProvisionPlan,
    AppError,
>)
    ensures
        match parent_spec(parent_path@) {
            None => r matches Err(e) && e.is_message("invalid parent path: "@ + parent_path@),
            Some(dir) => match pick_letters_spec(free_mask, 1) {
                None => r matches Err(e) && e.is_message(no_letter_text()),
                Some(ls) => match r {
                    Ok(p) => {
                        &&& plan_ok(&p)
                        &&& p.vhd_path@ == join_spec(dir, vhd_file_name_spec(seq as int, name@))
                        &&& p.sys_letter == ls[0]
                        &&& p.kind matches ProvisionKind::Diff { parent_path: q }
                        &&& q@ == parent_path@
                    },
                    Err(_) => false,
                },
            },
        },
{
    let file_name = vhd_file_name(seq, name);
    let vhd_path = match child_disk_path(parent_path, file_name.as_str()) {
        Ok(p) => p,
        Err(e) => {
            return Err(e);
        },
    };
    match pick_free_letter(free_mask) {
        Some(c) => Ok(
            ProvisionPlan {
                kind: ProvisionKind::Diff { parent_path: parent_path.to_owned() },
                vhd_path,
                sys_letter: c,
            },
        ),
        None => Err(message("no free drive letter available between S: and Z:")),
    }
}

/// The plan for rewriting the boot files of the disk at `vhd_path`, with
/// the lowest free letter between S: and Z: for its system volume.
pub fn plan_repair(
    vhd_path: &str,
    free_mask: u32,
    was_attached: bool,
    description: Option<String>,
) -> (r: Result<ProvisionPlan, AppError>)
    ensures
        match pick_letters_spec(free_mask, 1) {
            None => r matches Err(e) && e.is_message(no_letter_text()),
            Some(ls) => r matches Ok(p) && plan_ok(&p) && p.vhd_path@ == vhd_path@ && p.sys_letter
                == ls[0] && p.kind == (ProvisionKind::Repair { was_attached, description }),
        },
{
    match pick_free_letter(free_mask) {
        Some(c) => Ok(
            ProvisionPlan {
                kind: ProvisionKind::Repair { was_attached, description },
                vhd_path: vhd_path.to_owned(),
                sys_letter: c,
            },
        ),
        None => Err(message("no free drive letter available between S: and Z:")),
    }
}

} // verus!
