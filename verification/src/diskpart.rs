//! The diskpart scripts that create, attach, letter and detach virtual
//! disks, and the arguments that run a script.
use vstd::prelude::*;
use crate::text::{append_chars, append_str, chars_of, decimal, push_decimal, string_from_chars};

verus! {

/// The arguments that make diskpart run the script stored at the path.
pub fn diskpart_args(script_path: &str) -> (r: Vec<String>)
    ensures
        r@.map_values(|s: String| s@) == seq!["/s"@, script_path@],
{
    let mut r: Vec<String> = Vec::new();
    r.push("/s".to_owned());
    r.push(script_path.to_owned());
    proof {
        assert(r@.map_values(|s: String| s@) =~= seq!["/s"@, script_path@]);
    }
    r
}

/// The script that creates an expandable VHDX of `size_gb` GiB, converts it
/// to GPT and lays out an EFI partition (FAT32, letter `efi`), an MSR
/// partition and a primary partition (NTFS, letter `sys`).
pub open spec fn base_script_spec(vhd: Seq<char>, size_gb: nat, efi: char, sys: char) -> Seq<
    char,
> {
    "\ncreate vdisk file=\""@ + vhd + "\" maximum="@ + decimal(size_gb * 1024)
        + " type=expandable\nselect vdisk file=\""@ + vhd
        + "\"\nattach vdisk\nconvert gpt\ncreate partition efi size=100\nformat quick fs=fat32 label=\"EFI\"\nassign letter="@
        + seq![efi]
        + "\ncreate partition msr size=16\ncreate partition primary\nformat quick fs=ntfs label=\"System\"\nassign letter="@
        + seq![sys] + "\nlist volume\nlist partition\n"@
}

/// Script to create and partition a base VHDX with GPT, EFI, MSR and a
/// primary partition.
pub fn base_diskpart_script(vhd_path: &str, size_gb: u64, efi_letter: char, sys_letter: char) -> (r:
    String)
    requires
        size_gb * 1024 <= u64::MAX,
    ensures
        r@ == base_script_spec(vhd_path@, size_gb as nat, efi_letter, sys_letter),
{
    let size_mb = size_gb * 1024;
    let mut v: Vec<char> = Vec::new();
    append_str(&mut v, "\ncreate vdisk file=\"");
    append_str(&mut v, vhd_path);
    append_str(&mut v, "\" maximum=");
    push_decimal(&mut v, size_mb);
    append_str(&mut v, " type=expandable\nselect vdisk file=\"");
    append_str(&mut v, vhd_path);
    append_str(
        &mut v,
        "\"\nattach vdisk\nconvert gpt\ncreate partition efi size=100\nformat quick fs=fat32 label=\"EFI\"\nassign letter=",
    );
    v.push(efi_letter);
    append_str(
        &mut v,
        "\ncreate partition msr size=16\ncreate partition primary\nformat quick fs=ntfs label=\"System\"\nassign letter=",
    );
    v.push(sys_letter);
    append_str(&mut v, "\nlist volume\nlist partition\n");
    proof {
        assert(v@ =~= base_script_spec(vhd_path@, size_gb as nat, efi_letter, sys_letter));
    }
    string_from_chars(v.as_slice())
}

/// The script that creates a differencing VHDX on a parent, attaches it and
/// lists its volumes and partitions, assigning no letter.
pub open spec fn diff_script_spec(child: Seq<char>, parent: Seq<char>) -> Seq<char> {
    "\ncreate vdisk file=\""@ + child + "\" parent=\""@ + parent + "\"\nselect vdisk file=\""@
        + child + "\"\nattach vdisk\nlist volume\nlist partition\n"@
}

pub fn diff_attach_list_script(child: &str, parent: &str) -> (r: String)
    ensures
        r@ == diff_script_spec(child@, parent@),
{
    let mut v: Vec<char> = Vec::new();
    append_str(&mut v, "\ncreate vdisk file=\"");
    append_str(&mut v, child);
    append_str(&mut v, "\" parent=\"");
    append_str(&mut v, parent);
    append_str(&mut v, "\"\nselect vdisk file=\"");
    append_str(&mut v, child);
    append_str(&mut v, "\"\nattach vdisk\nlist volume\nlist partition\n");
    proof {
        assert(v@ =~= diff_script_spec(child@, parent@));
    }
    string_from_chars(v.as_slice())
}

/// The script that attaches an existing VHDX and lists its partitions and
/// volumes.
pub open spec fn attach_script_spec(vhd: Seq<char>) -> Seq<char> {
    "\nselect vdisk file=\""@ + vhd + "\"\nattach vdisk\nlist partition\nlist volume\n"@
}

pub fn attach_list_vdisk_script(vhd_path: &str) -> (r: String)
    ensures
        r@ == attach_script_spec(vhd_path@),
{
    let mut v: Vec<char> = Vec::new();
    append_str(&mut v, "\nselect vdisk file=\"");
    append_str(&mut v, vhd_path);
    append_str(&mut v, "\"\nattach vdisk\nlist partition\nlist volume\n");
    proof {
        assert(v@ =~= attach_script_spec(vhd_path@));
    }
    string_from_chars(v.as_slice())
}

/// `select vdisk file="<path>"`.
pub open spec fn select_line(vhd: Seq<char>) -> Seq<char> {
    "select vdisk file=\""@ + vhd + "\""@
}

/// For each assignment, a line that selects the partition and one that
/// gives it the letter (each line preceded by a line feed).
pub open spec fn assignment_lines(a: Seq<(u32, char)>) -> Seq<char>
    decreases a.len(),
{
    if a.len() == 0 {
        seq![]
    } else {
        assignment_lines(a.drop_last()) + "\nselect partition "@ + decimal(a.last().0 as nat)
            + "\nassign letter="@ + seq![a.last().1] + " noerr"@
    }
}

/// Script to give letters to partitions of the attached VHDX: its lines
/// joined by line feeds.
pub open spec fn assign_script_spec(vhd: Seq<char>, a: Seq<(u32, char)>) -> Seq<char> {
    select_line(vhd) + assignment_lines(a) + "\nlist volume"@
}

pub fn assign_partitions_script(vhd_path: &str, assignments: &[(u32, char)]) -> (r: String)
    ensures
        r@ == assign_script_spec(vhd_path@, assignments@),
{
    let mut v: Vec<char> = Vec::new();
    append_str(&mut v, "select vdisk file=\"");
    append_str(&mut v, vhd_path);
    append_str(&mut v, "\"");
    let ghost head = v@;
    let mut i: usize = 0;
    proof {
        assert(assignments@.take(0) =~= Seq::<(u32, char)>::empty());
        assert(v@ =~= head + assignment_lines(assignments@.take(0)));
    }
    while i < assignments.len()
        invariant
            i <= assignments.len(),
            head == select_line(vhd_path@),
            v@ == head + assignment_lines(assignments@.take(i as int)),
        decreases assignments.len() - i,
    {
        let (part_idx, letter) = assignments[i];
        append_str(&mut v, "\nselect partition ");
        push_decimal(&mut v, part_idx as u64);
        append_str(&mut v, "\nassign letter=");
        v.push(letter);
        append_str(&mut v, " noerr");
        proof {
            assert(assignments@.take(i + 1).drop_last() =~= assignments@.take(i as int));
            assert(assignments@.take(i + 1).last() == assignments@[i as int]);
            assert(v@ =~= head + assignment_lines(assignments@.take(i + 1)));
        }
        i = i + 1;
    }
    append_str(&mut v, "\nlist volume");
    proof {
        assert(assignments@.take(assignments.len() as int) =~= assignments@);
        assert(v@ =~= assign_script_spec(vhd_path@, assignments@));
    }
    string_from_chars(v.as_slice())
}

/// For each letter, a line that selects its volume and one that removes the
/// letter (each line preceded by a line feed).
pub open spec fn removal_lines(letters: Seq<char>) -> Seq<char>
    decreases letters.len(),
{
    if letters.len() == 0 {
        seq![]
    } else {
        removal_lines(letters.drop_last()) + "\nselect volume "@ + seq![letters.last()]
            + "\nremove letter="@ + seq![letters.last()] + " noerr"@
    }
}

/// Script to remove letters from volumes of a VHDX and, if asked, detach it.
pub open spec fn detach_script_spec(vhd: Seq<char>, letters: Seq<char>, detach: bool) -> Seq<
    char,
> {
    select_line(vhd) + removal_lines(letters) + if detach {
        "\n"@ + select_line(vhd) + "\ndetach vdisk"@
    } else {
        seq![]
    }
}

pub fn detach_vdisk_script(vhd_path: &str, letters: &[char], detach_vdisk: bool) -> (r: String)
    ensures
        r@ == detach_script_spec(vhd_path@, letters@, detach_vdisk),
{
    let mut sel: Vec<char> = Vec::new();
    append_str(&mut sel, "select vdisk file=\"");
    append_str(&mut sel, vhd_path);
    append_str(&mut sel, "\"");
    let mut v: Vec<char> = Vec::new();
    append_chars(&mut v, sel.as_slice());
    let ghost head = v@;
    let mut i: usize = 0;
    proof {
        assert(letters@.take(0) =~= Seq::<char>::empty());
        assert(v@ =~= head + removal_lines(letters@.take(0)));
    }
    while i < letters.len()
        invariant
            i <= letters.len(),
            head == select_line(vhd_path@),
            sel@ == select_line(vhd_path@),
            v@ == head + removal_lines(letters@.take(i as int)),
        decreases letters.len() - i,
    {
        let letter = letters[i];
        append_str(&mut v, "\nselect volume ");
        v.push(letter);
        append_str(&mut v, "\nremove letter=");
        v.push(letter);
        append_str(&mut v, " noerr");
        proof {
            assert(letters@.take(i + 1).drop_last() =~= letters@.take(i as int));
            assert(letters@.take(i + 1).last() == letters@[i as int]);
            assert(v@ =~= head + removal_lines(letters@.take(i + 1)));
        }
        i = i + 1;
    }
    proof {
        assert(letters@.take(letters.len() as int) =~= letters@);
    }
    if detach_vdisk {
        append_str(&mut v, "\n");
        append_chars(&mut v, sel.as_slice());
        append_str(&mut v, "\ndetach vdisk");
    }
    proof {
        assert(v@ =~= detach_script_spec(vhd_path@, letters@, detach_vdisk));
    }
    string_from_chars(v.as_slice())
}

} // verus!
