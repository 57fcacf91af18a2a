//! The partition layout of a virtual disk as PowerShell's Storage module
//! reports it, the choice of its system partition, and the scripts that ask
//! for the layout and for the attachment state.
use vstd::prelude::*;
use crate::error::AppError;
use crate::sys::{command_succeeded, exited_ok, CommandOutput};
use crate::text::{
    append_chars, append_str, ascii_lower, chars_equal, chars_of, copy_range, lower_chars,
    string_from_chars, opt_view, trim_chars, trim_class, trim_end_class, trim_end_index, trim_start_class,
    trim_start_index, trim_str, trim_ws, CharClass,
};

verus! {

/// GPT partition type of a basic data partition.
pub const GPT_BASIC_DATA_PARTITION: &'static str = "ebd0a0a2-b9e5-4433-87c0-68b6b72699c7";

/// A virtual disk and its partitions.
pub struct VhdLayout {
    pub path: String,
    pub attached: bool,
    pub partitions: Vec<VhdPartition>,
}

/// One partition of a virtual disk.
pub struct VhdPartition {
    pub partition_number: u32,
    /// The partition type name (`Basic`, `System`, `Reserved`, ...).
    pub kind: String,
    pub gpt_type: Option<String>,
    pub size_mb: u64,
    pub drive_letter: Option<String>,
    pub file_system: Option<String>,
    pub label: Option<String>,
}

/// A GUID as written in braces or not, in any case, compared canonically:
/// trimmed, leading `{` and trailing `}` removed, lower case.
pub open spec fn normalize_guid_spec(g: Seq<char>) -> Seq<char> {
    ascii_lower(
        trim_end_class(
            trim_start_class(trim_ws(g), CharClass::Exactly('{')),
            CharClass::Exactly('}'),
        ),
    )
}

pub open spec fn matches_gpt_type_spec(candidate: Option<Seq<char>>, expected: Seq<char>) -> bool {
    match candidate {
        Some(g) => normalize_guid_spec(g) == expected,
        None => false,
    }
}

/// The partition is a GPT basic data partition.
pub open spec fn is_basic_data(p: VhdPartition) -> bool {
    matches_gpt_type_spec(opt_view(p.gpt_type), GPT_BASIC_DATA_PARTITION@)
}

/// The partition's type name is `Basic`, ignoring ASCII case.
pub open spec fn is_basic_kind(p: VhdPartition) -> bool {
    ascii_lower(p.kind@) == "basic"@
}

/// Index of the first partition that is basic data.
pub open spec fn first_basic_data(parts: Seq<VhdPartition>) -> Option<int>
    decreases parts.len(),
{
    if parts.len() == 0 {
        None
    } else {
        match first_basic_data(parts.drop_last()) {
            Some(i) => Some(i),
            None => if is_basic_data(parts.last()) {
                Some(parts.len() - 1)
            } else {
                None
            },
        }
    }
}

/// Index of the largest partition among those selected (all of them, or
/// those of type `Basic`); among equally large ones the last, as
/// `Iterator::max_by_key` picks.
pub open spec fn largest(parts: Seq<VhdPartition>, basic_only: bool) -> Option<int>
    decreases parts.len(),
{
    if parts.len() == 0 {
        None
    } else {
        let prev = largest(parts.drop_last(), basic_only);
        let last = parts.last();
        if (!basic_only || is_basic_kind(last)) && (prev matches Some(j) ==> last.size_mb
            >= parts[j].size_mb) {
            Some(parts.len() - 1)
        } else {
            prev
        }
    }
}

/// The system partition: the first GPT basic data partition, else the
/// largest partition of type `Basic`, else the largest partition.
pub open spec fn system_partition_spec(parts: Seq<VhdPartition>) -> Option<u32> {
    match first_basic_data(parts) {
        Some(i) => Some(parts[i].partition_number),
        None => match largest(parts, true) {
            Some(j) => Some(parts[j].partition_number),
            None => match largest(parts, false) {
                Some(k) => Some(parts[k].partition_number),
                None => None,
            },
        },
    }
}

proof fn lemma_largest_all_exists(parts: Seq<VhdPartition>)
    ensures
        largest(parts, false) is Some <==> parts.len() > 0,
        largest(parts, false) matches Some(k) ==> 0 <= k < parts.len(),
    decreases parts.len(),
{
    if parts.len() > 0 {
        lemma_largest_all_exists(parts.drop_last());
    }
}

proof fn lemma_largest_range(parts: Seq<VhdPartition>, basic_only: bool)
    ensures
        largest(parts, basic_only) matches Some(k) ==> 0 <= k < parts.len() && (basic_only
            ==> is_basic_kind(parts[k])) && forall|t: int|
            0 <= t < parts.len() && (!basic_only || is_basic_kind(parts[t])) ==> parts[t].size_mb
                <= parts[k].size_mb,
        largest(parts, basic_only) is None ==> forall|t: int|
            0 <= t < parts.len() ==> basic_only && !is_basic_kind(#[trigger] parts[t]),
    decreases parts.len(),
{
    if parts.len() > 0 {
        lemma_largest_range(parts.drop_last(), basic_only);
        let prev = largest(parts.drop_last(), basic_only);
        assert forall|t: int| 0 <= t < parts.len() - 1 implies #[trigger] parts[t]
            == parts.drop_last()[t] by {}
    }
}

proof fn lemma_first_basic_data_range(parts: Seq<VhdPartition>)
    ensures
        first_basic_data(parts) matches Some(i) ==> 0 <= i < parts.len() && is_basic_data(
            parts[i],
        ) && forall|t: int| 0 <= t < i ==> !is_basic_data(#[trigger] parts[t]),
        first_basic_data(parts) is None ==> forall|t: int|
            0 <= t < parts.len() ==> !is_basic_data(#[trigger] parts[t]),
    decreases parts.len(),
{
    if parts.len() > 0 {
        lemma_first_basic_data_range(parts.drop_last());
        assert forall|t: int| 0 <= t < parts.len() - 1 implies #[trigger] parts[t]
            == parts.drop_last()[t] by {}
    }
}

/// What the choice of system partition guarantees: a partition is found
/// exactly when the disk has one, and it is one of the disk's partitions.
/// When the disk has a GPT basic data partition, the first such one wins.
/// Else, when it has partitions of type `Basic`, a largest of those wins.
/// Else a largest partition of all wins.
pub proof fn law_system_partition(parts: Seq<VhdPartition>)
    ensures
        system_partition_spec(parts) is Some <==> parts.len() > 0,
        system_partition_spec(parts) matches Some(n) ==> exists|i: int|
            0 <= i < parts.len() && #[trigger] parts[i].partition_number == n,
        (exists|i: int| 0 <= i < parts.len() && is_basic_data(#[trigger] parts[i]))
            ==> exists|i: int|
            0 <= i < parts.len() && is_basic_data(#[trigger] parts[i])
                && system_partition_spec(parts) == Some(parts[i].partition_number)
                && forall|t: int| 0 <= t < i ==> !is_basic_data(#[trigger] parts[t]),
        (forall|t: int| 0 <= t < parts.len() ==> !is_basic_data(#[trigger] parts[t])) && (exists|
            i: int,
        | 0 <= i < parts.len() && is_basic_kind(#[trigger] parts[i])) ==> exists|i: int|
            0 <= i < parts.len() && is_basic_kind(#[trigger] parts[i])
                && system_partition_spec(parts) == Some(parts[i].partition_number)
                && forall|t: int|
                0 <= t < parts.len() && is_basic_kind(#[trigger] parts[t]) ==> parts[t].size_mb
                    <= parts[i].size_mb,
        (forall|t: int|
            0 <= t < parts.len() ==> !is_basic_data(#[trigger] parts[t]) && !is_basic_kind(
                parts[t],
            )) && parts.len() > 0 ==> exists|i: int|
            0 <= i < parts.len() && system_partition_spec(parts) == Some(
                #[trigger] parts[i].partition_number,
            ) && forall|t: int| 0 <= t < parts.len() ==> (#[trigger] parts[t]).size_mb
                <= parts[i].size_mb,
{
    lemma_largest_all_exists(parts);
    lemma_largest_range(parts, true);
    lemma_largest_range(parts, false);
    lemma_first_basic_data_range(parts);
    if let Some(i) = first_basic_data(parts) {
        assert(parts[i].partition_number == parts[i].partition_number);
    } else if let Some(j) = largest(parts, true) {
        assert(parts[j].partition_number == parts[j].partition_number);
    } else if let Some(k) = largest(parts, false) {
        assert(parts[k].partition_number == parts[k].partition_number);
        assert forall|t: int| 0 <= t < parts.len() implies (#[trigger] parts[t]).size_mb
            <= parts[k].size_mb by {}
    }
}

/// Canonical form of a GUID for comparison.
pub fn normalize_guid(guid: &str) -> (r: String)
    ensures
        r@ == normalize_guid_spec(guid@),
{
    let v = normalize_guid_chars(guid);
    string_from_chars(v.as_slice())
}

fn normalize_guid_chars(guid: &str) -> (r: Vec<char>)
    ensures
        r@ == normalize_guid_spec(guid@),
{
    let t = trim_str(guid);
    let a = trim_start_index(&t, 0, t.len(), CharClass::Exactly('{'));
    let b = trim_end_index(&t, a, t.len(), CharClass::Exactly('}'));
    proof {
        assert(t@.subrange(0, t.len() as int) =~= t@);
    }
    let inner = copy_range(&t, a, b);
    lower_chars(inner.as_slice())
}

/// Whether an optional GPT type names the expected partition type.
pub fn matches_gpt_type(candidate: Option<&str>, expected: &str) -> (b: bool)
    ensures
        b == match candidate {
            Some(g) => normalize_guid_spec(g@) == expected@,
            None => false,
        },
{
    match candidate {
        Some(g) => {
            let n = normalize_guid_chars(g);
            let e = chars_of(expected);
            chars_equal(n.as_slice(), e.as_slice())
        },
        None => false,
    }
}

fn partition_is_basic_data(p: &VhdPartition) -> (b: bool)
    ensures
        b == is_basic_data(*p),
{
    match &p.gpt_type {
        Some(g) => matches_gpt_type(Some(g.as_str()), GPT_BASIC_DATA_PARTITION),
        None => false,
    }
}

fn partition_is_basic_kind(p: &VhdPartition) -> (b: bool)
    ensures
        b == is_basic_kind(*p),
{
    let k = chars_of(p.kind.as_str());
    let l = lower_chars(k.as_slice());
    let e = chars_of("basic");
    chars_equal(l.as_slice(), e.as_slice())
}

fn largest_index(parts: &Vec<VhdPartition>, basic_only: bool) -> (r: Option<usize>)
    ensures
        match r {
            Some(i) => i < parts.len() && largest(parts@, basic_only) == Some(i as int),
            None => largest(parts@, basic_only) == None::<int>,
        },
{
    let mut best: Option<usize> = None;
    let mut i: usize = 0;
    while i < parts.len()
        invariant
            i <= parts.len(),
            match best {
                Some(j) => j < i && largest(parts@.take(i as int), basic_only) == Some(j as int),
                None => largest(parts@.take(i as int), basic_only) == None::<int>,
            },
        decreases parts.len() - i,
    {
        proof {
            assert(parts@.take(i + 1).drop_last() =~= parts@.take(i as int));
            assert(parts@.take(i + 1).last() == parts@[i as int]);
            if let Some(j) = best {
                assert(parts@.take(i + 1)[j as int] == parts@[j as int]);
            }
        }
        let selected = !basic_only || partition_is_basic_kind(&parts[i]);
        if selected {
            let better = match best {
                Some(j) => parts[i].size_mb >= parts[j].size_mb,
                None => true,
            };
            if better {
                best = Some(i);
            }
        }
        i = i + 1;
    }
    proof {
        assert(parts@.take(parts.len() as int) =~= parts@);
    }
    best
}

/// The partition on which Windows is installed.
pub fn find_system_partition_number(layout: &VhdLayout) -> (r: Option<u32>)
    ensures
        r == system_partition_spec(layout.partitions@),
{
    let parts = &layout.partitions;
    let mut i: usize = 0;
    while i < parts.len()
        invariant
            i <= parts.len(),
            parts@ == layout.partitions@,
            first_basic_data(parts@.take(i as int)) == None::<int>,
        decreases parts.len() - i,
    {
        proof {
            assert(parts@.take(i + 1).drop_last() =~= parts@.take(i as int));
            assert(parts@.take(i + 1).last() == parts@[i as int]);
        }
        if partition_is_basic_data(&parts[i]) {
            proof {
                assert(first_basic_data(parts@.take(i + 1)) == Some(i as int));
                lemma_first_basic_data_prefix(parts@, i + 1);
            }
            return Some(parts[i].partition_number);
        }
        i = i + 1;
    }
    proof {
        assert(parts@.take(parts.len() as int) =~= parts@);
    }
    match largest_index(parts, true) {
        Some(j) => Some(parts[j].partition_number),
        None => match largest_index(parts, false) {
            Some(k) => Some(parts[k].partition_number),
            None => None,
        },
    }
}

/// A first match found in a prefix stays the first match of the whole list.
proof fn lemma_first_basic_data_prefix(parts: Seq<VhdPartition>, n: int)
    requires
        0 <= n <= parts.len(),
        first_basic_data(parts.take(n)) is Some,
    ensures
        first_basic_data(parts) == first_basic_data(parts.take(n)),
    decreases parts.len() - n,
{
    if n < parts.len() {
        assert(parts.take(n + 1).drop_last() =~= parts.take(n));
        lemma_first_basic_data_prefix(parts, n + 1);
    } else {
        assert(parts.take(n) =~= parts);
    }
}

/// `'` doubled, as a PowerShell single-quoted string needs.
pub open spec fn ps_escape_spec(s: Seq<char>) -> Seq<char>
    decreases s.len(),
{
    if s.len() == 0 {
        seq![]
    } else {
        ps_escape_spec(s.drop_last()) + if s.last() == '\'' {
            seq!['\'', '\'']
        } else {
            seq![s.last()]
        }
    }
}

pub fn ps_escape_chars(v: &[char]) -> (r: Vec<char>)
    ensures
        r@ == ps_escape_spec(v@),
{
    let mut r: Vec<char> = Vec::new();
    let mut i: usize = 0;
    while i < v.len()
        invariant
            i <= v.len(),
            r@ == ps_escape_spec(v@.take(i as int)),
        decreases v.len() - i,
    {
        proof {
            assert(v@.take(i + 1).drop_last() =~= v@.take(i as int));
            assert(v@.take(i + 1).last() == v@[i as int]);
        }
        if v[i] == '\'' {
            r.push('\'');
            r.push('\'');
            proof {
                assert(r@ =~= ps_escape_spec(v@.take(i + 1)));
            }
        } else {
            r.push(v[i]);
            proof {
                assert(r@ =~= ps_escape_spec(v@.take(i + 1)));
            }
        }
        i = i + 1;
    }
    proof {
        assert(v@.take(v.len() as int) =~= v@);
    }
    r
}

/// Escapes a value for a PowerShell single-quoted string.
pub fn ps_escape_single(input: &str) -> (r: String)
    ensures
        r@ == ps_escape_spec(input@),
{
    let v = chars_of(input);
    let e = ps_escape_chars(v.as_slice());
    string_from_chars(e.as_slice())
}

/// A one-line summary of a command's output: its trimmed stderr if any,
/// else its trimmed stdout if any, else `no output`.
pub open spec fn compact_output_spec(o: &CommandOutput) -> Seq<char> {
    let err = trim_ws(o.stderr@);
    let out = trim_ws(o.stdout@);
    if err.len() > 0 {
        "stderr="@ + err
    } else if out.len() > 0 {
        "stdout="@ + out
    } else {
        "no output"@
    }
}

pub fn compact_output_chars(o: &CommandOutput) -> (r: Vec<char>)
    ensures
        r@ == compact_output_spec(o),
{
    let err = trim_str(o.stderr.as_str());
    let out = trim_str(o.stdout.as_str());
    let mut r: Vec<char> = Vec::new();
    if err.len() > 0 {
        append_str(&mut r, "stderr=");
        append_chars(&mut r, err.as_slice());
    } else if out.len() > 0 {
        append_str(&mut r, "stdout=");
        append_chars(&mut r, out.as_slice());
    } else {
        append_str(&mut r, "no output");
    }
    r
}

pub fn compact_command_output(o: &CommandOutput) -> (r: String)
    ensures
        r@ == compact_output_spec(o),
{
    let v = compact_output_chars(o);
    string_from_chars(v.as_slice())
}

/// Opening of the layout script, up to the quoted disk path.
pub const LAYOUT_SCRIPT_HEAD: &'static str = "$ErrorActionPreference = 'Stop'\n$ProgressPreference = 'SilentlyContinue'\nImport-Module Storage\n$path = '";

/// Rest of the layout script: mount the disk if needed, find it, list its
/// partitions with their volumes as JSON, and dismount it again.
pub const LAYOUT_SCRIPT_TAIL: &'static str = "'\n$img = Get-DiskImage -ImagePath $path\n$mountedHere = -not [bool]$img.Attached\nif ($mountedHere) {\n    Mount-DiskImage -ImagePath $path -NoDriveLetter | Out-Null\n    Start-Sleep -Milliseconds 300\n}\ntry {\n    $disk = $null\n    for ($i = 0; $i -lt 10 -and -not $disk; $i++) {\n        $disk = Get-Disk | Where-Object { $_.Location -eq $path } | Select-Object -First 1\n        if (-not $disk) {\n            Start-Sleep -Milliseconds 200\n        }\n    }\n    if (-not $disk) { throw \"disk not found for $path\" }\n    $parts = foreach ($p in ($disk | Get-Partition | Sort-Object PartitionNumber)) {\n        $vol = $null\n        try { $vol = $p | Get-Volume -ErrorAction Stop } catch {}\n        [pscustomobject]@{\n            PartitionNumber = [int]$p.PartitionNumber\n            Type = [string]$p.Type\n            Kind = [string]$p.Type\n            GptType = if ($p.GptType) { [string]$p.GptType } else { $null }\n            SizeMB = [UInt64][math]::Round($p.Size / 1MB)\n            DriveLetter = if ($p.DriveLetter) { [string]$p.DriveLetter } else { $null }\n            FileSystem = if ($vol) { [string]$vol.FileSystem } else { $null }\n            Label = if ($vol) { [string]$vol.FileSystemLabel } else { $null }\n        }\n    }\n    [pscustomobject]@{\n        Path = $path\n        Attached = [bool](Get-DiskImage -ImagePath $path).Attached\n        Partitions = @($parts)\n    } | ConvertTo-Json -Compress -Depth 5\n} finally {\n    if ($mountedHere) {\n        Dismount-DiskImage -ImagePath $path | Out-Null\n    }\n}";

/// Rest of the attachment script: report whether the image is attached.
pub const ATTACHED_SCRIPT_TAIL: &'static str = "'\n[pscustomobject]@{\n    Attached = [bool](Get-DiskImage -ImagePath $path).Attached\n} | ConvertTo-Json -Compress";

/// The PowerShell script that reports a disk's partition layout as JSON.
pub fn inspect_vhd_layout_script(vhd_path: &str) -> (r: String)
    ensures
        r@ == LAYOUT_SCRIPT_HEAD@ + ps_escape_spec(vhd_path@) + LAYOUT_SCRIPT_TAIL@,
{
    let mut v: Vec<char> = Vec::new();
    append_str(&mut v, LAYOUT_SCRIPT_HEAD);
    let p = chars_of(vhd_path);
    let e = ps_escape_chars(p.as_slice());
    append_chars(&mut v, e.as_slice());
    append_str(&mut v, LAYOUT_SCRIPT_TAIL);
    string_from_chars(v.as_slice())
}

/// The PowerShell script that reports whether a disk image is attached.
pub fn is_vhd_attached_script(vhd_path: &str) -> (r: String)
    ensures
        r@ == LAYOUT_SCRIPT_HEAD@ + ps_escape_spec(vhd_path@) + ATTACHED_SCRIPT_TAIL@,
{
    let mut v: Vec<char> = Vec::new();
    append_str(&mut v, LAYOUT_SCRIPT_HEAD);
    let p = chars_of(vhd_path);
    let e = ps_escape_chars(p.as_slice());
    append_chars(&mut v, e.as_slice());
    append_str(&mut v, ATTACHED_SCRIPT_TAIL);
    string_from_chars(v.as_slice())
}

/// What a script run hands on: the trimmed standard output when the script
/// exited with 0, else an error naming the step and summarising the output.
pub open spec fn script_json_spec(step: Seq<char>, o: &CommandOutput) -> Result<
    Seq<char>,
    Seq<char>,
> {
    if exited_ok(o) {
        Ok(trim_ws(o.stdout@))
    } else {
        Err(step + " failed: "@ + compact_output_spec(o))
    }
}

/// The JSON text that a layout or attachment script printed, or the error
/// for a failed run; `step` names the step in the error.
pub fn script_json_output(step: &str, o: &CommandOutput) -> (r: Result<String, AppError>)
    ensures
        match r {
            Ok(s) => script_json_spec(step@, o) == Ok::<Seq<char>, Seq<char>>(s@),
            Err(e) => script_json_spec(step@, o) matches Err(m) && e.is_message(m),
        },
{
    if command_succeeded(o) {
        let t = trim_str(o.stdout.as_str());
        Ok(string_from_chars(t.as_slice()))
    } else {
        let mut m: Vec<char> = Vec::new();
        append_str(&mut m, step);
        append_str(&mut m, " failed: ");
        let c = compact_output_chars(o);
        append_chars(&mut m, c.as_slice());
        Err(AppError::Message(string_from_chars(m.as_slice())))
    }
}

} // verus!
