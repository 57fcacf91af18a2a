//! Decisions of the workspace service: how disk paths are compared, how a
//! disk is named, which folders a scan skips, which drive letters are free,
//! how a failed command is reported, how a new disk record is made, and
//! what attaching, detaching and deleting disks come to.
use vstd::prelude::*;
use crate::diskpart::{
    attach_list_vdisk_script, attach_script_spec, detach_script_spec, detach_vdisk_script,
};
use crate::error::AppError;
use crate::models::{Node, NodeStatus};
use crate::storage::{compact_output_chars, compact_output_spec, ps_escape_chars, ps_escape_spec};
use crate::sys::CommandOutput;
use crate::text::{
    all_digits, append_chars, append_str, ascii_lower, chars_equal, chars_of, copy_range,
    find_occurrence, first_occurrence, has_prefix, is_path_separator, join_pieces, join_seq,
    lower_chars,
    matches_at, opt_view, pad4_signed, push_pad4_signed, decimal, digit_char, push_signed_decimal, replace_char,
    replace_chars, signed_decimal, string_from_chars, trim_chars, trim_start_class,
    trim_start_index, trim_ws, CharClass,
};
use crate::winpath::{
    drive_prefix_len, has_own_prefix, lemma_file_name_of_appended, lemma_stem_before_extension,
    extension_chars, extension_of_name, file_name_chars, file_name_spec, join, join_spec, parent,
    parent_spec, stem_chars, stem_of_name,
};

verus! {

/// The drive letter with number `i` (0 is `A`).
pub open spec fn drive_letter(i: int) -> char {
    ((65 + i) as u32) as char
}

/// What the device query gave for drive letter number `i`, if anything.
pub open spec fn device_entry(devs: Seq<Option<String>>, i: int) -> Option<Seq<char>> {
    if 0 <= i < devs.len() {
        opt_view(devs[i])
    } else {
        None
    }
}

/// The (lower-case) device path lies on the device `pre`: it starts with
/// the device's name in lower case, and that name ends there or at a
/// component boundary (a separator follows it, or it ends with one).
pub open spec fn on_device(c: Seq<char>, pre: Seq<char>) -> bool {
    &&& has_prefix(c, ascii_lower(pre))
    &&& (c.len() == pre.len() || is_path_separator(c[pre.len() as int]) || (pre.len() > 0
        && is_path_separator(pre.last())))
}

/// The first drive, from number `i` on, whose device the (lower-case)
/// device path lies on, with the path rewritten below that drive.
pub open spec fn device_match(c: Seq<char>, devs: Seq<Option<String>>, i: int) -> Option<
    Seq<char>,
>
    decreases 26 - i,
{
    if i < 0 || i >= 26 {
        None
    } else {
        match device_entry(devs, i) {
            Some(pre) => if on_device(c, pre) {
                Some(
                    seq![drive_letter(i), ':', '\\'] + trim_start_class(
                        c.skip(pre.len() as int),
                        CharClass::Separator,
                    ),
                )
            } else {
                device_match(c, devs, i + 1)
            },
            None => device_match(c, devs, i + 1),
        }
    }
}

/// A device path such as `\Device\HarddiskVolume10\foo` rewritten to the
/// drive that maps that device (`X:\foo`), when one does. `devs[i]` is what
/// the system maps drive letter number `i` to. A leading `\??\` and then a
/// leading `\GLOBALROOT\` are removed first, each with its separator, so
/// what follows them must itself start with `\Device\`.
pub open spec fn device_to_drive_spec(path: Seq<char>, devs: Seq<Option<String>>) -> Option<
    Seq<char>,
> {
    let lower = ascii_lower(path);
    let c1 = if has_prefix(lower, "\\??\\"@) {
        lower.skip("\\??\\"@.len() as int)
    } else {
        lower
    };
    let c2 = if has_prefix(c1, "\\globalroot\\"@) {
        c1.skip("\\globalroot\\"@.len() as int)
    } else {
        c1
    };
    if has_prefix(c2, "\\device\\"@) {
        device_match(c2, devs, 0)
    } else {
        None
    }
}

pub open spec fn verbatim_prefix() -> Seq<char> {
    seq!['\\', '\\', '?', '\\']
}

/// Every leading `\\?\` removed.
pub open spec fn strip_verbatim(s: Seq<char>) -> Seq<char>
    decreases s.len(),
{
    if has_prefix(s, verbatim_prefix()) {
        strip_verbatim(s.skip(4))
    } else {
        s
    }
}

/// The key under which the workspace compares disk paths: trimmed, without
/// verbatim prefixes, device paths rewritten to drives, `/` turned into `\`,
/// in ASCII lower case.
pub open spec fn normalize_path_spec(path: Seq<char>, devs: Seq<Option<String>>) -> Seq<char> {
    let t = strip_verbatim(trim_ws(path));
    let adj = match device_to_drive_spec(t, devs) {
        Some(d) => d,
        None => t,
    };
    ascii_lower(replace_char(adj, '/', '\\'))
}

fn letter_char(i: usize) -> (c: char)
    requires
        i < 26,
    ensures
        c == drive_letter(i as int),
{
    let b = (65 + i) as u8;
    b as char
}

fn device_match_exec(c: &Vec<char>, devs: &Vec<Option<String>>) -> (r: Option<Vec<char>>)
    ensures
        match r {
            Some(w) => device_match(c@, devs@, 0) == Some(w@),
            None => device_match(c@, devs@, 0) == None::<Seq<char>>,
        },
{
    let mut i: usize = 0;
    while i < 26
        invariant
            i <= 26,
            device_match(c@, devs@, 0) == device_match(c@, devs@, i as int),
        decreases 26 - i,
    {
        if i < devs.len() {
            match &devs[i] {
                Some(pre) => {
                    let pv = chars_of(pre.as_str());
                    let pl = lower_chars(pv.as_slice());
                    let boundary = pl.len() >= c.len() || c[pl.len()] == '\\' || c[pl.len()]
                        == '/' || (pv.len() > 0 && (pv[pv.len() - 1] == '\\' || pv[pv.len() - 1]
                        == '/'));
                    if matches_at(c.as_slice(), pl.as_slice(), 0) && boundary {
                        let r = trim_start_index(c, pl.len(), c.len(), CharClass::Separator);
                        let mut out: Vec<char> = Vec::new();
                        out.push(letter_char(i));
                        out.push(':');
                        out.push('\\');
                        let rest = copy_range(c, r, c.len());
                        append_chars(&mut out, rest.as_slice());
                        proof {
                            assert(c@.skip(pv.len() as int) =~= c@.subrange(
                                pl.len() as int,
                                c.len() as int,
                            ));
                            assert(out@ =~= seq![drive_letter(i as int), ':', '\\']
                                + trim_start_class(c@.skip(pv.len() as int), CharClass::Separator));
                        }
                        return Some(out);
                    }
                },
                None => {},
            }
        }
        i = i + 1;
    }
    None
}

/// Skips a literal prefix: the index after it when `v[from..]` starts with
/// it, else `from`.
fn skip_literal(v: &Vec<char>, from: usize, lit: &str) -> (r: usize)
    requires
        from <= v.len(),
    ensures
        has_prefix(v@.skip(from as int), lit@) ==> r == from + lit@.len(),
        !has_prefix(v@.skip(from as int), lit@) ==> r == from,
        r <= v.len(),
{
    let l = chars_of(lit);
    let m = matches_at(v.as_slice(), l.as_slice(), from);
    proof {
        if from + l.len() <= v.len() {
            assert(v@.skip(from as int).subrange(0, l.len() as int) =~= v@.subrange(
                from as int,
                from + l.len(),
            ));
        }
    }
    if m {
        from + l.len()
    } else {
        from
    }
}

/// The drive path for a device path, if a drive maps that device.
pub fn device_path_to_drive(path: &str, dos_devices: &Vec<Option<String>>) -> (r: Option<String>)
    ensures
        opt_view(r) == device_to_drive_spec(path@, dos_devices@),
{
    let v = chars_of(path);
    let lower = lower_chars(v.as_slice());
    proof {
        assert(lower@.skip(0) =~= lower@);
    }
    let a = skip_literal(&lower, 0, "\\??\\");
    let b = skip_literal(&lower, a, "\\globalroot\\");
    let d = skip_literal(&lower, b, "\\device\\");
    proof {
        assert(lower@.skip(a as int).skip(b - a) =~= lower@.skip(b as int));
    }
    if d == b {
        proof {
            reveal_strlit("\\device\\");
        }
        return None;
    }
    let c2 = copy_range(&lower, b, lower.len());
    proof {
        assert(c2@ =~= lower@.skip(b as int));
        assert(lower@.skip(a as int) =~= lower@.skip(0).skip(a as int));
    }
    match device_match_exec(&c2, dos_devices) {
        Some(w) => Some(string_from_chars(w.as_slice())),
        None => None,
    }
}

fn strip_verbatim_index(v: &Vec<char>, from: usize) -> (r: usize)
    requires
        from <= v.len(),
    ensures
        from <= r <= v.len(),
        v@.skip(r as int) == strip_verbatim(v@.skip(from as int)),
{
    let p = vec!['\\', '\\', '?', '\\'];
    proof {
        assert(p@ =~= verbatim_prefix());
    }
    let mut i = from;
    while matches_at(v.as_slice(), p.as_slice(), i)
        invariant
            from <= i <= v.len(),
            p@ == verbatim_prefix(),
            strip_verbatim(v@.skip(from as int)) == strip_verbatim(v@.skip(i as int)),
        decreases v.len() - i,
    {
        proof {
            assert(v@.skip(i as int).subrange(0, 4) =~= v@.subrange(i as int, i + 4));
            assert(v@.skip(i as int).skip(4) =~= v@.skip(i + 4));
        }
        i = i + 4;
    }
    proof {
        if i + 4 <= v.len() {
            assert(v@.skip(i as int).subrange(0, 4) =~= v@.subrange(i as int, i + 4));
        }
    }
    i
}

/// The key under which disk paths are compared.
pub fn normalize_path(path: &str, dos_devices: &Vec<Option<String>>) -> (r: String)
    ensures
        r@ == normalize_path_spec(path@, dos_devices@),
{
    let v = chars_of(path);
    let t = trim_chars(&v);
    let s = strip_verbatim_index(&t, 0);
    proof {
        assert(t@.skip(0) =~= t@);
    }
    let stripped = copy_range(&t, s, t.len());
    proof {
        assert(stripped@ =~= t@.skip(s as int));
    }
    let st = string_from_chars(stripped.as_slice());
    let adj = match device_path_to_drive(st.as_str(), dos_devices) {
        Some(d) => chars_of(d.as_str()),
        None => stripped,
    };
    let rep = replace_chars(adj.as_slice(), '/', '\\');
    let low = lower_chars(rep.as_slice());
    string_from_chars(low.as_slice())
}

/// Whether a path lies at or below the root, comparing normalised keys.
pub open spec fn within_root_spec(root: Seq<char>, candidate: Seq<char>, devs: Seq<Option<String>>) -> bool {
    let r = normalize_path_spec(root, devs);
    let c = normalize_path_spec(candidate, devs);
    c == r || has_prefix(c, r + seq!['\\'])
}

pub fn path_within_root(root: &str, candidate: &str, dos_devices: &Vec<Option<String>>) -> (b:
    bool)
    ensures
        b == within_root_spec(root@, candidate@, dos_devices@),
{
    let r = normalize_path(root, dos_devices);
    let c = normalize_path(candidate, dos_devices);
    let rv = chars_of(r.as_str());
    let cv = chars_of(c.as_str());
    if chars_equal(cv.as_slice(), rv.as_slice()) {
        return true;
    }
    let ghost r0 = rv@;
    let mut with_sep = rv;
    with_sep.push('\\');
    proof {
        assert(with_sep@ =~= r0 + seq!['\\']);
    }
    matches_at(cv.as_slice(), with_sep.as_slice(), 0)
}

/// The display name of a disk: its file stem, without a leading run of
/// digits and `-` (the sequence number given at creation).
pub open spec fn derive_name_spec(path: Seq<char>) -> Seq<char> {
    let stem = match file_name_spec(path) {
        Some(n) => stem_of_name(n),
        None => "vhdx"@,
    };
    match first_occurrence(stem, seq!['-'], 0) {
        Some(k) => if all_digits(stem.take(k)) && stem.skip(k + 1).len() > 0 {
            stem.skip(k + 1)
        } else {
            stem
        },
        None => stem,
    }
}

proof fn lemma_decimal_digits(n: nat)
    ensures
        all_digits(decimal(n)),
        decimal(n).len() >= 1,
    decreases n,
{
    if n >= 10 {
        lemma_decimal_digits(n / 10);
        let d = decimal(n / 10);
        let c = digit_char(n % 10);
        assert(crate::text::is_ascii_digit(c));
        assert forall|i: int| 0 <= i < d.push(c).len() implies crate::text::is_ascii_digit(
            #[trigger] d.push(c)[i],
        ) by {
            if i < d.len() {
                assert(d.push(c)[i] == d[i]);
            }
        }
    } else {
        assert(crate::text::is_ascii_digit(digit_char(n)));
    }
}

proof fn lemma_pad4_digits(n: int)
    requires
        n >= 0,
    ensures
        all_digits(pad4_signed(n)),
        pad4_signed(n).len() >= 4,
{
    lemma_decimal_digits(n as nat);
    let d = decimal(n as nat);
    if d.len() < 4 {
        let z = Seq::new((4 - d.len()) as nat, |i: int| '0');
        let s = z + d;
        assert forall|i: int| 0 <= i < s.len() implies crate::text::is_ascii_digit(#[trigger] s[i]) by {
            if i >= z.len() {
                assert(s[i] == d[i - z.len()]);
            }
        }
    }
}

/// `<q><number, four places at least>-<slug>.vhdx` is named back as
/// `slug`, when `q` is empty, a bare drive or ends in a separator.
proof fn lemma_numbered_name(q: Seq<char>, seq: int, slug: Seq<char>)
    requires
        q.len() == 0 || is_path_separator(q.last()) || (q.len() == 2 && drive_prefix_len(q) == 2),
        seq >= 0,
        slug.len() > 0,
        forall|i: int| 0 <= i < slug.len() ==> !is_path_separator(#[trigger] slug[i]),
    ensures
        derive_name_spec(q + (pad4_signed(seq) + "-"@ + slug + ".vhdx"@)) == slug,
{
    reveal_strlit(".vhdx");
    reveal_strlit("-");
    let pad = pad4_signed(seq);
    lemma_pad4_digits(seq);
    let stem = pad + seq!['-'] + slug;
    let ext = seq!['v', 'h', 'd', 'x'];
    let fname = pad + "-"@ + slug + ".vhdx"@;
    assert(fname =~= stem + seq!['.'] + ext);
    assert(fname[0] == pad[0]);
    assert(crate::text::is_ascii_digit(pad[0]));
    assert forall|i: int| 0 <= i < fname.len() implies !is_path_separator(#[trigger] fname[i]) by {
        if i < pad.len() {
            assert(fname[i] == pad[i]);
            assert(crate::text::is_ascii_digit(pad[i]));
        } else if i == pad.len() {
            assert(fname[i] == '-');
        } else if i < stem.len() {
            assert(fname[i] == slug[i - pad.len() - 1]);
        } else {
            assert(fname[i] == (seq!['.'] + ext)[i - stem.len()]);
        }
    }
    assert(fname.last() == 'x');
    lemma_file_name_of_appended(q, fname);
    lemma_stem_before_extension(stem, ext);
    assert(stem_of_name(fname) == stem);
    assert(stem[pad.len() as int] == '-');
    assert(stem.subrange(pad.len() as int, pad.len() + 1int) =~= seq!['-']);
    assert forall|j: int| 0 <= j < pad.len() implies !crate::text::occurs_at(stem, seq!['-'], j) by {
        assert(stem[j] == pad[j]);
        assert(crate::text::is_ascii_digit(pad[j]));
        if crate::text::occurs_at(stem, seq!['-'], j) {
            assert(stem.subrange(j, j + 1)[0] == stem[j]);
        }
    }
    crate::text::lemma_first_occurrence(stem, seq!['-'], 0, Some(pad.len() as int));
    assert(stem.take(pad.len() as int) =~= pad);
    assert(stem.skip(pad.len() + 1int) =~= slug);
}

/// The name a scan derives for `<dir>/<number>-<slug>.vhdx`, the number
/// written with four places at least, is `slug`, in whatever folder, when
/// the slug is not empty and holds no separator.
pub proof fn law_derived_name_of_numbered_file(dir: Seq<char>, seq: int, slug: Seq<char>)
    requires
        seq >= 0,
        slug.len() > 0,
        forall|i: int| 0 <= i < slug.len() ==> !is_path_separator(#[trigger] slug[i]),
    ensures
        derive_name_spec(dir + "/"@ + pad4_signed(seq) + "-"@ + slug + ".vhdx"@) == slug,
{
    reveal_strlit("/");
    let q = dir + "/"@;
    assert(q.last() == '/');
    lemma_numbered_name(q, seq, slug);
    assert(dir + "/"@ + pad4_signed(seq) + "-"@ + slug + ".vhdx"@ =~= q + (pad4_signed(seq) + "-"@
        + slug + ".vhdx"@));
}

/// The name a scan derives for a disk file named by `vhd_file_name` is the
/// lower-cased name the disk was created with, in whatever folder the file
/// lies, when that name is not empty and holds no separator.
pub proof fn law_derived_name_is_created_name(dir: Seq<char>, seq: int, name: Seq<char>)
    requires
        seq >= 0,
        unicode_lowercase(name).len() > 0,
        forall|i: int|
            0 <= i < unicode_lowercase(name).len() ==> !is_path_separator(
                #[trigger] unicode_lowercase(name)[i],
            ),
    ensures
        derive_name_spec(join_spec(dir, vhd_file_name_spec(seq, name))) == unicode_lowercase(name),
{
    let fname = vhd_file_name_spec(seq, name);
    let pad = pad4_signed(seq);
    lemma_pad4_digits(seq);
    assert(fname[0] == pad[0]);
    assert(crate::text::is_ascii_digit(pad[0]));
    let q = if dir.len() == 0 || is_path_separator(dir.last()) || (drive_prefix_len(dir) == 2
        && dir.len() == 2) {
        dir
    } else {
        dir + seq!['\\']
    };
    assert(drive_prefix_len(fname) == 0);
    assert(!has_own_prefix(fname));
    assert(join_spec(dir, fname) =~= q + fname);
    if q != dir {
        assert(q.last() == '\\');
    }
    lemma_numbered_name(q, seq, unicode_lowercase(name));
}

fn all_digits_in(v: &Vec<char>, a: usize, b: usize) -> (r: bool)
    requires
        a <= b <= v.len(),
    ensures
        r == all_digits(v@.subrange(a as int, b as int)),
{
    let mut i = a;
    while i < b
        invariant
            a <= i <= b <= v.len(),
            forall|t: int| a <= t < i ==> '0' <= #[trigger] v@[t] && v@[t] <= '9',
        decreases b - i,
    {
        if !('0' <= v[i] && v[i] <= '9') {
            proof {
                assert(v@.subrange(a as int, b as int)[i - a] == v@[i as int]);
            }
            return false;
        }
        i = i + 1;
    }
    proof {
        assert forall|t: int| 0 <= t < b - a implies crate::text::is_ascii_digit(
            #[trigger] v@.subrange(a as int, b as int)[t],
        ) by {
            assert(v@.subrange(a as int, b as int)[t] == v@[a + t]);
        }
    }
    true
}

pub fn derive_name_from_path(path: &str) -> (r: String)
    ensures
        r@ == derive_name_spec(path@),
{
    let v = chars_of(path);
    let stem = match file_name_chars(&v) {
        Some(n) => stem_chars(&n),
        None => chars_of("vhdx"),
    };
    let dash = vec!['-'];
    proof {
        assert(dash@ =~= seq!['-']);
    }
    match find_occurrence(&stem, &dash, 0) {
        Some(k) => {
            let digits = all_digits_in(&stem, 0, k);
            proof {
                assert(stem@.take(k as int) =~= stem@.subrange(0, k as int));
                assert(stem@.skip(k + 1) =~= stem@.subrange(k + 1, stem.len() as int));
            }
            if digits && k + 1 < stem.len() {
                let rest = copy_range(&stem, k + 1, stem.len());
                string_from_chars(rest.as_slice())
            } else {
                string_from_chars(stem.as_slice())
            }
        },
        None => string_from_chars(stem.as_slice()),
    }
}

/// System folders that a scan for disks does not enter.
pub open spec fn skipped_dir_name(lower: Seq<char>) -> bool {
    lower == "system volume information"@ || lower == "$recycle.bin"@ || lower == "recovery"@
        || lower == "windows"@
}

pub fn should_skip_scan_dir(path: &str) -> (b: bool)
    ensures
        b == match file_name_spec(path@) {
            Some(n) => skipped_dir_name(ascii_lower(n)),
            None => false,
        },
{
    let v = chars_of(path);
    match file_name_chars(&v) {
        Some(n) => {
            let l = lower_chars(n.as_slice());
            let a = chars_of("system volume information");
            let b = chars_of("$recycle.bin");
            let c = chars_of("recovery");
            let d = chars_of("windows");
            chars_equal(l.as_slice(), a.as_slice()) || chars_equal(l.as_slice(), b.as_slice())
                || chars_equal(l.as_slice(), c.as_slice()) || chars_equal(
                l.as_slice(),
                d.as_slice(),
            )
        },
        None => false,
    }
}

/// Whether a path names a `.vhdx` file (extension compared ignoring ASCII
/// case).
pub fn has_vhdx_extension(path: &str) -> (b: bool)
    ensures
        b == match file_name_spec(path@) {
            Some(n) => match extension_of_name(n) {
                Some(e) => ascii_lower(e) == "vhdx"@,
                None => false,
            },
            None => false,
        },
{
    let v = chars_of(path);
    match file_name_chars(&v) {
        Some(n) => match extension_chars(&n) {
            Some(e) => {
                let l = lower_chars(e.as_slice());
                let x = chars_of("vhdx");
                chars_equal(l.as_slice(), x.as_slice())
            },
            None => false,
        },
        None => false,
    }
}

/// Drive letter number `i` is in use according to the logical drive mask.
pub open spec fn letter_in_use(mask: u32, i: u32) -> bool {
    mask & (1u32 << i) != 0
}

/// The free letters among `S:` to `Z:`, from number `k` on, in order.
pub open spec fn free_letters_from(mask: u32, k: int) -> Seq<char>
    decreases 26 - k,
{
    if k < 18 || k >= 26 {
        seq![]
    } else if letter_in_use(mask, k as u32) {
        free_letters_from(mask, k + 1)
    } else {
        seq![drive_letter(k)] + free_letters_from(mask, k + 1)
    }
}

pub open spec fn free_letters(mask: u32) -> Seq<char> {
    free_letters_from(mask, 18)
}

/// `count` free letters between `S:` and `Z:`, the lowest first; none when
/// the mask is empty (the query failed) or too few are free.
pub open spec fn pick_letters_spec(mask: u32, count: nat) -> Option<Seq<char>> {
    if mask != 0 && count > 0 && free_letters(mask).len() >= count {
        Some(free_letters(mask).take(count as int))
    } else {
        None
    }
}

proof fn lemma_free_letters_from(mask: u32, k: int)
    requires
        18 <= k <= 26,
    ensures
        forall|i: int|
            0 <= i < free_letters_from(mask, k).len() ==> exists|j: int|
                k <= j < 26 && !letter_in_use(mask, j as u32) && #[trigger] free_letters_from(
                    mask,
                    k,
                )[i] == drive_letter(j),
        forall|i: int|
            0 <= i < free_letters_from(mask, k).len() ==> k + 65 <= (
            #[trigger] free_letters_from(mask, k)[i]) as int,
        forall|i: int, i2: int|
            0 <= i < i2 < free_letters_from(mask, k).len() ==> ((#[trigger] free_letters_from(
                mask,
                k,
            )[i]) as int) < ((#[trigger] free_letters_from(mask, k)[i2]) as int),
    decreases 26 - k,
{
    if k < 26 {
        lemma_free_letters_from(mask, k + 1);
        let rest = free_letters_from(mask, k + 1);
        let here = free_letters_from(mask, k);
        assert(drive_letter(k) as int == k + 65);
        if !letter_in_use(mask, k as u32) {
            assert(here == seq![drive_letter(k)] + rest);
            assert forall|i: int| 0 <= i < here.len() implies exists|j: int|
                k <= j < 26 && !letter_in_use(mask, j as u32) && #[trigger] here[i]
                    == drive_letter(j) by {
                if i > 0 {
                    assert(here[i] == rest[i - 1]);
                }
            }
            assert forall|i: int| 0 <= i < here.len() implies k + 65 <= (#[trigger] here[i]) as int by {
                if i > 0 {
                    assert(here[i] == rest[i - 1]);
                }
            }
            assert forall|i: int, i2: int| 0 <= i < i2 < here.len() implies ((#[trigger] here[i]) as int)
                < ((#[trigger] here[i2]) as int) by {
                assert(here[i2] == rest[i2 - 1]);
                if i > 0 {
                    assert(here[i] == rest[i - 1]);
                }
            }
        }
    }
}

/// The letters picked are free according to the mask, lie between `S:`
/// and `Z:`, are as many as asked, and come in increasing order.
pub proof fn law_picked_letters_are_free(mask: u32, count: nat)
    requires
        pick_letters_spec(mask, count) is Some,
    ensures
        pick_letters_spec(mask, count)->0.len() == count,
        forall|i: int|
            0 <= i < count ==> exists|j: int|
                18 <= j < 26 && !letter_in_use(mask, j as u32) && #[trigger] pick_letters_spec(
                    mask,
                    count,
                )->0[i] == drive_letter(j),
        forall|i: int, i2: int|
            0 <= i < i2 < count ==> ((#[trigger] pick_letters_spec(mask, count)->0[i]) as int)
                < ((#[trigger] pick_letters_spec(mask, count)->0[i2]) as int),
{
    lemma_free_letters_from(mask, 18);
    let ls = pick_letters_spec(mask, count)->0;
    let all = free_letters(mask);
    assert forall|i: int| 0 <= i < count implies exists|j: int|
        18 <= j < 26 && !letter_in_use(mask, j as u32) && #[trigger] ls[i] == drive_letter(j) by {
        assert(ls[i] == all[i]);
    }
    assert forall|i: int, i2: int| 0 <= i < i2 < count implies ((#[trigger] ls[i]) as int)
        < ((#[trigger] ls[i2]) as int) by {
        assert(ls[i] == all[i]);
        assert(ls[i2] == all[i2]);
    }
}

pub fn pick_free_letters(mask: u32, count: usize) -> (r: Option<Vec<char>>)
    ensures
        match r {
            Some(v) => pick_letters_spec(mask, count as nat) == Some(v@),
            None => pick_letters_spec(mask, count as nat) == None::<Seq<char>>,
        },
{
    if mask == 0 {
        return None;
    }
    let mut letters: Vec<char> = Vec::new();
    let mut k: u32 = 18;
    while k < 26
        invariant
            18 <= k <= 26,
            mask != 0,
            letters@ + free_letters_from(mask, k as int) == free_letters(mask),
            count == 0 || letters.len() < count,
        decreases 26 - k,
    {
        let in_use = (mask & (1u32 << k)) != 0;
        if !in_use {
            letters.push(letter_char(k as usize));
            proof {
                assert(letters@ + free_letters_from(mask, k + 1) =~= letters@.drop_last() + (seq![
                    drive_letter(k as int),
                ] + free_letters_from(mask, k + 1)));
            }
            if letters.len() == count {
                proof {
                    assert(free_letters(mask).take(count as int) =~= letters@);
                }
                return Some(letters);
            }
        }
        k = k + 1;
    }
    proof {
        assert(letters@ + free_letters_from(mask, 26) =~= letters@);
    }
    None
}

/// The first free letter between `S:` and `Z:`.
pub fn pick_free_letter(mask: u32) -> (r: Option<char>)
    ensures
        match r {
            Some(c) => pick_letters_spec(mask, 1) == Some(seq![c]),
            None => pick_letters_spec(mask, 1) == None::<Seq<char>>,
        },
{
    match pick_free_letters(mask, 1) {
        Some(v) => {
            proof {
                assert(v@ =~= seq![v@[0]]);
            }
            Some(v[0])
        },
        None => None,
    }
}

/// The parts of a failure report: exit code, script path, and the output
/// summary.
pub open spec fn failure_parts(o: &CommandOutput, script: Option<Seq<char>>) -> Seq<Seq<char>> {
    let a = match o.exit_code {
        Some(c) => seq!["exit="@ + signed_decimal(c as int)],
        None => seq![],
    };
    let b = match script {
        Some(s) => seq!["script="@ + s],
        None => seq![],
    };
    a + b + seq![compact_output_spec(o)]
}

/// `<name> failed: <parts joined by " | ">`.
pub open spec fn command_error_text(name: Seq<char>, o: &CommandOutput, script: Option<
    Seq<char>,
>) -> Seq<char> {
    name + " failed: "@ + join_seq(failure_parts(o, script), " | "@)
}

/// The error reported when an external command fails.
pub fn command_error(name: &str, output: &CommandOutput, script: Option<&str>) -> (e: AppError)
    ensures
        e.is_message(
            command_error_text(
                name@,
                output,
                match script {
                    Some(s) => Some(s@),
                    None => None,
                },
            ),
        ),
{
    let mut parts: Vec<Vec<char>> = Vec::new();
    match output.exit_code {
        Some(c) => {
            let mut p: Vec<char> = Vec::new();
            append_str(&mut p, "exit=");
            push_signed_decimal(&mut p, c as i64);
            parts.push(p);
        },
        None => {},
    }
    match script {
        Some(s) => {
            let mut p: Vec<char> = Vec::new();
            append_str(&mut p, "script=");
            append_str(&mut p, s);
            parts.push(p);
        },
        None => {},
    }
    parts.push(compact_output_chars(output));
    let ghost sv = match script {
        Some(s) => Some(s@),
        None => None,
    };
    proof {
        assert(parts@.map_values(|p: Vec<char>| p@) =~= failure_parts(output, sv));
    }
    let joined = join_pieces(&parts, " | ");
    let mut m: Vec<char> = Vec::new();
    append_str(&mut m, name);
    append_str(&mut m, " failed: ");
    append_chars(&mut m, joined.as_slice());
    AppError::Message(string_from_chars(m.as_slice()))
}

/// What `str::to_lowercase` returns: Unicode lower case.
pub uninterp spec fn unicode_lowercase(s: Seq<char>) -> Seq<char>;

/// `str::to_lowercase`; its result is named, not spelled out (Unicode case
/// mapping).
#[verifier::external_body]
fn to_lowercase(s: &str) -> (r: String)
    ensures
        r@ == unicode_lowercase(s@),
{
    s.to_lowercase()
}

/// The file name of a new disk: the sequence number written with at least
/// four places, a dash, the lower-cased name, `.vhdx`.
pub open spec fn vhd_file_name_spec(seq: int, name: Seq<char>) -> Seq<char> {
    pad4_signed(seq) + "-"@ + unicode_lowercase(name) + ".vhdx"@
}

pub fn vhd_file_name(seq: i64, name: &str) -> (r: String)
    ensures
        r@ == vhd_file_name_spec(seq as int, name@),
{
    let mut v: Vec<char> = Vec::new();
    push_pad4_signed(&mut v, seq);
    append_str(&mut v, "-");
    let slug = to_lowercase(name);
    append_str(&mut v, slug.as_str());
    append_str(&mut v, ".vhdx");
    string_from_chars(v.as_slice())
}

/// A fresh random identifier: `uuid::Uuid::new_v4` in hyphenated lower-case
/// form, 36 characters.
#[verifier::external_body]
pub(crate) fn new_id() -> (r: String)
    ensures
        r@.len() == 36,
{
    uuid::Uuid::new_v4().to_string()
}

/// The current time in RFC 3339 (`chrono::Utc::now().to_rfc3339()`);
/// nothing is stated of it, it depends on the clock.
#[verifier::external_body]
fn now_rfc3339() -> String {
    chrono::Utc::now().to_rfc3339()
}

/// The record of a disk just created: no BCD entry when the GUID found is
/// empty, boot files ready when there is one, status normal, stamped now.
pub fn new_node_record(
    id: String,
    parent_id: Option<String>,
    name: &str,
    path: &str,
    guid: &str,
    desc: Option<String>,
) -> (n: Node)
    ensures
        n.id == id,
        n.parent_id == parent_id,
        n.name@ == name@,
        n.path@ == path@,
        guid@.len() == 0 ==> n.bcd_guid is None,
        guid@.len() > 0 ==> (n.bcd_guid matches Some(g) && g@ == guid@),
        n.desc == desc,
        n.status == NodeStatus::Normal,
        n.boot_files_ready == (guid@.len() > 0),
{
    let g = chars_of(guid);
    let bcd_guid = if g.len() == 0 {
        None
    } else {
        Some(guid.to_owned())
    };
    Node {
        id,
        parent_id,
        name: name.to_owned(),
        path: path.to_owned(),
        bcd_guid,
        desc,
        created_at: now_rfc3339(),
        status: NodeStatus::Normal,
        boot_files_ready: g.len() > 0,
    }
}

/// The node hangs directly below the node with this id.
pub open spec fn child_of(n: Node, parent: Seq<char>) -> bool {
    n.parent_id matches Some(q) && q@ == parent
}

/// The ids met by a walk: the root's, then those of the nodes reached.
pub open spec fn walk_ids(nodes: Seq<Node>, root: Seq<char>, r: Seq<usize>) -> Seq<Seq<char>> {
    seq![root] + r.map_values(|j: usize| nodes[j as int].id@)
}

/// The ids met after adding, in the order of `nodes[..j]`, every node that
/// hangs below `cur` and whose id was not met yet.
pub open spec fn add_children(nodes: Seq<Node>, ids: Seq<Seq<char>>, cur: Seq<char>, j: int) -> Seq<
    Seq<char>,
>
    decreases j,
{
    if j <= 0 || j > nodes.len() {
        ids
    } else {
        let prev = add_children(nodes, ids, cur, j - 1);
        if child_of(nodes[j - 1], cur) && !prev.contains(nodes[j - 1].id@) {
            prev.push(nodes[j - 1].id@)
        } else {
            prev
        }
    }
}

/// Breadth-first order of the ids met, from position `head` on, with at
/// most `fuel` ids taken from the queue.
pub open spec fn bfs_ids(nodes: Seq<Node>, ids: Seq<Seq<char>>, head: int, fuel: nat) -> Seq<
    Seq<char>,
>
    decreases fuel,
{
    if fuel == 0 || head < 0 || head >= ids.len() {
        ids
    } else {
        bfs_ids(nodes, add_children(nodes, ids, ids[head], nodes.len() as int), head + 1, (fuel - 1) as nat)
    }
}

/// The breadth-first order of the subtree below `root`: children in the
/// order of `nodes`, an id met before not entered again.
pub open spec fn subtree_bfs(nodes: Seq<Node>, root: Seq<char>) -> Seq<Seq<char>> {
    bfs_ids(nodes, seq![root], 0, (nodes.len() + 1) as nat)
}

/// The `k`-th node reached hangs below an id met no later than it.
pub open spec fn reached_through(nodes: Seq<Node>, root: Seq<char>, r: Seq<usize>, k: int) -> bool {
    exists|t: int| 0 <= t <= k && #[trigger] child_of(nodes[r[k] as int], walk_ids(nodes, root, r)[t])
}

/// Every node hanging below the `t`-th id met has its id among those met.
pub open spec fn closed_below(nodes: Seq<Node>, ids: Seq<Seq<char>>, t: int) -> bool {
    forall|j: int| 0 <= j < nodes.len() && #[trigger] child_of(nodes[j], ids[t]) ==> ids.contains(nodes[j].id@)
}

/// What a walk of the subtree below `root` satisfies: the ids met are
/// distinct, each node was reached from an id met before it, and every node
/// that hangs below a met id has its id among them.
pub open spec fn walk_ok(nodes: Seq<Node>, root: Seq<char>, r: Seq<usize>) -> bool {
    let ids = walk_ids(nodes, root, r);
    &&& forall|k: int| 0 <= k < r.len() ==> (#[trigger] r[k]) < nodes.len()
    &&& ids.no_duplicates()
    &&& forall|k: int| 0 <= k < r.len() ==> #[trigger] reached_through(nodes, root, r, k)
    &&& forall|t: int| 0 <= t < ids.len() ==> #[trigger] closed_below(nodes, ids, t)
}

/// An order of ids that covers exactly the subtree below `root`: it starts
/// at the root, has no repeats, every later id is that of a node hanging
/// below an earlier id, and every node hanging below an id of the order is
/// in it.
pub open spec fn is_subtree_order(nodes: Seq<Node>, root: Seq<char>, ids: Seq<Seq<char>>) -> bool {
    &&& ids.len() >= 1
    &&& ids[0] == root
    &&& ids.no_duplicates()
    &&& forall|k: int| 1 <= k < ids.len() ==> #[trigger] reached_from_earlier(nodes, ids, k)
    &&& forall|t: int| 0 <= t < ids.len() ==> #[trigger] closed_below(nodes, ids, t)
}

/// The `k`-th id is that of a node hanging below an earlier id.
pub open spec fn reached_from_earlier(nodes: Seq<Node>, ids: Seq<Seq<char>>, k: int) -> bool {
    exists|j: int, t: int|
        0 <= j < nodes.len() && 0 <= t < k && nodes[j].id@ == ids[k] && #[trigger] child_of(
            nodes[j],
            ids[t],
        )
}

proof fn lemma_distinct_bounded(r: Seq<usize>, n: nat)
    requires
        r.no_duplicates(),
        forall|k: int| 0 <= k < r.len() ==> (#[trigger] r[k]) < n,
    ensures
        r.len() <= n,
    decreases n,
{
    if n == 0 {
        if r.len() > 0 {
            assert(r[0] < n);
        }
    } else {
        let m = (n - 1) as usize;
        if r.contains(m) {
            let i = r.index_of(m);
            let r2 = r.remove(i);
            assert forall|k: int| 0 <= k < r2.len() implies (#[trigger] r2[k]) < n - 1 by {
                if k < i {
                    assert(r2[k] == r[k]);
                } else {
                    assert(r2[k] == r[k + 1]);
                }
            }
            assert(r2.no_duplicates()) by {
                assert forall|a: int, b: int|
                    0 <= a < r2.len() && 0 <= b < r2.len() && a != b implies r2[a] != r2[b] by {
                    let a2 = if a < i {
                        a
                    } else {
                        a + 1
                    };
                    let b2 = if b < i {
                        b
                    } else {
                        b + 1
                    };
                    assert(r2[a] == r[a2]);
                    assert(r2[b] == r[b2]);
                }
            }
            lemma_distinct_bounded(r2, (n - 1) as nat);
        } else {
            assert forall|k: int| 0 <= k < r.len() implies (#[trigger] r[k]) < n - 1 by {
                assert(r[k] != m);
            }
            lemma_distinct_bounded(r, (n - 1) as nat);
        }
    }
}

fn contains_id(ids: &Vec<String>, s: &String) -> (b: bool)
    ensures
        b == ids@.map_values(|x: String| x@).contains(s@),
{
    let ghost iv = ids@.map_values(|x: String| x@);
    let mut i: usize = 0;
    while i < ids.len()
        invariant
            i <= ids.len(),
            iv == ids@.map_values(|x: String| x@),
            forall|t: int| 0 <= t < i ==> iv[t] != s@,
        decreases ids.len() - i,
    {
        if ids[i] == *s {
            proof {
                assert(iv[i as int] == s@);
            }
            return true;
        }
        i = i + 1;
    }
    false
}

fn is_child_of(n: &Node, parent: &String) -> (b: bool)
    ensures
        b == child_of(*n, parent@),
{
    match &n.parent_id {
        Some(q) => *q == *parent,
        None => false,
    }
}

/// Walks the subtree below `root_id` breadth first, children in the order
/// of `nodes`, and returns the positions of the nodes reached, in the order
/// reached. A node whose id was already met is not entered again.
pub fn subtree_walk(nodes: &Vec<Node>, root_id: &str) -> (r: Vec<usize>)
    ensures
        walk_ok(nodes@, root_id@, r@),
        walk_ids(nodes@, root_id@, r@) == subtree_bfs(nodes@, root_id@),
{
    let mut ids: Vec<String> = Vec::new();
    ids.push(root_id.to_owned());
    let mut r: Vec<usize> = Vec::new();
    let mut head: usize = 0;
    proof {
        assert(ids@.map_values(|x: String| x@) =~= walk_ids(nodes@, root_id@, r@));
        assert(walk_ids(nodes@, root_id@, r@) =~= seq![root_id@]);
    }
    while head < ids.len()
        invariant
            ids@.map_values(|x: String| x@) == walk_ids(nodes@, root_id@, r@),
            ids.len() == r.len() + 1,
            head <= ids.len(),
            r.len() <= nodes.len(),
            r@.no_duplicates(),
            forall|k: int| 0 <= k < r.len() ==> (#[trigger] r@[k]) < nodes.len(),
            walk_ids(nodes@, root_id@, r@).no_duplicates(),
            forall|k: int| 0 <= k < r.len() ==> #[trigger] reached_through(nodes@, root_id@, r@, k),
            forall|t: int|
                0 <= t < head ==> #[trigger] closed_below(nodes@, walk_ids(nodes@, root_id@, r@), t),
            subtree_bfs(nodes@, root_id@) == bfs_ids(
                nodes@,
                walk_ids(nodes@, root_id@, r@),
                head as int,
                (nodes.len() + 1 - head) as nat,
            ),
        decreases nodes.len() + 1 - head,
    {
        let cur = ids[head].clone();
        let ghost ids0 = walk_ids(nodes@, root_id@, r@);
        let mut j: usize = 0;
        while j < nodes.len()
            invariant
                cur@ == walk_ids(nodes@, root_id@, r@)[head as int],
                ids@.map_values(|x: String| x@) == walk_ids(nodes@, root_id@, r@),
                ids.len() == r.len() + 1,
                head < ids.len(),
                j <= nodes.len(),
                r@.no_duplicates(),
                forall|k: int| 0 <= k < r.len() ==> (#[trigger] r@[k]) < nodes.len(),
                walk_ids(nodes@, root_id@, r@).no_duplicates(),
                r.len() <= nodes.len(),
                forall|k: int| 0 <= k < r.len() ==> #[trigger] reached_through(nodes@, root_id@, r@, k),
                forall|t: int|
                    0 <= t < head ==> #[trigger] closed_below(nodes@, walk_ids(nodes@, root_id@, r@), t),
                forall|j2: int|
                    0 <= j2 < j && #[trigger] child_of(nodes@[j2], cur@) ==> walk_ids(
                        nodes@,
                        root_id@,
                        r@,
                    ).contains(nodes@[j2].id@),
                walk_ids(nodes@, root_id@, r@) == add_children(nodes@, ids0, cur@, j as int),
                ids0[head as int] == cur@,
                head < ids0.len(),
            decreases nodes.len() - j,
        {
            if is_child_of(&nodes[j], &cur) {
                let seen = contains_id(&ids, &nodes[j].id);
                if !seen {
                    let ghost old_r = r@;
                    let ghost old_ids = walk_ids(nodes@, root_id@, r@);
                    proof {
                        assert forall|k: int| 0 <= k < r.len() implies r@[k] != j by {
                            assert(old_ids[k + 1] == nodes@[r@[k] as int].id@);
                            assert(old_ids.contains(old_ids[k + 1]));
                        }
                    }
                    ids.push(nodes[j].id.clone());
                    r.push(j);
                    proof {
                        let new_ids = walk_ids(nodes@, root_id@, r@);
                        assert(new_ids =~= old_ids.push(nodes@[j as int].id@));
                        assert(ids@.map_values(|x: String| x@) =~= new_ids);
                        assert forall|k: int| 0 <= k < old_r.len() implies old_ids[k] == new_ids[k] by {}
                        assert forall|t: int| 0 <= t < old_ids.len() implies old_ids[t] == new_ids[t] by {}
                        assert(r@.no_duplicates()) by {
                            assert forall|a: int, b: int|
                                0 <= a < r.len() && 0 <= b < r.len() && a != b implies r@[a]
                                != r@[b] by {
                                if a < old_r.len() && b < old_r.len() {
                                    assert(old_r[a] != old_r[b]);
                                }
                            }
                        }
                        assert forall|k: int| 0 <= k < r.len() implies #[trigger] reached_through(
                            nodes@,
                            root_id@,
                            r@,
                            k,
                        ) by {
                            if k < old_r.len() {
                                assert(reached_through(nodes@, root_id@, old_r, k));
                                let t0 = choose|t: int|
                                    0 <= t <= k && #[trigger] child_of(
                                        nodes@[old_r[k] as int],
                                        walk_ids(nodes@, root_id@, old_r)[t],
                                    );
                                assert(new_ids[t0] == old_ids[t0]);
                                assert(r@[k] == old_r[k]);
                                assert(child_of(nodes@[r@[k] as int], new_ids[t0]));
                            } else {
                                assert(new_ids[head as int] == cur@);
                                assert(child_of(nodes@[r@[k] as int], new_ids[head as int]));
                            }
                        }
                        assert forall|a: int| 0 <= a < old_ids.len() implies #[trigger] new_ids.contains(
                            old_ids[a],
                        ) by {
                            assert(new_ids[a] == old_ids[a]);
                        }
                        assert(new_ids.contains(nodes@[j as int].id@)) by {
                            assert(new_ids[old_ids.len() as int] == nodes@[j as int].id@);
                        }
                        assert forall|t: int| 0 <= t < head implies #[trigger] closed_below(
                            nodes@,
                            new_ids,
                            t,
                        ) by {
                            assert(closed_below(nodes@, old_ids, t));
                            assert(new_ids[t] == old_ids[t]);
                            assert forall|j2: int|
                                0 <= j2 < nodes.len() && #[trigger] child_of(nodes@[j2], new_ids[t])
                                    implies new_ids.contains(nodes@[j2].id@) by {
                                assert(old_ids.contains(nodes@[j2].id@));
                                let a = choose|a: int| 0 <= a < old_ids.len() && old_ids[a] == nodes@[j2].id@;
                                assert(new_ids[a] == old_ids[a]);
                            }
                        }
                        lemma_distinct_bounded(r@, nodes.len() as nat);
                        assert(add_children(nodes@, ids0, cur@, j + 1) == old_ids.push(nodes@[j as int].id@));
                    }
                } else {
                    proof {
                        assert(add_children(nodes@, ids0, cur@, j + 1) == add_children(nodes@, ids0, cur@, j as int));
                    }
                }
            } else {
                proof {
                    assert(add_children(nodes@, ids0, cur@, j + 1) == add_children(nodes@, ids0, cur@, j as int));
                }
            }
            j = j + 1;
        }
        proof {
            assert(closed_below(nodes@, walk_ids(nodes@, root_id@, r@), head as int));
            assert(bfs_ids(nodes@, ids0, head as int, (nodes.len() + 1 - head) as nat) == bfs_ids(
                nodes@,
                add_children(nodes@, ids0, ids0[head as int], nodes.len() as int),
                head + 1,
                (nodes.len() + 1 - head - 1) as nat,
            ));
        }
        head = head + 1;
    }
    r
}

/// The order in which a subtree is deleted: the walk reversed, so that the
/// nodes reached last go first and the root goes last.
pub fn delete_order(nodes: &Vec<Node>, root_id: &str) -> (r: Vec<String>)
    ensures
        is_subtree_order(nodes@, root_id@, r@.map_values(|x: String| x@).reverse()),
        r@.map_values(|x: String| x@).reverse() == subtree_bfs(nodes@, root_id@),
{
    let w = subtree_walk(nodes, root_id);
    let ghost ids = walk_ids(nodes@, root_id@, w@);
    let mut r: Vec<String> = Vec::new();
    let mut k: usize = w.len();
    while k > 0
        invariant
            k <= w.len(),
            walk_ok(nodes@, root_id@, w@),
            ids == walk_ids(nodes@, root_id@, w@),
            r@.map_values(|x: String| x@) == ids.skip(k + 1).reverse(),
        decreases k,
    {
        let j = w[k - 1];
        let ghost old_rv = r@.map_values(|x: String| x@);
        let id = nodes[j].id.clone();
        r.push(id);
        proof {
            assert(ids[k as int] == nodes@[j as int].id@);
            assert(r@.map_values(|x: String| x@) =~= old_rv.push(ids[k as int]));
            assert(ids.skip(k as int).reverse() =~= ids.skip(k + 1).reverse().push(ids[k as int]));
        }
        k = k - 1;
    }
    let ghost old_rv = r@.map_values(|x: String| x@);
    r.push(root_id.to_owned());
    proof {
        assert(r@.map_values(|x: String| x@) =~= old_rv.push(ids[0]));
        assert(ids.skip(0).reverse() =~= ids.skip(1).reverse().push(ids[0]));
        assert(ids.skip(0) =~= ids);
        assert(r@.map_values(|x: String| x@).reverse() =~= ids);
        assert forall|kk: int| 1 <= kk < ids.len() implies #[trigger] reached_from_earlier(
            nodes@,
            ids,
            kk,
        ) by {
            let k0 = kk - 1;
            assert(w@[k0] < nodes.len());
            assert(reached_through(nodes@, root_id@, w@, k0));
            let t0 = choose|t: int|
                0 <= t <= k0 && #[trigger] child_of(nodes@[w@[k0] as int], walk_ids(nodes@, root_id@, w@)[t]);
            assert(nodes@[w@[k0] as int].id@ == ids[kk]);
            assert(child_of(nodes@[w@[k0] as int], ids[t0]));
        }
        assert(ids.len() >= 1);
        assert(ids[0] == root_id@);
        assert(ids.no_duplicates());
        assert(is_subtree_order(nodes@, root_id@, ids));
    }
    r
}

/// The nodes reached by a walk whose disks are attached; `attached[k]`
/// tells whether the disk of the `k`-th node reached is attached.
pub open spec fn attached_spec(nodes: Seq<Node>, walk: Seq<usize>, attached: Seq<bool>) -> Seq<Node>
    decreases walk.len(),
{
    if walk.len() == 0 {
        seq![]
    } else {
        let prev = attached_spec(nodes, walk.drop_last(), attached);
        let k = walk.len() - 1;
        if k < attached.len() && attached[k] {
            prev.push(nodes[walk[k] as int])
        } else {
            prev
        }
    }
}

/// The nodes reported as attached below are exactly the reached ones whose
/// flag is set: every reached node flagged attached is among them, each of
/// them is a reached node flagged attached, they are no more than the nodes
/// reached, and none is reported exactly when no reached node is flagged.
pub proof fn law_attached_descendants_exact(nodes: Seq<Node>, walk: Seq<usize>, attached: Seq<bool>)
    ensures
        forall|k: int|
            0 <= k < walk.len() && k < attached.len() && attached[k] ==> #[trigger] attached_spec(
                nodes,
                walk,
                attached,
            ).contains(nodes[walk[k] as int]),
        forall|i: int|
            0 <= i < attached_spec(nodes, walk, attached).len() ==> exists|k: int|
                0 <= k < walk.len() && k < attached.len() && attached[k] && #[trigger] attached_spec(
                    nodes,
                    walk,
                    attached,
                )[i] == nodes[walk[k] as int],
        attached_spec(nodes, walk, attached).len() <= walk.len(),
        attached_spec(nodes, walk, attached).len() == 0 <==> forall|k: int|
            0 <= k < walk.len() && k < attached.len() ==> !#[trigger] attached[k],
    decreases walk.len(),
{
    if walk.len() > 0 {
        let w0 = walk.drop_last();
        law_attached_descendants_exact(nodes, w0, attached);
        let prev = attached_spec(nodes, w0, attached);
        let r = attached_spec(nodes, walk, attached);
        let last = walk.len() - 1;
        assert forall|k: int| 0 <= k < walk.len() && k < attached.len() && attached[k] implies
            #[trigger] r.contains(nodes[walk[k] as int]) by {
            if k < last {
                assert(w0[k] == walk[k]);
                assert(prev.contains(nodes[w0[k] as int]));
                let j = choose|j: int| 0 <= j < prev.len() && prev[j] == nodes[w0[k] as int];
                assert(r[j] == prev[j]);
            } else {
                assert(r[r.len() - 1] == nodes[walk[k] as int]);
            }
        }
        assert forall|i: int| 0 <= i < r.len() implies exists|k: int|
            0 <= k < walk.len() && k < attached.len() && attached[k] && #[trigger] r[i]
                == nodes[walk[k] as int] by {
            if i < prev.len() {
                assert(r[i] == prev[i]);
                let k = choose|k: int|
                    0 <= k < w0.len() && k < attached.len() && attached[k] && #[trigger] prev[i]
                        == nodes[w0[k] as int];
                assert(w0[k] == walk[k]);
            } else {
                assert(r[i] == nodes[walk[last] as int]);
            }
        }
        if r.len() == 0 {
            assert forall|k: int| 0 <= k < walk.len() && k < attached.len() implies !#[trigger] attached[k] by {
                if k < last {
                    if attached[k] {
                        assert(prev.contains(nodes[w0[k] as int]));
                    }
                }
            }
        } else if prev.len() == 0 {
            assert(last < attached.len() && attached[last]);
        } else {
            let k = choose|k: int| 0 <= k < w0.len() && k < attached.len() && attached[k];
            assert(attached[k]);
        }
    }
}

/// The descendants, in the order reached, whose disks are attached.
pub fn attached_descendants(nodes: &Vec<Node>, walk: &Vec<usize>, attached: &Vec<bool>) -> (r: Vec<
    Node,
>)
    requires
        forall|k: int| 0 <= k < walk.len() ==> (#[trigger] walk@[k]) < nodes.len(),
    ensures
        r@ == attached_spec(nodes@, walk@, attached@),
{
    let mut r: Vec<Node> = Vec::new();
    let mut k: usize = 0;
    while k < walk.len()
        invariant
            k <= walk.len(),
            forall|t: int| 0 <= t < walk.len() ==> (#[trigger] walk@[t]) < nodes.len(),
            r@ == attached_spec(nodes@, walk@.take(k as int), attached@),
        decreases walk.len() - k,
    {
        proof {
            assert(walk@.take(k + 1).drop_last() =~= walk@.take(k as int));
            assert(walk@.take(k + 1)[k as int] == walk@[k as int]);
        }
        if k < attached.len() && attached[k] {
            r.push(nodes[walk[k]].clone());
        }
        k = k + 1;
    }
    proof {
        assert(walk@.take(walk.len() as int) =~= walk@);
    }
    r
}

/// `<name> (<path>)`.
pub open spec fn node_label(n: Node) -> Seq<char> {
    n.name@ + " ("@ + n.path@ + ")"@
}

/// `attached descendants must be detached first: ` and the labels of the
/// attached nodes joined by `, `.
pub open spec fn attached_below_text(attached: Seq<Node>) -> Seq<char> {
    "attached descendants must be detached first: "@ + join_seq(
        attached.map_values(|n: Node| node_label(n)),
        ", "@,
    )
}

/// Refuses an operation while descendants are attached, naming them.
pub fn ensure_no_attached_descendants(attached: &Vec<Node>) -> (r: Result<(), AppError>)
    ensures
        attached.len() == 0 <==> r is Ok,
        r matches Err(e) ==> e.is_message(attached_below_text(attached@)),
{
    if attached.len() == 0 {
        return Ok(());
    }
    let mut labels: Vec<Vec<char>> = Vec::new();
    let mut i: usize = 0;
    while i < attached.len()
        invariant
            i <= attached.len(),
            labels@.map_values(|p: Vec<char>| p@) == attached@.take(i as int).map_values(
                |n: Node| node_label(n),
            ),
        decreases attached.len() - i,
    {
        let mut l: Vec<char> = Vec::new();
        append_str(&mut l, attached[i].name.as_str());
        append_str(&mut l, " (");
        append_str(&mut l, attached[i].path.as_str());
        append_str(&mut l, ")");
        let ghost old_lv = labels@.map_values(|p: Vec<char>| p@);
        labels.push(l);
        proof {
            assert(labels@.map_values(|p: Vec<char>| p@) =~= old_lv.push(node_label(attached@[i as int])));
            assert(attached@.take(i + 1).map_values(|n: Node| node_label(n)) =~= attached@.take(
                i as int,
            ).map_values(|n: Node| node_label(n)).push(node_label(attached@[i as int])));
            assert(labels@.map_values(|p: Vec<char>| p@) =~= attached@.take(i + 1).map_values(
                |n: Node| node_label(n),
            ));
        }
        i = i + 1;
    }
    proof {
        assert(attached@.take(attached.len() as int) =~= attached@);
    }
    let joined = join_pieces(&labels, ", ");
    let mut m: Vec<char> = Vec::new();
    append_str(&mut m, "attached descendants must be detached first: ");
    append_chars(&mut m, joined.as_slice());
    Err(AppError::Message(string_from_chars(m.as_slice())))
}

/// What attaching or detaching a disk comes to.
pub enum AttachDecision {
    /// The disk already is as asked: the stored node is returned as it is.
    AlreadyDone,
    /// The operation is refused.
    Refused(AppError),
    /// Write `script` to a file named `script_name` and run diskpart on it.
    RunDiskpart { script_name: String, script: String },
}

/// Attaching the disk at `vhd_path`: nothing to do when it is attached;
/// refused while disks below it are attached (`attached_below`, those
/// found); else the attach script.
pub fn decide_attach(attached: bool, attached_below: &Vec<Node>, vhd_path: &str) -> (r:
    AttachDecision)
    ensures
        attached ==> r is AlreadyDone,
        !attached && attached_below.len() > 0 ==> (r matches AttachDecision::Refused(e)
            && e.is_message(attached_below_text(attached_below@))),
        !attached && attached_below.len() == 0 ==> (r matches AttachDecision::RunDiskpart {
            script_name,
            script,
        } && script_name@ == "attach_vhd.txt"@ && script@ == attach_script_spec(vhd_path@)),
{
    if attached {
        return AttachDecision::AlreadyDone;
    }
    match ensure_no_attached_descendants(attached_below) {
        Err(e) => AttachDecision::Refused(e),
        Ok(()) => AttachDecision::RunDiskpart {
            script_name: "attach_vhd.txt".to_owned(),
            script: attach_list_vdisk_script(vhd_path),
        },
    }
}

/// Detaching the disk at `vhd_path`: refused while disks below it are
/// attached (`attached_below`, those found); nothing to do when it is not
/// attached; else the script that detaches it, removing no letter.
pub fn decide_detach(attached: bool, attached_below: &Vec<Node>, vhd_path: &str) -> (r:
    AttachDecision)
    ensures
        attached_below.len() > 0 ==> (r matches AttachDecision::Refused(e) && e.is_message(
            attached_below_text(attached_below@),
        )),
        attached_below.len() == 0 && !attached ==> r is AlreadyDone,
        attached_below.len() == 0 && attached ==> (r matches AttachDecision::RunDiskpart {
            script_name,
            script,
        } && script_name@ == "detach_vhd.txt"@ && script@ == detach_script_spec(
            vhd_path@,
            seq![],
            true,
        )),
{
    match ensure_no_attached_descendants(attached_below) {
        Err(e) => AttachDecision::Refused(e),
        Ok(()) => if !attached {
            AttachDecision::AlreadyDone
        } else {
            let letters: Vec<char> = Vec::new();
            proof {
                assert(letters@ =~= Seq::<char>::empty());
            }
            AttachDecision::RunDiskpart {
                script_name: "detach_vhd.txt".to_owned(),
                script: detach_vdisk_script(vhd_path, letters.as_slice(), true),
            }
        },
    }
}

/// Where a differencing disk goes: beside its parent, in the parent's
/// folder; an error when the parent's path has no folder.
pub fn child_disk_path(parent_path: &str, file_name: &str) -> (r: Result<String, AppError>)
    ensures
        match parent_spec(parent_path@) {
            Some(dir) => r matches Ok(p) && p@ == join_spec(dir, file_name@),
            None => r matches Err(e) && e.is_message("invalid parent path: "@ + parent_path@),
        },
{
    match parent(parent_path) {
        Some(dir) => Ok(join(dir.as_str(), file_name)),
        None => {
            let mut m: Vec<char> = Vec::new();
            append_str(&mut m, "invalid parent path: ");
            append_str(&mut m, parent_path);
            Err(AppError::Message(string_from_chars(m.as_slice())))
        },
    }
}

/// The virtual machine that runs a node's disk: `ls-<node id>`.
pub fn vm_name_for(node_id: &str) -> (r: String)
    ensures
        r@ == "ls-"@ + node_id@,
{
    let mut v: Vec<char> = Vec::new();
    append_str(&mut v, "ls-");
    append_str(&mut v, node_id);
    string_from_chars(v.as_slice())
}

/// Start of the script that starts a virtual machine on a disk: checks for
/// Hyper-V and `vmconnect.exe`, then the quoted VM name.
pub const VM_SCRIPT_HEAD: &'static str = "$ErrorActionPreference = 'Stop'\nif (-not (Get-Command -Name 'Get-VM' -ErrorAction SilentlyContinue)) { throw 'Hyper-V PowerShell module is not available (Get-VM not found).'; }\nif (-not (Get-Command -Name 'vmconnect.exe' -ErrorAction SilentlyContinue)) { throw 'vmconnect.exe not found in PATH.'; }\n$vmName = '";

pub const VM_SCRIPT_PATH: &'static str = "'\n$vmPath = '";

pub const VM_SCRIPT_VHD: &'static str = "'\n$vhdPath = '";

/// Rest of the script: create the generation 2 VM with 2 GB or point its
/// first disk at the VHDX, start it, and open a console on it.
pub const VM_SCRIPT_TAIL: &'static str = "'\nif (-not (Test-Path -Path $vmPath)) { New-Item -ItemType Directory -Path $vmPath | Out-Null }\n$vm = Get-VM -Name $vmName -ErrorAction SilentlyContinue\nif (-not $vm) {\n    $vm = New-VM -Name $vmName -Generation 2 -MemoryStartupBytes 2GB -VHDPath $vhdPath -Path $vmPath\n} else {\n    $drive = Get-VMHardDiskDrive -VMName $vmName -ErrorAction SilentlyContinue | Select-Object -First 1\n    if ($drive) {\n        Set-VMHardDiskDrive -VMHardDiskDrive $drive -Path $vhdPath | Out-Null\n    } else {\n        Add-VMHardDiskDrive -VMName $vmName -Path $vhdPath | Out-Null\n    }\n}\nif ($vm.State -ne 'Running') {\n    Start-VM -Name $vmName | Out-Null\n}\nStart-Process vmconnect.exe -ArgumentList 'localhost', $vmName | Out-Null\n";

/// The script that starts (creating it if needed) the VM of a disk, with
/// the three values quoted for PowerShell.
pub fn start_vm_script(vm_name: &str, vm_path: &str, vhd_path: &str) -> (r: String)
    ensures
        r@ == VM_SCRIPT_HEAD@ + ps_escape_spec(vm_name@) + VM_SCRIPT_PATH@ + ps_escape_spec(
            vm_path@,
        ) + VM_SCRIPT_VHD@ + ps_escape_spec(vhd_path@) + VM_SCRIPT_TAIL@,
{
    let mut v: Vec<char> = Vec::new();
    append_str(&mut v, VM_SCRIPT_HEAD);
    let a = chars_of(vm_name);
    append_chars(&mut v, ps_escape_chars(a.as_slice()).as_slice());
    append_str(&mut v, VM_SCRIPT_PATH);
    let b = chars_of(vm_path);
    append_chars(&mut v, ps_escape_chars(b.as_slice()).as_slice());
    append_str(&mut v, VM_SCRIPT_VHD);
    let c = chars_of(vhd_path);
    append_chars(&mut v, ps_escape_chars(c.as_slice()).as_slice());
    append_str(&mut v, VM_SCRIPT_TAIL);
    string_from_chars(v.as_slice())
}

/// The PowerShell arguments that run the VM script.
pub fn start_vm_args(script: &str) -> (r: Vec<String>)
    ensures
        r@.map_values(|s: String| s@) == seq![
            "-NoLogo"@,
            "-NoProfile"@,
            "-NonInteractive"@,
            "-Command"@,
            script@,
        ],
{
    let mut r: Vec<String> = Vec::new();
    r.push("-NoLogo".to_owned());
    r.push("-NoProfile".to_owned());
    r.push("-NonInteractive".to_owned());
    r.push("-Command".to_owned());
    r.push(script.to_owned());
    proof {
        assert(r@.map_values(|s: String| s@) =~= seq![
            "-NoLogo"@,
            "-NoProfile"@,
            "-NonInteractive"@,
            "-Command"@,
            script@,
        ]);
    }
    r
}

} // verus!
