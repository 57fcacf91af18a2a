//! The parent locator of a differencing VHDX: its entries are read from the
//! UTF-16 text near the start of the file, cleaned of the binary noise
//! around them, and resolved to the parent disk's path.
use vstd::prelude::*;
use crate::text::{
    append_chars, chars_of, copy_range, find_occurrence, first_occurrence, has_prefix,
    lemma_first_occurrence_at_or_after, occurs_at, opt_view,
    replace_char, replace_chars, string_from_chars, trim_class, trim_end_index, trim_start_class,
    trim_start_index, CharClass,
};
use crate::winpath::{join_chars, join_spec, parent_chars, parent_spec};

verus! {

/// `char::from_u32` gives the character with that scalar value, if it is
/// one (not a surrogate, at most U+10FFFF).
pub assume_specification[ char::from_u32 ](i: u32) -> (r: Option<char>)
    ensures
        r == (if i <= 0xd7ff || (0xe000 <= i && i <= 0x10ffff) {
            Some(i as char)
        } else {
            None::<char>
        }),
;

/// Whether a file or folder exists at the path. `Path::exists`; the answer
/// depends on the disk, so nothing is stated of it.
#[verifier::external_body]
fn path_exists(path: &str) -> bool {
    std::path::Path::new(path).exists()
}

/// The keys of the parent locator entries, each followed by its value.
pub open spec fn locator_keys() -> Seq<Seq<char>> {
    seq![
        "absolute_win32_path"@,
        "relative_path"@,
        "volume_path"@,
        "parent_linkage2"@,
        "parent_linkage"@,
    ]
}

/// The entries of a parent locator that point at the parent disk.
pub struct ParentLocator {
    pub absolute_win32_path: Option<String>,
    pub relative_path: Option<String>,
    pub volume_path: Option<String>,
}

/// Earliest occurrence at or after `from` of any of the keys.
pub open spec fn earliest_key(s: Seq<char>, keys: Seq<Seq<char>>, from: int) -> Option<int>
    decreases keys.len(),
{
    if keys.len() == 0 {
        None
    } else {
        let prev = earliest_key(s, keys.drop_last(), from);
        match first_occurrence(s, keys.last(), from) {
            None => prev,
            Some(i) => match prev {
                Some(j) => if j <= i {
                    Some(j)
                } else {
                    Some(i)
                },
                None => Some(i),
            },
        }
    }
}

/// A locator value with the noise around it removed: control characters
/// and whitespace trimmed, everything before the first `.`, `\` or ASCII
/// letter dropped, trimmed again, and `/` turned into `\`; nothing if empty.
pub open spec fn sanitize_spec(raw: Seq<char>) -> Option<Seq<char>> {
    let t = trim_class(raw, CharClass::ControlOrWhitespace);
    let p = trim_start_class(t, CharClass::NotPathStart);
    let q = trim_class(p, CharClass::ControlOrWhitespace);
    if q.len() == 0 {
        None
    } else {
        Some(replace_char(q, '/', '\\'))
    }
}

/// The value after the first occurrence of `key`, up to the next locator
/// key (or the end), with NULs trimmed and then sanitised.
pub open spec fn extract_spec(text: Seq<char>, key: Seq<char>) -> Option<Seq<char>> {
    match first_occurrence(text, key, 0) {
        None => None,
        Some(p) => {
            let start = p + key.len();
            let end = match earliest_key(text, locator_keys(), start) {
                Some(e) => e,
                None => text.len() as int,
            };
            sanitize_spec(trim_class(text.subrange(start, end), CharClass::Exactly('\0')))
        },
    }
}

pub open spec fn locator_spec(text: Seq<char>) -> (
    Option<Seq<char>>,
    Option<Seq<char>>,
    Option<Seq<char>>,
) {
    (
        extract_spec(text, "absolute_win32_path"@),
        extract_spec(text, "relative_path"@),
        extract_spec(text, "volume_path"@),
    )
}

impl ParentLocator {
    /// The texts of the three entries.
    pub open spec fn entries(&self) -> (Option<Seq<char>>, Option<Seq<char>>, Option<Seq<char>>) {
        (opt_view(self.absolute_win32_path), opt_view(self.relative_path), opt_view(self.volume_path))
    }
}

/// A relative locator resolved against the child's folder, with a leading
/// `.\` or `./` dropped.
pub open spec fn relative_parent_spec(child: Seq<char>, rel: Seq<char>) -> Option<Seq<char>> {
    match parent_spec(child) {
        None => None,
        Some(base) => {
            let r = if has_prefix(rel, seq!['.', '\\']) || has_prefix(rel, seq!['.', '/']) {
                rel.skip(2)
            } else {
                rel
            };
            Some(join_spec(base, r))
        },
    }
}

/// The places where the parent may be, in order of preference: the relative
/// entry resolved against the child's folder, the absolute entry, the
/// volume entry.
pub open spec fn candidates_spec(
    entries: (Option<Seq<char>>, Option<Seq<char>>, Option<Seq<char>>),
    child: Seq<char>,
) -> Seq<Seq<char>> {
    let rel = match entries.1 {
        Some(r) => match relative_parent_spec(child, r) {
            Some(x) => seq![x],
            None => seq![],
        },
        None => seq![],
    };
    let abs = match entries.0 {
        Some(a) => seq![a],
        None => seq![],
    };
    let vol = match entries.2 {
        Some(v) => seq![v],
        None => seq![],
    };
    rel + abs + vol
}

/// The first candidate that exists, else the first candidate.
pub open spec fn pick_spec(cands: Seq<Seq<char>>, flags: Seq<bool>) -> Option<Seq<char>>
    decreases cands.len(),
{
    if cands.len() == 0 {
        None
    } else {
        pick_existing_or(cands, flags, 0)
    }
}

/// The first candidate at or after `i` that exists, else the first one.
pub open spec fn pick_existing_or(cands: Seq<Seq<char>>, flags: Seq<bool>, i: int) -> Option<
    Seq<char>,
>
    decreases cands.len() - i,
{
    if i < 0 || i >= cands.len() {
        if cands.len() > 0 {
            Some(cands[0])
        } else {
            None
        }
    } else if i < flags.len() && flags[i] {
        Some(cands[i])
    } else {
        pick_existing_or(cands, flags, i + 1)
    }
}

fn locator_key_chars() -> (r: Vec<Vec<char>>)
    ensures
        r@.map_values(|k: Vec<char>| k@) == locator_keys(),
{
    let mut r: Vec<Vec<char>> = Vec::new();
    r.push(chars_of("absolute_win32_path"));
    r.push(chars_of("relative_path"));
    r.push(chars_of("volume_path"));
    r.push(chars_of("parent_linkage2"));
    r.push(chars_of("parent_linkage"));
    proof {
        assert(r@.map_values(|k: Vec<char>| k@) =~= locator_keys());
    }
    r
}

/// Earliest occurrence at or after `from` of any locator key.
fn earliest_locator_key(v: &Vec<char>, from: usize) -> (r: Option<usize>)
    ensures
        match r {
            Some(e) => earliest_key(v@, locator_keys(), from as int) == Some(e as int) && e
                <= v.len(),
            None => earliest_key(v@, locator_keys(), from as int) == None::<int>,
        },
{
    let keys = locator_key_chars();
    let ghost kv = keys@.map_values(|k: Vec<char>| k@);
    let mut best: Option<usize> = None;
    let mut n: usize = 0;
    while n < keys.len()
        invariant
            n <= keys.len(),
            kv == keys@.map_values(|k: Vec<char>| k@),
            kv == locator_keys(),
            match best {
                Some(e) => earliest_key(v@, kv.take(n as int), from as int) == Some(e as int) && e
                    <= v.len(),
                None => earliest_key(v@, kv.take(n as int), from as int) == None::<int>,
            },
        decreases keys.len() - n,
    {
        proof {
            assert(kv.take(n + 1).drop_last() =~= kv.take(n as int));
            assert(kv.take(n + 1).last() == keys@[n as int]@);
        }
        let found = find_occurrence(v, &keys[n], from);
        match found {
            Some(i) => {
                match best {
                    Some(e) => {
                        if i < e {
                            best = Some(i);
                        }
                    },
                    None => {
                        best = Some(i);
                    },
                }
            },
            None => {},
        }
        n = n + 1;
    }
    proof {
        assert(kv.take(keys.len() as int) =~= kv);
    }
    best
}

fn sanitize_chars(v: &Vec<char>, a: usize, b: usize) -> (r: Option<Vec<char>>)
    requires
        a <= b <= v.len(),
    ensures
        match r {
            Some(w) => sanitize_spec(v@.subrange(a as int, b as int)) == Some(w@),
            None => sanitize_spec(v@.subrange(a as int, b as int)) == None::<Seq<char>>,
        },
{
    let s1 = trim_start_index(v, a, b, CharClass::ControlOrWhitespace);
    let e1 = trim_end_index(v, s1, b, CharClass::ControlOrWhitespace);
    let s2 = trim_start_index(v, s1, e1, CharClass::NotPathStart);
    let s3 = trim_start_index(v, s2, e1, CharClass::ControlOrWhitespace);
    let e3 = trim_end_index(v, s3, e1, CharClass::ControlOrWhitespace);
    if s3 == e3 {
        return None;
    }
    let q = copy_range(v, s3, e3);
    Some(replace_chars(q.as_slice(), '/', '\\'))
}

/// Cleans a raw locator value.
pub fn sanitize_locator_value(raw: &str) -> (r: Option<String>)
    ensures
        opt_view(r) == sanitize_spec(raw@),
{
    let v = chars_of(raw);
    proof {
        assert(v@.subrange(0, v.len() as int) =~= v@);
    }
    match sanitize_chars(&v, 0, v.len()) {
        Some(w) => Some(string_from_chars(w.as_slice())),
        None => None,
    }
}

fn extract_chars(text: &Vec<char>, key: &Vec<char>) -> (r: Option<Vec<char>>)
    ensures
        match r {
            Some(w) => extract_spec(text@, key@) == Some(w@),
            None => extract_spec(text@, key@) == None::<Seq<char>>,
        },
{
    let p = match find_occurrence(text, key, 0) {
        Some(p) => p,
        None => return None,
    };
    let start = p + key.len();
    let end = match earliest_locator_key(text, start) {
        Some(e) => e,
        None => text.len(),
    };
    if end < start {
        proof {
            lemma_earliest_at_or_after(text@, locator_keys(), start as int);
        }
        return None;
    }
    let a = trim_start_index(text, start, end, CharClass::Exactly('\0'));
    let b = trim_end_index(text, a, end, CharClass::Exactly('\0'));
    proof {
        assert(text@.subrange(a as int, b as int) =~= text@.subrange(start as int, end as int).subrange(
            a - start,
            b - start,
        ));
    }
    sanitize_chars(text, a, b)
}

proof fn lemma_earliest_at_or_after(s: Seq<char>, keys: Seq<Seq<char>>, from: int)
    ensures
        earliest_key(s, keys, from) matches Some(i) ==> from <= i,
    decreases keys.len(),
{
    if keys.len() > 0 {
        lemma_earliest_at_or_after(s, keys.drop_last(), from);
        lemma_first_occurrence_at_or_after(s, keys.last(), from);
    }
}

/// The value of one locator entry.
pub fn extract_locator_value(text: &str, key: &str) -> (r: Option<String>)
    ensures
        opt_view(r) == extract_spec(text@, key@),
{
    let t = chars_of(text);
    let k = chars_of(key);
    match extract_chars(&t, &k) {
        Some(w) => Some(string_from_chars(w.as_slice())),
        None => None,
    }
}

fn parse_locator_chars(t: &Vec<char>) -> (l: ParentLocator)
    ensures
        l.entries() == locator_spec(t@),
{
    let a = chars_of("absolute_win32_path");
    let r = chars_of("relative_path");
    let v = chars_of("volume_path");
    let abs = match extract_chars(t, &a) {
        Some(w) => Some(string_from_chars(w.as_slice())),
        None => None,
    };
    let rel = match extract_chars(t, &r) {
        Some(w) => Some(string_from_chars(w.as_slice())),
        None => None,
    };
    let vol = match extract_chars(t, &v) {
        Some(w) => Some(string_from_chars(w.as_slice())),
        None => None,
    };
    ParentLocator { absolute_win32_path: abs, relative_path: rel, volume_path: vol }
}

/// Reads the three entries of a parent locator out of its text.
pub fn parse_parent_locator(text: &str) -> (l: ParentLocator)
    ensures
        l.entries() == locator_spec(text@),
{
    let t = chars_of(text);
    parse_locator_chars(&t)
}

fn relative_parent_chars(child: &Vec<char>, rel: &Vec<char>) -> (r: Option<Vec<char>>)
    ensures
        match r {
            Some(w) => relative_parent_spec(child@, rel@) == Some(w@),
            None => relative_parent_spec(child@, rel@) == None::<Seq<char>>,
        },
{
    let base = match parent_chars(child) {
        Some(b) => b,
        None => return None,
    };
    let dot_prefix = rel.len() >= 2 && rel[0] == '.' && (rel[1] == '\\' || rel[1] == '/');
    proof {
        if rel.len() >= 2 {
            assert(rel@.subrange(0, 2)[0] == rel@[0]);
            assert(rel@.subrange(0, 2)[1] == rel@[1]);
            if dot_prefix {
                if rel@[1] == '\\' {
                    assert(rel@.subrange(0, 2) =~= seq!['.', '\\']);
                } else {
                    assert(rel@.subrange(0, 2) =~= seq!['.', '/']);
                }
            }
        }
    }
    let r = if dot_prefix {
        copy_range(rel, 2, rel.len())
    } else {
        copy_range(rel, 0, rel.len())
    };
    proof {
        assert(rel@.skip(2) =~= rel@.subrange(2, rel.len() as int));
        assert(rel@.subrange(0, rel.len() as int) =~= rel@);
    }
    Some(join_chars(&base, &r))
}

/// A relative locator resolved against the folder of the child disk.
pub fn resolve_relative_parent(child_path: &str, relative_path: &str) -> (r: Option<String>)
    ensures
        opt_view(r) == relative_parent_spec(child_path@, relative_path@),
{
    let c = chars_of(child_path);
    let rel = chars_of(relative_path);
    match relative_parent_chars(&c, &rel) {
        Some(w) => Some(string_from_chars(w.as_slice())),
        None => None,
    }
}

/// The first candidate that exists, else the first candidate.
pub fn pick_existing(cands: &Vec<String>, flags: &Vec<bool>) -> (r: Option<String>)
    ensures
        opt_view(r) == pick_spec(cands@.map_values(|s: String| s@), flags@),
{
    let ghost cv = cands@.map_values(|s: String| s@);
    if cands.len() == 0 {
        return None;
    }
    let mut i: usize = 0;
    while i < cands.len()
        invariant
            cv == cands@.map_values(|s: String| s@),
            0 < cands.len(),
            i <= cands.len(),
            pick_spec(cv, flags@) == pick_existing_or(cv, flags@, i as int),
        decreases cands.len() - i,
    {
        if i < flags.len() && flags[i] {
            return Some(cands[i].clone());
        }
        i = i + 1;
    }
    Some(cands[0].clone())
}

impl ParentLocator {
    /// Where the parent may be, in order of preference.
    pub fn candidates(&self, child_path: &str) -> (r: Vec<String>)
        ensures
            r@.map_values(|s: String| s@) == candidates_spec(self.entries(), child_path@),
    {
        let mut r: Vec<String> = Vec::new();
        match &self.relative_path {
            Some(rel) => match resolve_relative_parent(child_path, rel.as_str()) {
                Some(x) => r.push(x),
                None => {},
            },
            None => {},
        }
        match &self.absolute_win32_path {
            Some(a) => r.push(a.clone()),
            None => {},
        }
        match &self.volume_path {
            Some(v) => r.push(v.clone()),
            None => {},
        }
        proof {
            assert(r@.map_values(|s: String| s@) =~= candidates_spec(self.entries(), child_path@));
        }
        r
    }

    /// The parent's path: the first candidate that exists on disk, else the
    /// first candidate, else nothing. Which candidates exist is up to the
    /// disk; whatever it answers, the result is the pick among them.
    pub fn resolve(&self, child_path: &str) -> (r: Option<String>)
        ensures
            exists|flags: Seq<bool>| opt_view(r) == pick_spec(
                candidates_spec(self.entries(), child_path@),
                flags,
            ),
            r is None <==> candidates_spec(self.entries(), child_path@).len() == 0,
            r matches Some(p) ==> candidates_spec(self.entries(), child_path@).contains(p@),
    {
        let cands = self.candidates(child_path);
        let ghost cv = cands@.map_values(|s: String| s@);
        let mut flags: Vec<bool> = Vec::new();
        let mut i: usize = 0;
        while i < cands.len()
            invariant
                i <= cands.len(),
                flags.len() == i,
            decreases cands.len() - i,
        {
            flags.push(path_exists(cands[i].as_str()));
            i = i + 1;
        }
        let r = pick_existing(&cands, &flags);
        proof {
            lemma_pick_in(cv, flags@, 0);
        }
        r
    }
}

/// A relative entry that resolves against the child's folder to a path
/// that exists is the parent, whatever the absolute and volume entries say.
pub proof fn law_existing_relative_parent_wins(
    entries: (Option<Seq<char>>, Option<Seq<char>>, Option<Seq<char>>),
    child: Seq<char>,
    flags: Seq<bool>,
)
    requires
        entries.1 is Some,
        relative_parent_spec(child, entries.1->0) is Some,
        flags.len() > 0,
        flags[0],
    ensures
        pick_spec(candidates_spec(entries, child), flags) == relative_parent_spec(
            child,
            entries.1->0,
        ),
{
}

/// Without a relative entry, an absolute entry that exists is the parent.
pub proof fn law_absolute_parent_without_relative(
    entries: (Option<Seq<char>>, Option<Seq<char>>, Option<Seq<char>>),
    child: Seq<char>,
    flags: Seq<bool>,
)
    requires
        entries.1 is None,
        entries.0 is Some,
        flags.len() > 0,
        flags[0],
    ensures
        pick_spec(candidates_spec(entries, child), flags) == entries.0,
{
    assert(candidates_spec(entries, child)[0] == entries.0->0);
}

/// When no candidate exists on disk, the first one is still reported: the
/// resolved relative entry if there is one.
pub proof fn law_first_candidate_when_none_exists(
    entries: (Option<Seq<char>>, Option<Seq<char>>, Option<Seq<char>>),
    child: Seq<char>,
)
    requires
        candidates_spec(entries, child).len() > 0,
    ensures
        pick_spec(candidates_spec(entries, child), Seq::new(3, |i: int| false)) == Some(
            candidates_spec(entries, child)[0],
        ),
{
    let c = candidates_spec(entries, child);
    let f = Seq::new(3, |i: int| false);
    lemma_pick_none_exist(c, f, 0);
}

proof fn lemma_pick_none_exist(cands: Seq<Seq<char>>, flags: Seq<bool>, i: int)
    requires
        0 <= i,
        cands.len() > 0,
        forall|k: int| 0 <= k < flags.len() ==> !flags[k],
    ensures
        pick_existing_or(cands, flags, i) == Some(cands[0]),
    decreases cands.len() - i,
{
    if i < cands.len() {
        lemma_pick_none_exist(cands, flags, i + 1);
    }
}

proof fn lemma_pick_in(cands: Seq<Seq<char>>, flags: Seq<bool>, i: int)
    requires
        0 <= i,
    ensures
        pick_existing_or(cands, flags, i) is None <==> cands.len() == 0,
        pick_existing_or(cands, flags, i) matches Some(p) ==> cands.contains(p),
    decreases cands.len() - i,
{
    if i >= cands.len() {
        if cands.len() > 0 {
            assert(cands[0] == cands[0]);
        }
    } else if i < flags.len() && flags[i] {
        assert(cands[i] == cands[i]);
    } else {
        lemma_pick_in(cands, flags, i + 1);
    }
}

/// UTF-16 code units read little-endian from byte pairs; an odd last byte
/// is dropped.
pub open spec fn units_le(bytes: Seq<u8>) -> Seq<u16> {
    Seq::new(
        (bytes.len() / 2) as nat,
        |i: int| (bytes[2 * i] as int + 256 * (bytes[2 * i + 1] as int)) as u16,
    )
}

/// `String::from_utf16_lossy`: surrogate pairs combined, each unpaired
/// surrogate replaced by U+FFFD.
pub open spec fn decode_utf16_lossy(units: Seq<u16>) -> Seq<char>
    decreases units.len(),
{
    if units.len() == 0 {
        seq![]
    } else {
        let u = units[0];
        if u < 0xd800 || u > 0xdfff {
            seq![(u as u32) as char] + decode_utf16_lossy(units.drop_first())
        } else if u <= 0xdbff && units.len() >= 2 && 0xdc00 <= units[1] && units[1] <= 0xdfff {
            seq![
                ((((u - 0xd800) as int) * 0x400 + ((units[1] - 0xdc00) as int) + 0x10000) as u32) as char,
            ] + decode_utf16_lossy(units.drop_first().drop_first())
        } else {
            seq!['\u{FFFD}'] + decode_utf16_lossy(units.drop_first())
        }
    }
}

fn unit_at(bytes: &[u8], i: usize) -> (u: u16)
    requires
        2 * i + 1 < bytes.len(),
    ensures
        u == (bytes@[2 * i] as int + 256 * (bytes@[2 * i + 1] as int)) as u16,
{
    (bytes[2 * i] as u16) + 256 * (bytes[2 * i + 1] as u16)
}

/// The text of a parent locator region: the bytes decoded as UTF-16LE.
pub fn decode_locator_text(bytes: &[u8]) -> (r: Vec<char>)
    ensures
        r@ == decode_utf16_lossy(units_le(bytes@)),
{
    let ghost units = units_le(bytes@);
    let n = bytes.len() / 2;
    let mut out: Vec<char> = Vec::new();
    let mut i: usize = 0;
    proof {
        assert(units.skip(0) =~= units);
        assert(out@ + decode_utf16_lossy(units) =~= decode_utf16_lossy(units));
    }
    while i < n
        invariant
            n == bytes.len() / 2,
            units == units_le(bytes@),
            units.len() == n,
            i <= n,
            out@ + decode_utf16_lossy(units.skip(i as int)) == decode_utf16_lossy(units),
        decreases n - i,
    {
        let u = unit_at(bytes, i);
        proof {
            assert(units[i as int] == u);
            assert(units.skip(i as int)[0] == u);
            assert(units.skip(i as int).drop_first() =~= units.skip(i + 1));
        }
        if u < 0xd800 || u > 0xdfff {
            let c = char::from_u32(u as u32).unwrap();
            out.push(c);
            proof {
                assert(out@ + decode_utf16_lossy(units.skip(i + 1)) =~= out@.drop_last() + (
                seq![c] + decode_utf16_lossy(units.skip(i + 1))));
            }
            i = i + 1;
        } else if u <= 0xdbff && i + 1 < n {
            let w = unit_at(bytes, i + 1);
            proof {
                assert(units[i + 1] == w);
                assert(units.skip(i as int)[1] == w);
                assert(units.skip(i as int).drop_first().drop_first() =~= units.skip(i + 2));
            }
            if 0xdc00 <= w && w <= 0xdfff {
                let v: u32 = ((u - 0xd800) as u32) * 0x400 + ((w - 0xdc00) as u32) + 0x10000;
                let c = char::from_u32(v).unwrap();
                out.push(c);
                proof {
                    assert(out@ + decode_utf16_lossy(units.skip(i + 2)) =~= out@.drop_last() + (
                    seq![c] + decode_utf16_lossy(units.skip(i + 2))));
                }
                i = i + 2;
            } else {
                out.push('\u{FFFD}');
                proof {
                    assert(out@ + decode_utf16_lossy(units.skip(i + 1)) =~= out@.drop_last() + (
                    seq!['\u{FFFD}'] + decode_utf16_lossy(units.skip(i + 1))));
                }
                i = i + 1;
            }
        } else {
            out.push('\u{FFFD}');
            proof {
                assert(out@ + decode_utf16_lossy(units.skip(i + 1)) =~= out@.drop_last() + (
                seq!['\u{FFFD}'] + decode_utf16_lossy(units.skip(i + 1))));
            }
            i = i + 1;
        }
    }
    proof {
        assert(units.skip(n as int) =~= Seq::<u16>::empty());
        assert(out@ + seq![] =~= out@);
    }
    out
}

/// The parent disk of a differencing VHDX, from the first bytes of its
/// file: the locator text is decoded, parsed and resolved.
pub fn inspect_vhd_parent_path(vhd_path: &str, header: &[u8]) -> (r: Option<String>)
    ensures
        exists|flags: Seq<bool>| opt_view(r) == pick_spec(
            candidates_spec(locator_spec(decode_utf16_lossy(units_le(header@))), vhd_path@),
            flags,
        ),
        r is None <==> candidates_spec(
            locator_spec(decode_utf16_lossy(units_le(header@))),
            vhd_path@,
        ).len() == 0,
{
    let text = decode_locator_text(header);
    let locator = parse_locator_chars(&text);
    locator.resolve(vhd_path)
}

} // verus!
