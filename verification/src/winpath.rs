//! Windows path arithmetic on text: the drive prefix and root, joining a
//! component, the parent directory, the file name, its stem and extension.
//! The model covers drive-letter paths (`E:\dir\file`), rooted paths
//! (`\dir`) and relative paths; both `\` and `/` separate components, `.`
//! components are skipped as `Path` skips them (all but a leading one of a
//! path without root), and a path that starts with two separators counts as
//! carrying its own prefix.
use vstd::prelude::*;
use crate::text::{
    append_chars, chars_of, copy_range, is_ascii_alpha, is_path_separator, string_from_chars,
    trim_end_class, trim_end_index, CharClass,
};

verus! {

/// Length of a drive prefix such as `E:`.
pub open spec fn drive_prefix_len(p: Seq<char>) -> int {
    if p.len() >= 2 && is_ascii_alpha(p[0]) && p[1] == ':' {
        2
    } else {
        0
    }
}

/// The path carries its own prefix: a drive letter, or a leading pair of
/// separators (UNC, verbatim and device paths).
pub open spec fn has_own_prefix(p: Seq<char>) -> bool {
    drive_prefix_len(p) == 2 || (p.len() >= 2 && is_path_separator(p[0]) && is_path_separator(
        p[1],
    ))
}

/// Length of the prefix together with the root separator that follows it.
pub open spec fn root_len(p: Seq<char>) -> int {
    let d = drive_prefix_len(p);
    if p.len() > d && is_path_separator(p[d]) {
        d + 1
    } else {
        d
    }
}

/// `base.join(rel)` as `PathBuf::push` does it on Windows.
pub open spec fn join_spec(base: Seq<char>, rel: Seq<char>) -> Seq<char> {
    if has_own_prefix(rel) {
        rel
    } else if rel.len() > 0 && is_path_separator(rel[0]) {
        base.take(drive_prefix_len(base)) + rel
    } else if base.len() == 0 || is_path_separator(base.last()) || (drive_prefix_len(base) == 2
        && base.len() == 2) {
        base + rel
    } else {
        base + seq!['\\'] + rel
    }
}

/// Index of the last separator.
pub open spec fn last_sep_index(s: Seq<char>) -> Option<int>
    decreases s.len(),
{
    if s.len() == 0 {
        None
    } else if is_path_separator(s.last()) {
        Some(s.len() - 1)
    } else {
        last_sep_index(s.drop_last())
    }
}

/// The part of the path after the root, without trailing separators.
pub open spec fn components_part(p: Seq<char>) -> Seq<char> {
    trim_end_class(p.skip(root_len(p)), CharClass::Separator)
}

/// A root separator follows the prefix.
pub open spec fn is_rooted(p: Seq<char>) -> bool {
    root_len(p) > drive_prefix_len(p)
}

/// Trimming never lengthens.
pub proof fn lemma_trim_end_len(s: Seq<char>, k: CharClass)
    ensures
        trim_end_class(s, k).len() <= s.len(),
    decreases s.len(),
{
    if s.len() > 0 && crate::text::in_class(k, s.last()) {
        lemma_trim_end_len(s.drop_last(), k);
    }
}

/// Trailing `.` components removed, with the separators before them, and a
/// lone leading `.` too when the path is rooted: `Path` skips every `.`
/// component but one that begins a path without root.
pub open spec fn drop_cur_dirs(s: Seq<char>, rooted: bool) -> Seq<char>
    decreases s.len(),
{
    if s.len() >= 2 && s.last() == '.' && is_path_separator(s[s.len() - 2]) {
        proof {
            lemma_trim_end_len(s.drop_last(), CharClass::Separator);
        }
        drop_cur_dirs(trim_end_class(s.drop_last(), CharClass::Separator), rooted)
    } else if rooted && s.len() == 1 && s[0] == '.' {
        seq![]
    } else {
        s
    }
}

/// The components after the root, as `Path::components` keeps them, joined
/// by the separators between them: trailing separators and the `.`
/// components that `Path` skips at the end removed.
pub open spec fn body(p: Seq<char>) -> Seq<char> {
    drop_cur_dirs(components_part(p), is_rooted(p))
}

/// `Path::parent`: the path without its last component (and without the
/// skipped `.` components and separators left before it), or `None` when
/// nothing but a prefix and root is left.
pub open spec fn parent_spec(p: Seq<char>) -> Option<Seq<char>> {
    let r = root_len(p);
    let b = body(p);
    if b.len() == 0 {
        None
    } else {
        match last_sep_index(b) {
            None => Some(p.take(r)),
            Some(i) => Some(
                p.take(r) + drop_cur_dirs(
                    trim_end_class(b.take(i), CharClass::Separator),
                    is_rooted(p),
                ),
            ),
        }
    }
}

/// The last component of the path's body, whatever it is.
pub open spec fn last_component(b: Seq<char>) -> Seq<char> {
    match last_sep_index(b) {
        None => b,
        Some(i) => b.skip(i + 1),
    }
}

/// `Path::file_name`: the last component, unless there is none or it is
/// `.` or `..`.
pub open spec fn file_name_spec(p: Seq<char>) -> Option<Seq<char>> {
    let b = body(p);
    let last = last_component(b);
    if b.len() == 0 || last == seq!['.'] || last == seq!['.', '.'] {
        None
    } else {
        Some(last)
    }
}

/// Index of the last `.`.
pub open spec fn last_dot_index(s: Seq<char>) -> Option<int>
    decreases s.len(),
{
    if s.len() == 0 {
        None
    } else if s.last() == '.' {
        Some(s.len() - 1)
    } else {
        last_dot_index(s.drop_last())
    }
}

/// `Path::file_stem` applied to a file name: the name before its last dot,
/// unless the only dot starts the name.
pub open spec fn stem_of_name(name: Seq<char>) -> Seq<char> {
    match last_dot_index(name) {
        Some(d) => if d == 0 {
            name
        } else {
            name.take(d)
        },
        None => name,
    }
}

/// `Path::extension` applied to a file name.
pub open spec fn extension_of_name(name: Seq<char>) -> Option<Seq<char>> {
    match last_dot_index(name) {
        Some(d) => if d == 0 {
            None
        } else {
            Some(name.skip(d + 1))
        },
        None => None,
    }
}

pub fn drive_prefix_length(v: &Vec<char>) -> (d: usize)
    ensures
        d == drive_prefix_len(v@),
{
    if v.len() >= 2 && (('a' <= v[0] && v[0] <= 'z') || ('A' <= v[0] && v[0] <= 'Z')) && v[1]
        == ':' {
        2
    } else {
        0
    }
}

pub fn root_length(v: &Vec<char>) -> (r: usize)
    ensures
        r == root_len(v@),
        r <= v.len(),
{
    let d = drive_prefix_length(v);
    if v.len() > d && (v[d] == '\\' || v[d] == '/') {
        d + 1
    } else {
        d
    }
}

proof fn lemma_last_sep_none(s: Seq<char>)
    requires
        forall|t: int| 0 <= t < s.len() ==> !is_path_separator(#[trigger] s[t]),
    ensures
        last_sep_index(s) == None::<int>,
    decreases s.len(),
{
    if s.len() > 0 {
        assert(!is_path_separator(s[s.len() - 1]));
        lemma_last_sep_none(s.drop_last());
    }
}

proof fn lemma_last_sep_some(s: Seq<char>, i: int)
    requires
        0 <= i < s.len(),
        is_path_separator(s[i]),
        forall|t: int| i < t < s.len() ==> !is_path_separator(#[trigger] s[t]),
    ensures
        last_sep_index(s) == Some(i),
    decreases s.len(),
{
    if i < s.len() - 1 {
        assert(!is_path_separator(s[s.len() - 1]));
        lemma_last_sep_some(s.drop_last(), i);
    }
}

/// Index (within `v`) of the last separator in `v[a..b]`.
fn last_separator_in(v: &Vec<char>, a: usize, b: usize) -> (r: Option<usize>)
    requires
        a <= b <= v.len(),
    ensures
        match r {
            Some(i) => a <= i < b && last_sep_index(v@.subrange(a as int, b as int)) == Some(
                i - a,
            ),
            None => last_sep_index(v@.subrange(a as int, b as int)) == None::<int>,
        },
{
    let ghost s = v@.subrange(a as int, b as int);
    let mut j = b;
    while j > a
        invariant
            a <= j <= b <= v.len(),
            s == v@.subrange(a as int, b as int),
            forall|t: int| j - a <= t < s.len() ==> !is_path_separator(#[trigger] s[t]),
        decreases j - a,
    {
        if v[j - 1] == '\\' || v[j - 1] == '/' {
            proof {
                assert(s[j - 1 - a] == v@[j - 1]);
                lemma_last_sep_some(s, j - 1 - a);
            }
            return Some(j - 1);
        }
        proof {
            assert(s[j - 1 - a] == v@[j - 1]);
        }
        j = j - 1;
    }
    proof {
        lemma_last_sep_none(s);
    }
    None
}

/// Joins a component onto a directory path.
pub fn join(base: &str, rel: &str) -> (r: String)
    ensures
        r@ == join_spec(base@, rel@),
{
    let b = chars_of(base);
    let c = chars_of(rel);
    let out = join_chars(&b, &c);
    string_from_chars(out.as_slice())
}

pub fn join_chars(b: &Vec<char>, c: &Vec<char>) -> (out: Vec<char>)
    ensures
        out@ == join_spec(b@, c@),
{
    let cd = drive_prefix_length(c);
    if cd == 2 || (c.len() >= 2 && (c[0] == '\\' || c[0] == '/') && (c[1] == '\\' || c[1]
        == '/')) {
        return copy_range(c, 0, c.len());
    }
    let bd = drive_prefix_length(b);
    let mut out: Vec<char>;
    if c.len() > 0 && (c[0] == '\\' || c[0] == '/') {
        out = copy_range(b, 0, bd);
    } else {
        out = copy_range(b, 0, b.len());
        if !(b.len() == 0 || b[b.len() - 1] == '\\' || b[b.len() - 1] == '/' || (bd == 2 && b.len()
            == 2)) {
            out.push('\\');
        }
    }
    proof {
        assert(b@.subrange(0, b.len() as int) =~= b@);
        assert(c@.subrange(0, c.len() as int) =~= c@);
    }
    append_chars(&mut out, c.as_slice());
    out
}

/// The parent directory of a path.
pub fn parent(p: &str) -> (r: Option<String>)
    ensures
        match r {
            Some(s) => parent_spec(p@) == Some(s@),
            None => parent_spec(p@) == None::<Seq<char>>,
        },
{
    let v = chars_of(p);
    match parent_chars(&v) {
        Some(w) => Some(string_from_chars(w.as_slice())),
        None => None,
    }
}

/// End (within `v`) of `drop_cur_dirs` applied to `v[r..e]`.
fn drop_cur_dirs_end(v: &Vec<char>, r: usize, e: usize, rooted: bool) -> (e2: usize)
    requires
        r <= e <= v.len(),
    ensures
        r <= e2 <= e,
        v@.subrange(r as int, e2 as int) == drop_cur_dirs(v@.subrange(r as int, e as int), rooted),
{
    let mut j = e;
    while j - r >= 2 && v[j - 1] == '.' && (v[j - 2] == '\\' || v[j - 2] == '/')
        invariant
            r <= j <= e <= v.len(),
            drop_cur_dirs(v@.subrange(r as int, e as int), rooted) == drop_cur_dirs(
                v@.subrange(r as int, j as int),
                rooted,
            ),
        decreases j,
    {
        let j2 = trim_end_index(v, r, j - 1, CharClass::Separator);
        proof {
            let w = v@.subrange(r as int, j as int);
            assert(w.last() == v@[j - 1]);
            assert(w[w.len() - 2] == v@[j - 2]);
            assert(w.drop_last() =~= v@.subrange(r as int, j - 1));
        }
        j = j2;
    }
    if rooted && j - r == 1 && v[r] == '.' {
        proof {
            let w = v@.subrange(r as int, j as int);
            assert(w[0] == v@[r as int]);
            assert(v@.subrange(r as int, r as int) =~= Seq::<char>::empty());
        }
        r
    } else {
        proof {
            let w = v@.subrange(r as int, j as int);
            if w.len() >= 2 {
                assert(w.last() == v@[j - 1]);
                assert(w[w.len() - 2] == v@[j - 2]);
            }
            if w.len() == 1 {
                assert(w[0] == v@[r as int]);
            }
        }
        j
    }
}

/// The start and end (within `v`) of the path's body.
fn body_range(v: &Vec<char>) -> (se: (usize, usize))
    ensures
        se.0 == root_len(v@),
        se.0 <= se.1 <= v.len(),
        v@.subrange(se.0 as int, se.1 as int) == body(v@),
{
    let r = root_length(v);
    let d = drive_prefix_length(v);
    let e0 = trim_end_index(v, r, v.len(), CharClass::Separator);
    proof {
        assert(v@.skip(r as int) =~= v@.subrange(r as int, v.len() as int));
    }
    let e = drop_cur_dirs_end(v, r, e0, r > d);
    (r, e)
}

pub fn parent_chars(v: &Vec<char>) -> (r: Option<Vec<char>>)
    ensures
        match r {
            Some(w) => parent_spec(v@) == Some(w@),
            None => parent_spec(v@) == None::<Seq<char>>,
        },
{
    let (r, e) = body_range(v);
    let rooted = r > drive_prefix_length(v);
    let ghost b = body(v@);
    if e == r {
        return None;
    }
    match last_separator_in(v, r, e) {
        None => {
            let w = copy_range(v, 0, r);
            Some(w)
        },
        Some(i) => {
            let j0 = trim_end_index(v, r, i, CharClass::Separator);
            let j = drop_cur_dirs_end(v, r, j0, rooted);
            let w = copy_range(v, 0, j);
            proof {
                assert(b.take(i - r) =~= v@.subrange(r as int, i as int));
                assert(v@.subrange(0, j as int) =~= v@.take(r as int) + v@.subrange(
                    r as int,
                    j as int,
                ));
            }
            Some(w)
        },
    }
}

/// The last component of a path.
pub fn file_name_chars(v: &Vec<char>) -> (r: Option<Vec<char>>)
    ensures
        match r {
            Some(w) => file_name_spec(v@) == Some(w@),
            None => file_name_spec(v@) == None::<Seq<char>>,
        },
{
    let (r, e) = body_range(v);
    let ghost b = body(v@);
    if e == r {
        return None;
    }
    let start = match last_separator_in(v, r, e) {
        None => r,
        Some(i) => i + 1,
    };
    let w = copy_range(v, start, e);
    proof {
        assert(last_component(b) =~= w@);
    }
    if (w.len() == 1 && w[0] == '.') || (w.len() == 2 && w[0] == '.' && w[1] == '.') {
        proof {
            if w.len() == 1 {
                assert(w@ =~= seq!['.']);
            } else {
                assert(w@ =~= seq!['.', '.']);
            }
        }
        None
    } else {
        proof {
            if w@ == seq!['.'] {
                assert(w@[0] == '.');
            }
            if w@ == seq!['.', '.'] {
                assert(w@[0] == '.' && w@[1] == '.');
            }
        }
        Some(w)
    }
}

proof fn lemma_last_dot_none(s: Seq<char>)
    requires
        forall|t: int| 0 <= t < s.len() ==> #[trigger] s[t] != '.',
    ensures
        last_dot_index(s) == None::<int>,
    decreases s.len(),
{
    if s.len() > 0 {
        assert(s[s.len() - 1] != '.');
        lemma_last_dot_none(s.drop_last());
    }
}

proof fn lemma_last_dot_some(s: Seq<char>, i: int)
    requires
        0 <= i < s.len(),
        s[i] == '.',
        forall|t: int| i < t < s.len() ==> #[trigger] s[t] != '.',
    ensures
        last_dot_index(s) == Some(i),
    decreases s.len(),
{
    if i < s.len() - 1 {
        assert(s[s.len() - 1] != '.');
        lemma_last_dot_some(s.drop_last(), i);
    }
}

/// The file name of a plain name (no separator, not ending in `.`, not
/// starting like a drive) put after a folder that is empty, a bare drive
/// `X:`, or ends in a separator, is that name.
pub proof fn lemma_file_name_of_appended(q: Seq<char>, name: Seq<char>)
    requires
        q.len() == 0 || is_path_separator(q.last()) || (q.len() == 2 && drive_prefix_len(q) == 2),
        name.len() >= 3,
        !is_ascii_alpha(name[0]),
        name.last() != '.',
        forall|i: int| 0 <= i < name.len() ==> !is_path_separator(#[trigger] name[i]),
    ensures
        file_name_spec(q + name) == Some(name),
{
    let p = q + name;
    assert(p[q.len() as int] == name[0]);
    if q.len() >= 1 {
        assert(p[0] == q[0]);
    }
    if q.len() >= 2 {
        assert(p[1] == q[1]);
    } else if q.len() == 1 {
        assert(p[1] == name[0]);
    } else {
        assert(p[1] == name[1]);
    }
    if q.len() >= 3 {
        assert(p[2] == q[2]);
    }
    let r = root_len(p);
    assert(r <= q.len()) by {
        if q.len() >= 1 && is_path_separator(q.last()) {
            assert(p[q.len() - 1] == q.last());
        }
    }
    let qs = q.skip(r);
    let t = p.skip(r);
    assert(t =~= qs + name);
    assert(t.last() == name.last());
    assert(trim_end_class(t, CharClass::Separator) == t);
    assert(components_part(p) == t);
    assert(t.len() >= 2);
    assert(drop_cur_dirs(t, is_rooted(p)) == t);
    assert(body(p) == t);
    if qs.len() == 0 {
        assert(t =~= name);
        lemma_last_sep_none(name);
        assert(last_component(t) == name);
    } else {
        assert(qs.last() == q.last());
        assert(is_path_separator(q.last())) by {
            if !is_path_separator(q.last()) {
                assert(q.len() == 2 && drive_prefix_len(q) == 2);
                assert(drive_prefix_len(p) == 2);
            }
        }
        assert(t[qs.len() - 1] == qs.last());
        assert forall|j: int| qs.len() - 1 < j < t.len() implies !is_path_separator(#[trigger] t[j]) by {
            assert(t[j] == name[j - qs.len()]);
        }
        lemma_last_sep_some(t, qs.len() - 1);
        assert(t.skip(qs.len() as int) =~= name);
    }
    assert(name != seq!['.']);
    assert(name != seq!['.', '.']);
}

/// The stem of `<base>.<ext>`, when the extension holds no dot and the base
/// is not empty, is the base.
pub proof fn lemma_stem_before_extension(base: Seq<char>, ext: Seq<char>)
    requires
        base.len() > 0,
        forall|i: int| 0 <= i < ext.len() ==> #[trigger] ext[i] != '.',
    ensures
        stem_of_name(base + seq!['.'] + ext) == base,
{
    let n = base + seq!['.'] + ext;
    assert(n[base.len() as int] == '.');
    assert forall|t: int| base.len() < t < n.len() implies #[trigger] n[t] != '.' by {
        assert(n[t] == ext[t - base.len() - 1]);
    }
    lemma_last_dot_some(n, base.len() as int);
    assert(n.take(base.len() as int) =~= base);
}

/// Index of the last `.` in a file name.
pub fn last_dot(name: &Vec<char>) -> (r: Option<usize>)
    ensures
        match r {
            Some(d) => d < name.len() && last_dot_index(name@) == Some(d as int),
            None => last_dot_index(name@) == None::<int>,
        },
{
    let mut j = name.len();
    while j > 0
        invariant
            j <= name.len(),
            forall|t: int| j <= t < name.len() ==> #[trigger] name@[t] != '.',
        decreases j,
    {
        if name[j - 1] == '.' {
            proof {
                lemma_last_dot_some(name@, j - 1);
            }
            return Some(j - 1);
        }
        j = j - 1;
    }
    proof {
        lemma_last_dot_none(name@);
    }
    None
}

/// The stem of a file name.
pub fn stem_chars(name: &Vec<char>) -> (r: Vec<char>)
    ensures
        r@ == stem_of_name(name@),
{
    match last_dot(name) {
        Some(d) => if d == 0 {
            copy_range(name, 0, name.len())
        } else {
            copy_range(name, 0, d)
        },
        None => copy_range(name, 0, name.len()),
    }
}

/// The extension of a file name.
pub fn extension_chars(name: &Vec<char>) -> (r: Option<Vec<char>>)
    ensures
        match r {
            Some(w) => extension_of_name(name@) == Some(w@),
            None => extension_of_name(name@) == None::<Seq<char>>,
        },
{
    match last_dot(name) {
        Some(d) => if d == 0 {
            None
        } else {
            Some(copy_range(name, d + 1, name.len()))
        },
        None => None,
    }
}

} // verus!
