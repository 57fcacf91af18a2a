//! Character-level text operations on `Seq<char>` models: trimming by a
//! class of characters, ASCII case folding, searching, and the conversions
//! between `&str`, `String` and `Vec<char>`.
use vstd::prelude::*;

verus! {

/// `String::push` appends the character to the end of the string.
pub assume_specification[ String::push ](s: &mut String, ch: char)
    ensures
        final(s)@ == old(s)@.push(ch),
;

/// The Unicode `White_Space` property, which `char::is_whitespace` and
/// `str::trim` go by.
pub open spec fn is_unicode_whitespace(c: char) -> bool {
    let u = c as u32;
    ||| 0x09 <= u <= 0x0d
    ||| u == 0x20
    ||| u == 0x85
    ||| u == 0xa0
    ||| u == 0x1680
    ||| 0x2000 <= u <= 0x200a
    ||| u == 0x2028
    ||| u == 0x2029
    ||| u == 0x202f
    ||| u == 0x205f
    ||| u == 0x3000
}

/// The Unicode general category `Cc`, which `char::is_control` goes by.
pub open spec fn is_unicode_control(c: char) -> bool {
    let u = c as u32;
    u <= 0x1f || (0x7f <= u && u <= 0x9f)
}

pub open spec fn is_ascii_alpha(c: char) -> bool {
    ('a' <= c && c <= 'z') || ('A' <= c && c <= 'Z')
}

pub open spec fn is_ascii_digit(c: char) -> bool {
    '0' <= c && c <= '9'
}

pub open spec fn is_path_separator(c: char) -> bool {
    c == '\\' || c == '/'
}

/// The classes of characters that the trimming operations below remove.
#[derive(Clone, Copy)]
pub enum CharClass {
    Whitespace,
    ControlOrWhitespace,
    Exactly(char),
    Separator,
    /// Neither `.`, `\` nor an ASCII letter: what precedes a path inside
    /// noisy binary text.
    NotPathStart,
}

pub open spec fn in_class(k: CharClass, c: char) -> bool {
    match k {
        CharClass::Whitespace => is_unicode_whitespace(c),
        CharClass::ControlOrWhitespace => is_unicode_control(c) || is_unicode_whitespace(c),
        CharClass::Exactly(x) => c == x,
        CharClass::Separator => is_path_separator(c),
        CharClass::NotPathStart => !(c == '.' || c == '\\') && !is_ascii_alpha(c),
    }
}

pub fn is_whitespace(c: char) -> (b: bool)
    ensures
        b == is_unicode_whitespace(c),
{
    let u = c as u32;
    (0x09 <= u && u <= 0x0d) || u == 0x20 || u == 0x85 || u == 0xa0 || u == 0x1680 || (0x2000
        <= u && u <= 0x200a) || u == 0x2028 || u == 0x2029 || u == 0x202f || u == 0x205f || u
        == 0x3000
}

pub fn is_control(c: char) -> (b: bool)
    ensures
        b == is_unicode_control(c),
{
    let u = c as u32;
    u <= 0x1f || (0x7f <= u && u <= 0x9f)
}

pub fn char_in_class(k: CharClass, c: char) -> (b: bool)
    ensures
        b == in_class(k, c),
{
    match k {
        CharClass::Whitespace => is_whitespace(c),
        CharClass::ControlOrWhitespace => is_control(c) || is_whitespace(c),
        CharClass::Exactly(x) => c == x,
        CharClass::Separator => c == '\\' || c == '/',
        CharClass::NotPathStart => !(c == '.' || c == '\\') && !(('a' <= c && c <= 'z') || ('A'
            <= c && c <= 'Z')),
    }
}

/// What remains after removing every leading character of class `k`.
pub open spec fn trim_start_class(s: Seq<char>, k: CharClass) -> Seq<char>
    decreases s.len(),
{
    if s.len() > 0 && in_class(k, s[0]) {
        trim_start_class(s.drop_first(), k)
    } else {
        s
    }
}

/// What remains after removing every trailing character of class `k`.
pub open spec fn trim_end_class(s: Seq<char>, k: CharClass) -> Seq<char>
    decreases s.len(),
{
    if s.len() > 0 && in_class(k, s.last()) {
        trim_end_class(s.drop_last(), k)
    } else {
        s
    }
}

/// `str::trim_matches` with a character class: both ends trimmed.
pub open spec fn trim_class(s: Seq<char>, k: CharClass) -> Seq<char> {
    trim_end_class(trim_start_class(s, k), k)
}

/// `str::trim`.
pub open spec fn trim_ws(s: Seq<char>) -> Seq<char> {
    trim_class(s, CharClass::Whitespace)
}

pub open spec fn ascii_lower_char(c: char) -> char {
    if 'A' <= c && c <= 'Z' {
        ((c as u32) + 32) as char
    } else {
        c
    }
}

/// `str::to_ascii_lowercase`.
pub open spec fn ascii_lower(s: Seq<char>) -> Seq<char> {
    s.map_values(|c: char| ascii_lower_char(c))
}

/// Every `from` replaced by `to`.
pub open spec fn replace_char(s: Seq<char>, from: char, to: char) -> Seq<char> {
    s.map_values(|c: char| if c == from { to } else { c })
}

/// `key` occurs in `s` at index `i`.
pub open spec fn occurs_at(s: Seq<char>, key: Seq<char>, i: int) -> bool {
    0 <= i && i + key.len() <= s.len() && s.subrange(i, i + key.len()) == key
}

pub open spec fn has_prefix(s: Seq<char>, p: Seq<char>) -> bool {
    occurs_at(s, p, 0)
}

pub proof fn lemma_trim_start_step(s: Seq<char>, k: CharClass, i: int)
    requires
        0 <= i < s.len(),
        in_class(k, s[i]),
    ensures
        trim_start_class(s.subrange(i, s.len() as int), k) == trim_start_class(
            s.subrange(i + 1, s.len() as int),
            k,
        ),
{
    assert(s.subrange(i, s.len() as int).drop_first() =~= s.subrange(i + 1, s.len() as int));
}

pub proof fn lemma_trim_end_step(s: Seq<char>, k: CharClass, j: int)
    requires
        0 < j <= s.len(),
        in_class(k, s[j - 1]),
    ensures
        trim_end_class(s.subrange(0, j), k) == trim_end_class(s.subrange(0, j - 1), k),
{
    assert(s.subrange(0, j).drop_last() =~= s.subrange(0, j - 1));
}

/// Index of the first character in `v[start..end]` outside class `k`
/// (or `end`): `v[i..end]` is that window with its leading `k` removed.
pub fn trim_start_index(v: &Vec<char>, start: usize, end: usize, k: CharClass) -> (i: usize)
    requires
        start <= end <= v.len(),
    ensures
        start <= i <= end,
        v@.subrange(i as int, end as int) == trim_start_class(
            v@.subrange(start as int, end as int),
            k,
        ),
{
    let mut i = start;
    while i < end && char_in_class(k, v[i])
        invariant
            start <= i <= end <= v.len(),
            trim_start_class(v@.subrange(start as int, end as int), k) == trim_start_class(
                v@.subrange(i as int, end as int),
                k,
            ),
        decreases end - i,
    {
        proof {
            let w = v@.subrange(start as int, end as int);
            lemma_trim_start_step(v@.subrange(0, end as int), k, i as int);
            assert(v@.subrange(0, end as int).subrange(i as int, end as int) =~= v@.subrange(
                i as int,
                end as int,
            ));
            assert(v@.subrange(0, end as int).subrange(i + 1, end as int) =~= v@.subrange(
                i + 1,
                end as int,
            ));
        }
        i = i + 1;
    }
    i
}

/// Index just past the last character in `v[start..end]` outside class `k`
/// (or `start`): `v[start..j]` is that window with its trailing `k` removed.
pub fn trim_end_index(v: &Vec<char>, start: usize, end: usize, k: CharClass) -> (j: usize)
    requires
        start <= end <= v.len(),
    ensures
        start <= j <= end,
        v@.subrange(start as int, j as int) == trim_end_class(
            v@.subrange(start as int, end as int),
            k,
        ),
{
    let mut j = end;
    while j > start && char_in_class(k, v[j - 1])
        invariant
            start <= j <= end <= v.len(),
            trim_end_class(v@.subrange(start as int, end as int), k) == trim_end_class(
                v@.subrange(start as int, j as int),
                k,
            ),
        decreases j - start,
    {
        proof {
            let w = v@.subrange(start as int, v.len() as int);
            lemma_trim_end_step(w, k, j - start);
            assert(w.subrange(0, j - start) =~= v@.subrange(start as int, j as int));
            assert(w.subrange(0, j - start - 1) =~= v@.subrange(start as int, j - 1));
        }
        j = j - 1;
    }
    j
}

/// The characters of a string slice.
pub fn chars_of(s: &str) -> (v: Vec<char>)
    ensures
        v@ == s@,
{
    let mut v: Vec<char> = Vec::new();
    for c in it: s.chars()
        invariant
            v@ == it.seq().take(it.index() as int),
    {
        v.push(c);
    }
    v
}

/// A string made of the given characters.
pub fn string_from_chars(v: &[char]) -> (s: String)
    ensures
        s@ == v@,
{
    let mut s = String::new();
    let mut i: usize = 0;
    while i < v.len()
        invariant
            i <= v.len(),
            s@ == v@.take(i as int),
        decreases v.len() - i,
    {
        s.push(v[i]);
        proof {
            assert(v@.take(i + 1) =~= v@.take(i as int).push(v@[i as int]));
        }
        i = i + 1;
    }
    proof {
        assert(v@.take(v.len() as int) =~= v@);
    }
    s
}

/// The characters `v[a..b]`.
pub fn copy_range(v: &Vec<char>, a: usize, b: usize) -> (r: Vec<char>)
    requires
        a <= b <= v.len(),
    ensures
        r@ == v@.subrange(a as int, b as int),
{
    let mut r: Vec<char> = Vec::new();
    let mut i = a;
    while i < b
        invariant
            a <= i <= b <= v.len(),
            r@ == v@.subrange(a as int, i as int),
        decreases b - i,
    {
        r.push(v[i]);
        proof {
            assert(v@.subrange(a as int, i + 1) =~= v@.subrange(a as int, i as int).push(
                v@[i as int],
            ));
        }
        i = i + 1;
    }
    r
}

/// Appends `w` to `out`.
pub fn append_chars(out: &mut Vec<char>, w: &[char])
    ensures
        final(out)@ == old(out)@ + w@,
{
    let mut i: usize = 0;
    while i < w.len()
        invariant
            i <= w.len(),
            out@ == old(out)@ + w@.take(i as int),
        decreases w.len() - i,
    {
        out.push(w[i]);
        proof {
            assert(w@.take(i + 1) =~= w@.take(i as int).push(w@[i as int]));
            assert(old(out)@ + w@.take(i + 1) =~= (old(out)@ + w@.take(i as int)).push(
                w@[i as int],
            ));
        }
        i = i + 1;
    }
    proof {
        assert(w@.take(w.len() as int) =~= w@);
    }
}

/// Appends the characters of `s` to `out`.
pub fn append_str(out: &mut Vec<char>, s: &str)
    ensures
        final(out)@ == old(out)@ + s@,
{
    let w = chars_of(s);
    append_chars(out, w.as_slice());
}

pub fn lower_char(c: char) -> (d: char)
    ensures
        d == ascii_lower_char(c),
{
    if 'A' <= c && c <= 'Z' {
        let u = (c as u32) + 32;
        let d = char_from_ascii_letter(u);
        d
    } else {
        c
    }
}

fn char_from_ascii_letter(u: u32) -> (c: char)
    requires
        97 <= u <= 122,
    ensures
        c as u32 == u,
        c == u as char,
{
    let b = u as u8;
    b as char
}

/// `to_ascii_lowercase` on characters.
pub fn lower_chars(v: &[char]) -> (r: Vec<char>)
    ensures
        r@ == ascii_lower(v@),
{
    let mut r: Vec<char> = Vec::new();
    let mut i: usize = 0;
    while i < v.len()
        invariant
            i <= v.len(),
            r@ =~= ascii_lower(v@.take(i as int)),
        decreases v.len() - i,
    {
        let d = lower_char(v[i]);
        r.push(d);
        i = i + 1;
    }
    proof {
        assert(v@.take(v.len() as int) =~= v@);
    }
    r
}

/// Every `from` replaced by `to`.
pub fn replace_chars(v: &[char], from: char, to: char) -> (r: Vec<char>)
    ensures
        r@ == replace_char(v@, from, to),
{
    let mut r: Vec<char> = Vec::new();
    let mut i: usize = 0;
    while i < v.len()
        invariant
            i <= v.len(),
            r@ =~= replace_char(v@.take(i as int), from, to),
        decreases v.len() - i,
    {
        if v[i] == from {
            r.push(to);
        } else {
            r.push(v[i]);
        }
        i = i + 1;
    }
    proof {
        assert(v@.take(v.len() as int) =~= v@);
    }
    r
}

/// Whether `key` occurs in `v` at index `i`.
pub fn matches_at(v: &[char], key: &[char], i: usize) -> (b: bool)
    ensures
        b == occurs_at(v@, key@, i as int),
{
    if i > v.len() || key.len() > v.len() - i {
        return false;
    }
    let mut j: usize = 0;
    while j < key.len()
        invariant
            i + key.len() <= v.len(),
            j <= key.len(),
            forall|t: int| 0 <= t < j ==> v@[i + t] == key@[t],
        decreases key.len() - j,
    {
        if v[i + j] != key[j] {
            proof {
                assert(v@.subrange(i as int, i + key.len())[j as int] != key@[j as int]);
            }
            return false;
        }
        j = j + 1;
    }
    proof {
        assert(v@.subrange(i as int, i + key.len()) =~= key@);
    }
    true
}

/// The first index at or after `from` where `key` occurs in `v`.
pub fn find_from(v: &[char], key: &[char], from: usize) -> (r: Option<usize>)
    ensures
        match r {
            Some(i) => from <= i && occurs_at(v@, key@, i as int) && forall|j: int|
                from <= j < i ==> !occurs_at(v@, key@, j),
            None => forall|j: int| from <= j ==> !occurs_at(v@, key@, j),
        },
{
    if from > v.len() {
        return None;
    }
    let mut i = from;
    loop
        invariant
            from <= i <= v.len(),
            forall|j: int| from <= j < i ==> !occurs_at(v@, key@, j),
        decreases v.len() - i,
    {
        if matches_at(v, key, i) {
            return Some(i);
        }
        if i == v.len() {
            return None;
        }
        i = i + 1;
    }
}

/// A decimal digit character.
pub open spec fn digit_char(d: nat) -> char {
    ((d + 48) as u32) as char
}

/// The decimal notation of `n`, as `Display` writes an unsigned integer.
pub open spec fn decimal(n: nat) -> Seq<char>
    decreases n,
{
    if n < 10 {
        seq![digit_char(n)]
    } else {
        decimal(n / 10).push(digit_char(n % 10))
    }
}

fn digit(d: u64) -> (c: char)
    requires
        d < 10,
    ensures
        c == digit_char(d as nat),
{
    let b = (d as u8) + 48;
    b as char
}

/// Appends the decimal notation of `n`.
pub fn push_decimal(out: &mut Vec<char>, n: u64)
    ensures
        final(out)@ == old(out)@ + decimal(n as nat),
    decreases n,
{
    if n >= 10 {
        push_decimal(out, n / 10);
    }
    let c = digit(n % 10);
    out.push(c);
    proof {
        if n >= 10 {
            assert(old(out)@ + decimal(n as nat) =~= old(out)@ + decimal((n / 10) as nat) + seq![c]);
        } else {
            assert(old(out)@ + decimal(n as nat) =~= old(out)@ + seq![c]);
        }
    }
}

/// The value of a run of ASCII digits.
pub open spec fn digits_value(s: Seq<char>) -> nat
    decreases s.len(),
{
    if s.len() == 0 {
        0
    } else {
        digits_value(s.drop_last()) * 10 + ((s.last() as u32) - 48) as nat
    }
}

pub open spec fn all_digits(s: Seq<char>) -> bool {
    forall|i: int| 0 <= i < s.len() ==> is_ascii_digit(#[trigger] s[i])
}

/// `<u32 as FromStr>::from_str`: an optional `+`, then at least one ASCII
/// digit and nothing else, with a value that fits.
pub open spec fn parse_u32_spec(s: Seq<char>) -> Option<u32> {
    let body = if s.len() > 0 && s[0] == '+' {
        s.drop_first()
    } else {
        s
    };
    if body.len() > 0 && all_digits(body) && digits_value(body) <= u32::MAX {
        Some(digits_value(body) as u32)
    } else {
        None
    }
}

proof fn lemma_digits_value_monotone(s: Seq<char>, i: int)
    requires
        0 <= i <= s.len(),
        all_digits(s),
    ensures
        digits_value(s.take(i)) <= digits_value(s),
    decreases s.len() - i,
{
    if i < s.len() {
        lemma_digits_value_monotone(s, i + 1);
        assert(s.take(i + 1).drop_last() =~= s.take(i));
        assert(is_ascii_digit(s[i]));
    } else {
        assert(s.take(i) =~= s);
    }
}

/// Parses `v[a..b]` as `u32` does.
pub fn parse_u32(v: &Vec<char>, a: usize, b: usize) -> (r: Option<u32>)
    requires
        a <= b <= v.len(),
    ensures
        r == parse_u32_spec(v@.subrange(a as int, b as int)),
{
    let ghost s = v@.subrange(a as int, b as int);
    let mut start = a;
    if a < b && v[a] == '+' {
        start = a + 1;
    }
    let ghost body = v@.subrange(start as int, b as int);
    proof {
        if a < b && v@[a as int] == '+' {
            assert(body =~= s.drop_first());
        } else {
            assert(body =~= s);
        }
    }
    if start >= b {
        return None;
    }
    let mut acc: u64 = 0;
    let mut i = start;
    while i < b
        invariant
            a <= start < b <= v.len(),
            start <= i <= b,
            s == v@.subrange(a as int, b as int),
            body == (if s.len() > 0 && s[0] == '+' {
                s.drop_first()
            } else {
                s
            }),
            body == v@.subrange(start as int, b as int),
            all_digits(body.take(i - start)),
            acc == digits_value(body.take(i - start)),
            acc <= u32::MAX,
        decreases b - i,
    {
        let c = v[i];
        if !('0' <= c && c <= '9') {
            proof {
                assert(body[i - start] == c);
                assert(!is_ascii_digit(body[i - start]));
                assert(!all_digits(body));
            }
            return None;
        }
        let d = (c as u32 - 48) as u64;
        proof {
            assert(body.take(i + 1 - start).drop_last() =~= body.take(i - start));
            assert(body.take(i + 1 - start).last() == c);
            assert(all_digits(body.take(i + 1 - start))) by {
                assert forall|t: int| 0 <= t < i + 1 - start implies is_ascii_digit(
                    #[trigger] body.take(i + 1 - start)[t],
                ) by {
                    if t < i - start {
                        assert(body.take(i + 1 - start)[t] == body.take(i - start)[t]);
                    }
                }
            }
        }
        acc = acc * 10 + d;
        if acc > 0xffff_ffff {
            proof {
                if all_digits(body) {
                    lemma_digits_value_monotone(body, i + 1 - start);
                }
            }
            return None;
        }
        i = i + 1;
    }
    proof {
        assert(body.take(b - start) =~= body);
    }
    Some(acc as u32)
}

/// The text of an optional string.
pub open spec fn opt_view(o: Option<String>) -> Option<Seq<char>> {
    match o {
        Some(s) => Some(s@),
        None => None,
    }
}

/// Whether two character sequences are equal.
pub fn chars_equal(a: &[char], b: &[char]) -> (r: bool)
    ensures
        r == (a@ == b@),
{
    if a.len() != b.len() {
        return false;
    }
    let mut i: usize = 0;
    while i < a.len()
        invariant
            a.len() == b.len(),
            i <= a.len(),
            forall|t: int| 0 <= t < i ==> a@[t] == b@[t],
        decreases a.len() - i,
    {
        if a[i] != b[i] {
            return false;
        }
        i = i + 1;
    }
    proof {
        assert(a@ =~= b@);
    }
    true
}

/// `str::trim` on characters.
pub fn trim_chars(v: &Vec<char>) -> (r: Vec<char>)
    ensures
        r@ == trim_ws(v@),
{
    let a = trim_start_index(v, 0, v.len(), CharClass::Whitespace);
    let b = trim_end_index(v, a, v.len(), CharClass::Whitespace);
    proof {
        assert(v@.subrange(0, v.len() as int) =~= v@);
    }
    copy_range(v, a, b)
}

/// `str::trim`.
pub fn trim_str(s: &str) -> (r: Vec<char>)
    ensures
        r@ == trim_ws(s@),
{
    let v = chars_of(s);
    trim_chars(&v)
}

/// First index at or after `from` where `key` occurs.
pub open spec fn first_occurrence(s: Seq<char>, key: Seq<char>, from: int) -> Option<int>
    decreases s.len() + 1 - from,
{
    if from < 0 || from > s.len() {
        None
    } else if occurs_at(s, key, from) {
        Some(from)
    } else {
        first_occurrence(s, key, from + 1)
    }
}

pub proof fn lemma_first_occurrence(s: Seq<char>, key: Seq<char>, from: int, r: Option<int>)
    requires
        from >= 0,
        match r {
            Some(i) => from <= i && occurs_at(s, key, i) && forall|j: int|
                from <= j < i ==> !occurs_at(s, key, j),
            None => forall|j: int| from <= j ==> !occurs_at(s, key, j),
        },
    ensures
        first_occurrence(s, key, from) == r,
    decreases s.len() + 1 - from,
{
    if from > s.len() {
        if let Some(i) = r {
            assert(occurs_at(s, key, i));
        }
    } else if occurs_at(s, key, from) {
    } else {
        lemma_first_occurrence(s, key, from + 1, r);
    }
}

/// First occurrence of `key` in `v` at or after `from`.
pub fn find_occurrence(v: &Vec<char>, key: &Vec<char>, from: usize) -> (r: Option<usize>)
    ensures
        match r {
            Some(i) => first_occurrence(v@, key@, from as int) == Some(i as int) && i + key.len()
                <= v.len(),
            None => first_occurrence(v@, key@, from as int) == None::<int>,
        },
{
    let r = find_from(v.as_slice(), key.as_slice(), from);
    proof {
        match r {
            Some(i) => lemma_first_occurrence(v@, key@, from as int, Some(i as int)),
            None => lemma_first_occurrence(v@, key@, from as int, None),
        }
    }
    r
}

pub proof fn lemma_first_occurrence_at_or_after(s: Seq<char>, key: Seq<char>, from: int)
    ensures
        first_occurrence(s, key, from) matches Some(i) ==> from <= i,
    decreases s.len() + 1 - from,
{
    if from >= 0 && from <= s.len() && !occurs_at(s, key, from) {
        lemma_first_occurrence_at_or_after(s, key, from + 1);
    }
}

/// The decimal notation of a signed integer, as `Display` writes it.
pub open spec fn signed_decimal(n: int) -> Seq<char> {
    if n < 0 {
        seq!['-'] + decimal((-n) as nat)
    } else {
        decimal(n as nat)
    }
}

/// Appends the decimal notation of `n`.
pub fn push_signed_decimal(out: &mut Vec<char>, n: i64)
    ensures
        final(out)@ == old(out)@ + signed_decimal(n as int),
{
    if n < 0 {
        out.push('-');
        let m: u64 = if n == i64::MIN {
            0x8000_0000_0000_0000u64
        } else {
            (-n) as u64
        };
        let ghost mid = out@;
        push_decimal(out, m);
        proof {
            assert(out@ =~= old(out)@ + signed_decimal(n as int));
        }
    } else {
        push_decimal(out, n as u64);
    }
}

/// `n` written with at least `width` characters, zeros filling the front.
pub open spec fn zero_pad(s: Seq<char>, width: nat) -> Seq<char> {
    if s.len() >= width {
        s
    } else {
        Seq::new((width - s.len()) as nat, |i: int| '0') + s
    }
}

/// `format!("{:04}", n)`: the sign counts towards the width.
pub open spec fn pad4_signed(n: int) -> Seq<char> {
    if n < 0 {
        seq!['-'] + zero_pad(decimal((-n) as nat), 3)
    } else {
        zero_pad(decimal(n as nat), 4)
    }
}

fn push_zero_padded(out: &mut Vec<char>, m: u64, width: usize)
    requires
        width <= 4,
    ensures
        final(out)@ == old(out)@ + zero_pad(decimal(m as nat), width as nat),
{
    let mut digits: Vec<char> = Vec::new();
    push_decimal(&mut digits, m);
    proof {
        assert(digits@ =~= decimal(m as nat));
    }
    let mut k: usize = digits.len();
    let ghost zeros_start = out@;
    while k < width
        invariant
            k <= width || k == digits.len(),
            digits.len() <= k,
            width <= 4,
            out@ == zeros_start + Seq::new((k - digits.len()) as nat, |i: int| '0'),
        decreases width - k,
    {
        out.push('0');
        proof {
            assert(out@ =~= zeros_start + Seq::new((k + 1 - digits.len()) as nat, |i: int| '0'));
        }
        k = k + 1;
    }
    append_chars(out, digits.as_slice());
    proof {
        if digits.len() >= width {
            assert(out@ =~= old(out)@ + zero_pad(decimal(m as nat), width as nat));
        } else {
            assert(out@ =~= old(out)@ + zero_pad(decimal(m as nat), width as nat));
        }
    }
}

/// Appends `n` as `format!("{:04}", n)` writes it.
pub fn push_pad4_signed(out: &mut Vec<char>, n: i64)
    ensures
        final(out)@ == old(out)@ + pad4_signed(n as int),
{
    if n < 0 {
        out.push('-');
        let m: u64 = if n == i64::MIN {
            0x8000_0000_0000_0000u64
        } else {
            (-n) as u64
        };
        push_zero_padded(out, m, 3);
        proof {
            assert(out@ =~= old(out)@ + pad4_signed(n as int));
        }
    } else {
        push_zero_padded(out, n as u64, 4);
    }
}

/// Pieces joined by a separator.
pub open spec fn join_seq(parts: Seq<Seq<char>>, sep: Seq<char>) -> Seq<char>
    decreases parts.len(),
{
    if parts.len() == 0 {
        seq![]
    } else if parts.len() == 1 {
        parts[0]
    } else {
        join_seq(parts.drop_last(), sep) + sep + parts.last()
    }
}

/// Joins pieces with a separator, as `[String]::join` does.
pub fn join_pieces(parts: &Vec<Vec<char>>, sep: &str) -> (r: Vec<char>)
    ensures
        r@ == join_seq(parts@.map_values(|p: Vec<char>| p@), sep@),
{
    let ghost pv = parts@.map_values(|p: Vec<char>| p@);
    let mut r: Vec<char> = Vec::new();
    let mut i: usize = 0;
    proof {
        assert(pv.take(0) =~= Seq::<Seq<char>>::empty());
    }
    while i < parts.len()
        invariant
            i <= parts.len(),
            pv == parts@.map_values(|p: Vec<char>| p@),
            r@ == join_seq(pv.take(i as int), sep@),
        decreases parts.len() - i,
    {
        proof {
            assert(pv.take(i + 1).drop_last() =~= pv.take(i as int));
            assert(pv.take(i + 1).last() == parts@[i as int]@);
        }
        if i > 0 {
            append_str(&mut r, sep);
        } else {
            proof {
                assert(pv.take(1) =~= seq![parts@[0]@]);
            }
        }
        append_chars(&mut r, parts[i].as_slice());
        i = i + 1;
    }
    proof {
        assert(pv.take(parts.len() as int) =~= pv);
    }
    r
}

} // verus!
