//! DISM: the arguments that list the images of a WIM file and apply one of
//! them, and the parser for the image list that `/Get-WimInfo` prints.
use vstd::prelude::*;
use crate::models::WimImageInfo;
use crate::text::{
    append_chars, append_str, chars_of, copy_range, find_occurrence, first_occurrence,
    has_prefix, matches_at, opt_view, parse_u32, parse_u32_spec, push_decimal, decimal,
    string_from_chars, trim_chars, trim_end_index, trim_start_index, trim_ws, CharClass,
};

verus! {

/// An image as text: index, name, description, size.
pub type WimModel = (u32, Seq<char>, Option<Seq<char>>, Option<Seq<char>>);

impl View for WimImageInfo {
    type V = WimModel;

    open spec fn view(&self) -> WimModel {
        (self.index, self.name@, opt_view(self.description), opt_view(self.size))
    }
}

/// The pieces of a text between line feeds. `str::lines` also drops a
/// final empty piece and a `\r` before each feed; the parser trims every
/// line and ignores blank ones, so neither changes its result.
pub open spec fn split_newlines(t: Seq<char>) -> Seq<Seq<char>>
    decreases t.len(),
{
    if t.len() == 0 {
        seq![seq![]]
    } else {
        let prev = split_newlines(t.drop_last());
        if t.last() == '\n' {
            prev.push(seq![])
        } else {
            prev.update(prev.len() - 1, prev.last().push(t.last()))
        }
    }
}

/// `line.split(':').nth(1)`: the text between the first and the second `:`.
pub open spec fn field_after_colon(t: Seq<char>) -> Option<Seq<char>> {
    match first_occurrence(t, seq![':'], 0) {
        Some(c) => match first_occurrence(t, seq![':'], c + 1) {
            Some(e) => Some(t.subrange(c + 1, e)),
            None => Some(t.skip(c + 1)),
        },
        None => None,
    }
}

/// The images found so far, and the one being read.
pub type WimState = (Seq<WimModel>, Option<WimModel>);

/// One line of `/Get-WimInfo` output: `Index :` closes the image being read
/// and opens a new one when its number parses; `Name :`, `Description :`
/// and `Size :` fill in the open image.
pub open spec fn wim_step(st: WimState, line: Seq<char>) -> WimState {
    let t = trim_ws(line);
    if has_prefix(t, "Index :"@) {
        let done = match st.1 {
            Some(c) => st.0.push(c),
            None => st.0,
        };
        let cur = match field_after_colon(t) {
            Some(f) => match parse_u32_spec(trim_ws(f)) {
                Some(i) => Some((i, Seq::<char>::empty(), None::<Seq<char>>, None::<Seq<char>>)),
                None => None,
            },
            None => None,
        };
        (done, cur)
    } else {
        match st.1 {
            None => st,
            Some(c) => if has_prefix(t, "Name :"@) {
                match field_after_colon(t) {
                    Some(f) => (st.0, Some((c.0, trim_ws(f), c.2, c.3))),
                    None => st,
                }
            } else if has_prefix(t, "Description :"@) {
                match field_after_colon(t) {
                    Some(f) => (st.0, Some((c.0, c.1, Some(trim_ws(f)), c.3))),
                    None => st,
                }
            } else if has_prefix(t, "Size :"@) {
                match field_after_colon(t) {
                    Some(f) => (st.0, Some((c.0, c.1, c.2, Some(trim_ws(f))))),
                    None => st,
                }
            } else {
                st
            },
        }
    }
}

pub open spec fn wim_fold(lines: Seq<Seq<char>>) -> WimState
    decreases lines.len(),
{
    if lines.len() == 0 {
        (seq![], None)
    } else {
        wim_step(wim_fold(lines.drop_last()), lines.last())
    }
}

/// The images that `/Get-WimInfo` printed, in order.
pub open spec fn parse_wim_spec(text: Seq<char>) -> Seq<WimModel> {
    let st = wim_fold(split_newlines(text));
    match st.1 {
        Some(c) => st.0.push(c),
        None => st.0,
    }
}

/// The number on a line `Index : <n>` (after trimming), when it parses.
pub open spec fn index_line_number(line: Seq<char>) -> Option<u32> {
    let t = trim_ws(line);
    if has_prefix(t, "Index :"@) {
        match field_after_colon(t) {
            Some(f) => parse_u32_spec(trim_ws(f)),
            None => None,
        }
    } else {
        None
    }
}

/// The numbers of the `Index :` lines whose number parses, in order.
pub open spec fn index_numbers(lines: Seq<Seq<char>>) -> Seq<u32>
    decreases lines.len(),
{
    if lines.len() == 0 {
        seq![]
    } else {
        index_numbers(lines.drop_last()) + match index_line_number(lines.last()) {
            Some(n) => seq![n],
            None => seq![],
        }
    }
}

pub open spec fn image_indexes(images: Seq<WimModel>) -> Seq<u32> {
    images.map_values(|w: WimModel| w.0)
}

pub open spec fn open_index(o: Option<WimModel>) -> Seq<u32> {
    match o {
        Some(c) => seq![c.0],
        None => seq![],
    }
}

/// Reading a line never drops or changes an image already finished: the
/// finished images only grow, by appending.
pub proof fn law_wim_finished_images_grow(st: WimState, line: Seq<char>)
    ensures
        wim_step(st, line).0.len() >= st.0.len(),
        wim_step(st, line).0.take(st.0.len() as int) == st.0,
{
    match st.1 {
        Some(c) => {
            assert(st.0.push(c).take(st.0.len() as int) =~= st.0);
        },
        None => {},
    }
    assert(st.0.take(st.0.len() as int) =~= st.0);
}

proof fn lemma_wim_fold_indexes(lines: Seq<Seq<char>>)
    ensures
        image_indexes(wim_fold(lines).0) + open_index(wim_fold(lines).1) == index_numbers(lines),
    decreases lines.len(),
{
    if lines.len() > 0 {
        lemma_wim_fold_indexes(lines.drop_last());
        let st = wim_fold(lines.drop_last());
        let r = wim_fold(lines);
        let t = trim_ws(lines.last());
        if has_prefix(t, "Index :"@) {
            match st.1 {
                Some(c) => {
                    assert(image_indexes(st.0.push(c)) =~= image_indexes(st.0).push(c.0));
                },
                None => {},
            }
            assert(image_indexes(r.0) + open_index(r.1) =~= image_indexes(st.0) + open_index(st.1)
                + open_index(r.1));
        } else {
            assert(r.0 == st.0);
            assert(open_index(r.1) == open_index(st.1));
        }
    }
}

/// Every `Index :` line whose number parses gives exactly one image, in
/// order: the images' indexes are the numbers of those lines, and there are
/// as many images as such lines.
pub proof fn law_wim_images_follow_index_lines(text: Seq<char>)
    ensures
        image_indexes(parse_wim_spec(text)) == index_numbers(split_newlines(text)),
        parse_wim_spec(text).len() == index_numbers(split_newlines(text)).len(),
{
    let lines = split_newlines(text);
    lemma_wim_fold_indexes(lines);
    let st = wim_fold(lines);
    match st.1 {
        Some(c) => {
            assert(image_indexes(st.0.push(c)) =~= image_indexes(st.0).push(c.0));
            assert(image_indexes(st.0) + open_index(st.1) =~= image_indexes(st.0).push(c.0));
        },
        None => {
            assert(image_indexes(st.0) + open_index(st.1) =~= image_indexes(st.0));
        },
    }
}

proof fn lemma_split_nonempty(t: Seq<char>)
    ensures
        split_newlines(t).len() >= 1,
    decreases t.len(),
{
    if t.len() > 0 {
        lemma_split_nonempty(t.drop_last());
    }
}

pub open spec fn infos_view(v: Seq<WimImageInfo>) -> Seq<WimModel> {
    v.map_values(|w: WimImageInfo| w@)
}

pub open spec fn opt_info_view(o: Option<WimImageInfo>) -> Option<WimModel> {
    match o {
        Some(w) => Some(w@),
        None => None,
    }
}

/// The text after the first `:` of `t` up to the next one.
fn field_chars(t: &Vec<char>) -> (r: Option<Vec<char>>)
    ensures
        match r {
            Some(w) => field_after_colon(t@) == Some(w@),
            None => field_after_colon(t@) == None::<Seq<char>>,
        },
{
    let colon = vec![':'];
    proof {
        assert(colon@ =~= seq![':']);
    }
    match find_occurrence(t, &colon, 0) {
        None => None,
        Some(c) => match find_occurrence(t, &colon, c + 1) {
            Some(e) => {
                proof {
                    lemma_first_occurrence_after(t@, seq![':'], c as int + 1);
                }
                Some(copy_range(t, c + 1, e))
            },
            None => {
                proof {
                    assert(t@.skip(c + 1) =~= t@.subrange(c + 1, t.len() as int));
                }
                Some(copy_range(t, c + 1, t.len()))
            },
        },
    }
}

proof fn lemma_first_occurrence_after(s: Seq<char>, key: Seq<char>, from: int)
    ensures
        first_occurrence(s, key, from) matches Some(i) ==> from <= i && i + key.len() <= s.len(),
    decreases s.len() + 1 - from,
{
    if from >= 0 && from <= s.len() && !crate::text::occurs_at(s, key, from) {
        lemma_first_occurrence_after(s, key, from + 1);
    }
}

fn trimmed_string(f: &Vec<char>) -> (r: String)
    ensures
        r@ == trim_ws(f@),
{
    let t = trim_chars(f);
    string_from_chars(t.as_slice())
}

/// Applies one line `v[a..b]` to the parser's state.
fn apply_line(
    done: &mut Vec<WimImageInfo>,
    current: &mut Option<WimImageInfo>,
    v: &Vec<char>,
    a: usize,
    b: usize,
)
    requires
        a <= b <= v.len(),
    ensures
        (infos_view(final(done)@), opt_info_view(*final(current))) == wim_step(
            (infos_view(old(done)@), opt_info_view(*old(current))),
            v@.subrange(a as int, b as int),
        ),
{
    let s = trim_start_index(v, a, b, CharClass::Whitespace);
    let e = trim_end_index(v, s, b, CharClass::Whitespace);
    let t = copy_range(v, s, e);
    let k_index = chars_of("Index :");
    let k_name = chars_of("Name :");
    let k_desc = chars_of("Description :");
    let k_size = chars_of("Size :");
    proof {
        assert(t@ == trim_ws(v@.subrange(a as int, b as int)));
    }
    if matches_at(t.as_slice(), k_index.as_slice(), 0) {
        let old_current = current.take();
        match old_current {
            Some(c) => {
                done.push(c);
                proof {
                    assert(infos_view(done@) =~= infos_view(old(done)@).push(c@));
                }
            },
            None => {},
        }
        match field_chars(&t) {
            Some(f) => {
                let ft = trim_chars(&f);
                match parse_u32(&ft, 0, ft.len()) {
                    Some(idx) => {
                        proof {
                            assert(ft@.subrange(0, ft.len() as int) =~= ft@);
                        }
                        *current = Some(
                            WimImageInfo {
                                index: idx,
                                name: String::new(),
                                description: None,
                                size: None,
                            },
                        );
                    },
                    None => {
                        proof {
                            assert(ft@.subrange(0, ft.len() as int) =~= ft@);
                        }
                    },
                }
            },
            None => {},
        }
    } else if current.is_some() {
        if matches_at(t.as_slice(), k_name.as_slice(), 0) {
            match field_chars(&t) {
                Some(f) => {
                    let name = trimmed_string(&f);
                    match current {
                        Some(c) => {
                            c.name = name;
                        },
                        None => {},
                    }
                },
                None => {},
            }
        } else if matches_at(t.as_slice(), k_desc.as_slice(), 0) {
            match field_chars(&t) {
                Some(f) => {
                    let d = trimmed_string(&f);
                    match current {
                        Some(c) => {
                            c.description = Some(d);
                        },
                        None => {},
                    }
                },
                None => {},
            }
        } else if matches_at(t.as_slice(), k_size.as_slice(), 0) {
            match field_chars(&t) {
                Some(f) => {
                    let z = trimmed_string(&f);
                    match current {
                        Some(c) => {
                            c.size = Some(z);
                        },
                        None => {},
                    }
                },
                None => {},
            }
        }
    }
}

/// The images listed in the output of `dism /Get-WimInfo`.
pub fn parse_wim_info(text: &str) -> (r: Vec<WimImageInfo>)
    ensures
        infos_view(r@) == parse_wim_spec(text@),
{
    let v = chars_of(text);
    let mut done: Vec<WimImageInfo> = Vec::new();
    let mut current: Option<WimImageInfo> = None;
    let mut line_start: usize = 0;
    let mut i: usize = 0;
    let ghost mut lines: Seq<Seq<char>> = seq![];
    proof {
        assert(v@.take(0) =~= Seq::<char>::empty());
        assert(split_newlines(v@.take(0)) =~= lines.push(v@.subrange(0, 0)));
        assert(infos_view(done@) =~= Seq::<WimModel>::empty());
    }
    while i < v.len()
        invariant
            line_start <= i <= v.len(),
            split_newlines(v@.take(i as int)) == lines.push(v@.subrange(line_start as int, i as int)),
            (infos_view(done@), opt_info_view(current)) == wim_fold(lines),
        decreases v.len() - i,
    {
        proof {
            assert(v@.take(i + 1).drop_last() =~= v@.take(i as int));
            assert(v@.take(i + 1).last() == v@[i as int]);
            lemma_split_nonempty(v@.take(i as int));
        }
        if v[i] == '\n' {
            apply_line(&mut done, &mut current, &v, line_start, i);
            proof {
                let cur = v@.subrange(line_start as int, i as int);
                assert(lines.push(cur).drop_last() =~= lines);
                lines = lines.push(cur);
                assert(v@.subrange(i + 1, i + 1) =~= Seq::<char>::empty());
                assert(split_newlines(v@.take(i + 1)) =~= lines.push(v@.subrange(i + 1, i + 1)));
            }
            line_start = i + 1;
        } else {
            proof {
                assert(v@.subrange(line_start as int, i + 1) =~= v@.subrange(
                    line_start as int,
                    i as int,
                ).push(v@[i as int]));
                assert(split_newlines(v@.take(i + 1)) =~= lines.push(
                    v@.subrange(line_start as int, i + 1),
                ));
            }
        }
        i = i + 1;
    }
    apply_line(&mut done, &mut current, &v, line_start, v.len());
    proof {
        let cur = v@.subrange(line_start as int, v.len() as int);
        assert(v@.take(v.len() as int) =~= v@);
        assert(lines.push(cur).drop_last() =~= lines);
        assert(wim_fold(split_newlines(v@)) == wim_step(wim_fold(lines), cur));
    }
    match current {
        Some(c) => {
            done.push(c);
            proof {
                assert(infos_view(done@) =~= infos_view(done@.drop_last()).push(c@));
            }
        },
        None => {},
    }
    done
}

/// The DISM arguments that list the images inside a WIM or ESD file.
pub fn list_images_args(image_path: &str) -> (r: Vec<String>)
    ensures
        r@.map_values(|s: String| s@) == seq![
            "/English"@,
            "/Get-WimInfo"@,
            "/WimFile:"@ + image_path@,
        ],
{
    let mut r: Vec<String> = Vec::new();
    r.push("/English".to_owned());
    r.push("/Get-WimInfo".to_owned());
    let mut w: Vec<char> = Vec::new();
    append_str(&mut w, "/WimFile:");
    append_str(&mut w, image_path);
    r.push(string_from_chars(w.as_slice()));
    proof {
        assert(r@.map_values(|s: String| s@) =~= seq![
            "/English"@,
            "/Get-WimInfo"@,
            "/WimFile:"@ + image_path@,
        ]);
    }
    r
}

/// The DISM arguments that apply image number `index` of a WIM or ESD file
/// to a folder.
pub fn apply_image_args(image_path: &str, index: u32, apply_dir: &str) -> (r: Vec<String>)
    ensures
        r@.map_values(|s: String| s@) == seq![
            "/English"@,
            "/Apply-Image"@,
            "/ImageFile:"@ + image_path@,
            "/Index:"@ + decimal(index as nat),
            "/ApplyDir:"@ + apply_dir@,
        ],
{
    let mut r: Vec<String> = Vec::new();
    r.push("/English".to_owned());
    r.push("/Apply-Image".to_owned());
    let mut a: Vec<char> = Vec::new();
    append_str(&mut a, "/ImageFile:");
    append_str(&mut a, image_path);
    r.push(string_from_chars(a.as_slice()));
    let mut b: Vec<char> = Vec::new();
    append_str(&mut b, "/Index:");
    push_decimal(&mut b, index as u64);
    r.push(string_from_chars(b.as_slice()));
    let mut c: Vec<char> = Vec::new();
    append_str(&mut c, "/ApplyDir:");
    append_str(&mut c, apply_dir);
    r.push(string_from_chars(c.as_slice()));
    proof {
        assert(r@.map_values(|s: String| s@) =~= seq![
            "/English"@,
            "/Apply-Image"@,
            "/ImageFile:"@ + image_path@,
            "/Index:"@ + decimal(index as nat),
            "/ApplyDir:"@ + apply_dir@,
        ]);
    }
    r
}

} // verus!
