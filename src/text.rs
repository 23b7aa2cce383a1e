use vstd::prelude::*;

use vstd::string::{StrSliceExecFns, StringExecFns};

use crate::model::strings_view;

verus! {

/// Whether `c` has the Unicode `White_Space` property: tab, line feed,
/// vertical tab, form feed, carriage return, space, next line, no-break
/// space, ogham space mark, the spaces U+2000 to U+200A, line and paragraph
/// separators, narrow no-break space, medium mathematical space and
/// ideographic space.
pub open spec fn white_space(c: char) -> bool {
    let u = c as u32;
    ||| 0x09 <= u <= 0x0d
    ||| u == 0x20
    ||| u == 0x85
    ||| u == 0xa0
    ||| u == 0x1680
    ||| 0x2000 <= u <= 0x200a
    ||| u == 0x2028
    ||| u == 0x2029
    ||| u == 0x202f
    ||| u == 0x205f
    ||| u == 0x3000
}

/// `s` without its leading characters of the `White_Space` property.
pub open spec fn trim_start(s: Seq<char>) -> Seq<char>
    decreases s.len(),
{
    if s.len() > 0 && white_space(s[0]) {
        trim_start(s.drop_first())
    } else {
        s
    }
}

/// `s` without its trailing characters of the `White_Space` property.
pub open spec fn trim_end(s: Seq<char>) -> Seq<char>
    decreases s.len(),
{
    if s.len() > 0 && white_space(s.last()) {
        trim_end(s.drop_last())
    } else {
        s
    }
}

/// `s` with leading and trailing white space removed.
pub open spec fn trimmed(s: Seq<char>) -> Seq<char> {
    trim_end(trim_start(s))
}

/// The pieces of `s` between commas, in order; `s` without a comma is one piece.
pub open spec fn split_commas(s: Seq<char>) -> Seq<Seq<char>>
    decreases s.len(),
{
    if s.len() == 0 {
        seq![Seq::empty()]
    } else {
        let init = split_commas(s.drop_last());
        if s.last() == ',' {
            init.push(Seq::empty())
        } else {
            init.update(init.len() - 1, init.last().push(s.last()))
        }
    }
}

/// Each tag trimmed, the empty ones dropped, the others kept in order.
pub open spec fn clean_tags(ts: Seq<Seq<char>>) -> Seq<Seq<char>>
    decreases ts.len(),
{
    if ts.len() == 0 {
        Seq::empty()
    } else {
        let init = clean_tags(ts.drop_last());
        let t = trimmed(ts.last());
        if t.len() == 0 {
            init
        } else {
            init.push(t)
        }
    }
}

/// The tags written in `raw` as a comma-separated list.
pub open spec fn tags_of(raw: Seq<char>) -> Seq<Seq<char>> {
    clean_tags(split_commas(raw))
}

/// Relies on `str::trim`: removes leading and trailing characters of the
/// Unicode `White_Space` property, and nothing else.
#[verifier::external_body]
pub(crate) fn trim(s: &str) -> (r: String)
    ensures
        r@ == trimmed(s@),
{
    s.trim().to_string()
}

/// The characters of `s`, in order.
pub(crate) fn chars_of(s: &str) -> (r: Vec<char>)
    ensures
        r@ == s@,
{
    let n = s.unicode_len();
    let mut r: Vec<char> = Vec::new();
    let mut i: usize = 0;
    while i < n
        invariant
            n == s@.len(),
            i <= n,
            r@ == s@.take(i as int),
        decreases n - i,
    {
        r.push(s.get_char(i));
        assert(s@.take(i + 1) =~= s@.take(i as int).push(s@[i as int]));
        i = i + 1;
    }
    assert(s@.take(n as int) =~= s@);
    r
}

/// Trims every tag and drops those left empty, keeping the order of the others.
pub fn normalize_tags(tags: &Vec<String>) -> (r: Vec<String>)
    ensures
        strings_view(r@) == clean_tags(strings_view(tags@)),
{
    let mut r: Vec<String> = Vec::new();
    let mut i: usize = 0;
    while i < tags.len()
        invariant
            i <= tags.len(),
            strings_view(r@) == clean_tags(strings_view(tags@.subrange(0, i as int))),
        decreases tags.len() - i,
    {
        let t = trim(tags[i].as_str());
        proof {
            let pre = strings_view(tags@.subrange(0, i + 1));
            assert(pre.drop_last() =~= strings_view(tags@.subrange(0, i as int)));
            assert(pre.last() == tags@[i as int]@);
        }
        let ghost before = r@;
        if !t.as_str().is_empty() {
            r.push(t);
            assert(strings_view(r@) =~= strings_view(before).push(t@));
        }
        i = i + 1;
    }
    proof {
        assert(tags@.subrange(0, tags@.len() as int) =~= tags@);
    }
    r
}

/// The pieces of `s` between commas, untrimmed.
fn split_on_commas(s: &str) -> (r: Vec<String>)
    ensures
        strings_view(r@) == split_commas(s@),
{
    let cs = chars_of(s);
    let mut done: Vec<String> = Vec::new();
    let mut start: usize = 0;
    let mut i: usize = 0;
    assert(cs@.take(0) =~= Seq::<char>::empty());
    assert(cs@.subrange(0, 0) =~= Seq::<char>::empty());
    assert(strings_view(done@).push(cs@.subrange(0, 0)) =~= seq![Seq::<char>::empty()]);
    while i < cs.len()
        invariant
            cs@ == s@,
            start <= i <= cs@.len(),
            split_commas(cs@.take(i as int)) == strings_view(done@).push(
                cs@.subrange(start as int, i as int),
            ),
        decreases cs.len() - i,
    {
        let c = cs[i];
        let ghost prev_done = done@;
        let ghost prev_cur = cs@.subrange(start as int, i as int);
        proof {
            assert(cs@.take(i + 1).drop_last() =~= cs@.take(i as int));
        }
        if c == ',' {
            let piece = String::from_str(s.substring_char(start, i));
            assert(piece@ == prev_cur);
            done.push(piece);
            start = i + 1;
            assert(cs@.subrange(start as int, i + 1) =~= Seq::<char>::empty());
            assert(strings_view(done@).push(cs@.subrange(start as int, i + 1)) =~= strings_view(
                prev_done,
            ).push(prev_cur).push(Seq::empty()));
        } else {
            assert(cs@.subrange(start as int, i + 1) =~= prev_cur.push(c));
            assert(strings_view(done@).push(cs@.subrange(start as int, i + 1)) =~= strings_view(
                prev_done,
            ).push(prev_cur).update(prev_done.len() as int, prev_cur.push(c)));
        }
        i = i + 1;
    }
    let ghost prev_done = done@;
    let last = String::from_str(s.substring_char(start, cs.len()));
    done.push(last);
    assert(strings_view(done@) =~= strings_view(prev_done).push(
        cs@.subrange(start as int, cs@.len() as int),
    ));
    assert(cs@.take(cs@.len() as int) =~= cs@);
    done
}

/// The tags of a comma-separated list: each piece trimmed, empty pieces
/// dropped, the others kept in order and case.
pub fn parse_tags(raw: &str) -> (r: Result<Vec<String>, String>)
    ensures
        r is Ok,
        r matches Ok(v) && strings_view(v@) == tags_of(raw@),
{
    let pieces = split_on_commas(raw);
    Ok(normalize_tags(&pieces))
}

/// [`parse_tags`] of an optional list; no list means no tags.
pub fn parse_optional_tags(raw: Option<String>) -> (r: Vec<String>)
    ensures
        strings_view(r@) == match raw {
            Some(s) => tags_of(s@),
            None => Seq::<Seq<char>>::empty(),
        },
{
    match raw {
        Some(s) => {
            let pieces = split_on_commas(s.as_str());
            normalize_tags(&pieces)
        },
        None => {
            let r: Vec<String> = Vec::new();
            assert(strings_view(r@) =~= Seq::<Seq<char>>::empty());
            r
        },
    }
}

} // verus!
