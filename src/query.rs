use vstd::prelude::*;
use vstd::string::StringExecFns;

use crate::model::{links_view, strings_view, Feed, FeedV, Link, LinkV};
use crate::text::{chars_of, clean_tags, normalize_tags, trim, trimmed};
use crate::upsert::FeedError;

verus! {

/// A calendar date: year, month (1 to 12) and day of the month.
#[derive(Clone, Copy, Debug, PartialEq, Eq, Structural)]
pub struct CalendarDate {
    pub year: i32,
    pub month: u8,
    pub day: u8,
}

/// `c` with an ASCII capital letter turned into its small letter.
pub open spec fn ascii_lower_char(c: char) -> char {
    if 'A' <= c && c <= 'Z' {
        ((c as u8) + 32) as u8 as char
    } else {
        c
    }
}

/// `s` with every ASCII capital turned into its small letter.
pub open spec fn ascii_lower(s: Seq<char>) -> Seq<char> {
    s.map_values(|c: char| ascii_lower_char(c))
}

fn lower_char(c: char) -> (r: char)
    ensures
        r == ascii_lower_char(c),
{
    if 'A' <= c && c <= 'Z' {
        ((c as u8) + 32) as char
    } else {
        c
    }
}

/// Whether `a` and `b` are equal once ASCII capitals are turned into small
/// letters, all other characters compared as they are.
fn eq_ignore_ascii_case(a: &str, b: &str) -> (r: bool)
    ensures
        r == (ascii_lower(a@) == ascii_lower(b@)),
{
    let x = chars_of(a);
    let y = chars_of(b);
    if x.len() != y.len() {
        assert(ascii_lower(a@).len() != ascii_lower(b@).len());
        return false;
    }
    let mut i: usize = 0;
    while i < x.len()
        invariant
            x@ == a@,
            y@ == b@,
            x@.len() == y@.len(),
            i <= x@.len(),
            forall|k: int| 0 <= k < i ==> ascii_lower_char(x@[k]) == ascii_lower_char(y@[k]),
        decreases x.len() - i,
    {
        if lower_char(x[i]) != lower_char(y[i]) {
            assert(ascii_lower(a@)[i as int] != ascii_lower(b@)[i as int]);
            return false;
        }
        i = i + 1;
    }
    assert(ascii_lower(a@) =~= ascii_lower(b@));
    true
}

/// Some tag of the link equals some requested tag, ignoring ASCII case.
pub open spec fn tags_match(tags: Seq<Seq<char>>, wanted: Seq<Seq<char>>) -> bool {
    exists|i: int, j: int|
        0 <= i < tags.len() && 0 <= j < wanted.len() && #[trigger] ascii_lower(tags[i])
            == #[trigger] ascii_lower(wanted[j])
}

/// `c` is one of `0` to `9`.
pub open spec fn is_digit(c: char) -> bool {
    '0' <= c && c <= '9'
}

/// The `n` characters of `s` from `i` on are all digits.
pub open spec fn digits_at(s: Seq<char>, i: int, n: int) -> bool {
    forall|j: int| i <= j < i + n ==> is_digit(#[trigger] s[j])
}

/// The decimal number written by the `n` characters of `s` from `i` on.
pub open spec fn number_at(s: Seq<char>, i: int, n: nat) -> int
    decreases n,
{
    if n == 0 {
        0
    } else {
        number_at(s, i, (n - 1) as nat) * 10 + (s[i + n - 1] as u32 - 48)
    }
}

/// Gregorian leap years.
pub open spec fn is_leap_year(y: int) -> bool {
    (y % 4 == 0 && y % 100 != 0) || y % 400 == 0
}

/// The number of days of month `m` in year `y`.
pub open spec fn days_in_month(y: int, m: int) -> int {
    if m == 2 {
        if is_leap_year(y) {
            29
        } else {
            28
        }
    } else if m == 4 || m == 6 || m == 9 || m == 11 {
        30
    } else {
        31
    }
}

/// The length of the sign, `+` or `-`, that may open a year.
pub open spec fn sign_len(s: Seq<char>) -> int {
    if s.len() > 0 && (s[0] == '+' || s[0] == '-') {
        1
    } else {
        0
    }
}

/// The calendar date that `s` starts with, written `YYYY-MM-DD` after an
/// optional sign of the year, if it names an existing day. Leap years fall
/// alike on either side of year zero, so the year's digits decide them.
pub open spec fn date_at(s: Seq<char>) -> Option<CalendarDate> {
    let o = sign_len(s);
    let digits = number_at(s, o, 4);
    let month = number_at(s, o + 5, 2);
    let day = number_at(s, o + 8, 2);
    if s.len() >= o + 10 && digits_at(s, o, 4) && s[o + 4] == '-' && digits_at(s, o + 5, 2)
        && s[o + 7] == '-' && digits_at(s, o + 8, 2) && 1 <= month <= 12 && 1 <= day
        <= days_in_month(digits, month) {
        Some(
            CalendarDate {
                year: (if s[0] == '-' {
                    -digits
                } else {
                    digits
                }) as i32,
                month: month as u8,
                day: day as u8,
            },
        )
    } else {
        None
    }
}

/// The date that `s` writes exactly as `YYYY-MM-DD`, the year optionally
/// signed, if any.
pub open spec fn date_text(s: Seq<char>) -> Option<CalendarDate> {
    if s.len() == sign_len(s) + 10 {
        date_at(s)
    } else {
        None
    }
}

/// `s` ends, after its date, in ` HH:MM:SS` naming a time of day.
pub open spec fn time_of_day_part(s: Seq<char>) -> bool {
    let o = sign_len(s);
    &&& s.len() == o + 19
    &&& s[o + 10] == ' ' && digits_at(s, o + 11, 2) && s[o + 13] == ':'
    &&& digits_at(s, o + 14, 2) && s[o + 16] == ':' && digits_at(s, o + 17, 2)
    &&& number_at(s, o + 11, 2) < 24 && number_at(s, o + 14, 2) < 60 && number_at(s, o + 17, 2) < 60
}

/// The calendar date of a stored timestamp `YYYY-MM-DD HH:MM:SS` (the year
/// optionally signed), if `s` is one that names an existing day and time.
pub open spec fn timestamp_date(s: Seq<char>) -> Option<CalendarDate> {
    if time_of_day_part(s) {
        date_at(s)
    } else {
        None
    }
}

/// Whether a link passes the filters: with requested tags, one of its tags
/// matches one of them; with a date, its timestamp falls on that date.
pub open spec fn keep_link(
    l: LinkV,
    wanted: Option<Seq<Seq<char>>>,
    date: Option<CalendarDate>,
) -> bool {
    &&& match wanted {
        Some(w) => tags_match(l.tags, w),
        None => true,
    }
    &&& match date {
        Some(d) => timestamp_date(l.date) == Some(d),
        None => true,
    }
}

/// The requested tags as a filter compares them: trimmed, empty ones dropped.
pub open spec fn wanted_tags(tags: Option<Vec<String>>) -> Option<Seq<Seq<char>>> {
    match tags {
        Some(v) => Some(clean_tags(strings_view(v@))),
        None => None,
    }
}

/// The links of `f` that pass the filters, in stored order.
pub open spec fn filter_view(
    f: FeedV,
    wanted: Option<Seq<Seq<char>>>,
    date: Option<CalendarDate>,
) -> FeedV {
    FeedV { links: kept(f.links, wanted, date), ..f }
}

/// The links that pass the filters, in their order.
pub open spec fn kept(
    links: Seq<LinkV>,
    wanted: Option<Seq<Seq<char>>>,
    date: Option<CalendarDate>,
) -> Seq<LinkV> {
    links.filter(|l: LinkV| keep_link(l, wanted, date))
}

fn number_in(cs: &Vec<char>, i: usize, n: usize) -> (r: u32)
    requires
        i + n <= cs@.len() <= 20,
        n <= 4,
        digits_at(cs@, i as int, n as int),
    ensures
        r == number_at(cs@, i as int, n as nat),
        r < 10000,
{
    let mut v: u32 = 0;
    let mut k: usize = 0;
    while k < n
        invariant
            k <= n,
            i + n <= cs@.len() <= 20,
            n <= 4,
            digits_at(cs@, i as int, n as int),
            v == number_at(cs@, i as int, k as nat),
            v < 10000,
            k < 4 ==> v < 1000,
            k < 3 ==> v < 100,
            k < 2 ==> v < 10,
            k == 0 ==> v == 0,
        decreases n - k,
    {
        let c = cs[i + k];
        assert(is_digit(cs@[i + k]));
        v = v * 10 + (c as u32 - 48);
        k = k + 1;
    }
    v
}

fn all_digits(cs: &Vec<char>, i: usize, n: usize) -> (r: bool)
    requires
        i + n <= cs@.len() <= 20,
    ensures
        r == digits_at(cs@, i as int, n as int),
{
    let mut k: usize = 0;
    while k < n
        invariant
            k <= n,
            i + n <= cs@.len() <= 20,
            digits_at(cs@, i as int, k as int),
        decreases n - k,
    {
        let c = cs[i + k];
        if !('0' <= c && c <= '9') {
            return false;
        }
        k = k + 1;
    }
    true
}

fn sign_width(cs: &Vec<char>) -> (r: usize)
    ensures
        r == sign_len(cs@),
{
    if cs.len() > 0 && (cs[0] == '+' || cs[0] == '-') {
        1
    } else {
        0
    }
}

fn date_prefix(cs: &Vec<char>) -> (r: Option<CalendarDate>)
    requires
        sign_len(cs@) + 10 <= cs@.len() <= 20,
    ensures
        r == date_at(cs@),
{
    let o = sign_width(cs);
    if !(all_digits(cs, o, 4) && cs[o + 4] == '-' && all_digits(cs, o + 5, 2) && cs[o + 7] == '-'
        && all_digits(cs, o + 8, 2)) {
        return None;
    }
    let digits = number_in(cs, o, 4);
    let month = number_in(cs, o + 5, 2);
    let day = number_in(cs, o + 8, 2);
    let leap = (digits % 4 == 0 && digits % 100 != 0) || digits % 400 == 0;
    let month_days: u32 = if month == 2 {
        if leap {
            29
        } else {
            28
        }
    } else if month == 4 || month == 6 || month == 9 || month == 11 {
        30
    } else {
        31
    };
    if 1 <= month && month <= 12 && 1 <= day && day <= month_days {
        let year: i32 = if cs[0] == '-' {
            -(digits as i32)
        } else {
            digits as i32
        };
        Some(CalendarDate { year, month: month as u8, day: day as u8 })
    } else {
        None
    }
}

/// The calendar date of a stored timestamp in the fixed format
/// `YYYY-MM-DD HH:MM:SS`, the year optionally signed; none if `s` is not a
/// valid one.
pub fn parse_timestamp_date(s: &str) -> (r: Option<CalendarDate>)
    ensures
        r == timestamp_date(s@),
{
    let cs = chars_of(s);
    let o = sign_width(&cs);
    if cs.len() != o + 19 {
        return None;
    }
    if !(cs[o + 10] == ' ' && all_digits(&cs, o + 11, 2) && cs[o + 13] == ':' && all_digits(
        &cs,
        o + 14,
        2,
    ) && cs[o + 16] == ':' && all_digits(&cs, o + 17, 2)) {
        return None;
    }
    let hour = number_in(&cs, o + 11, 2);
    let minute = number_in(&cs, o + 14, 2);
    let second = number_in(&cs, o + 17, 2);
    if hour < 24 && minute < 60 && second < 60 {
        date_prefix(&cs)
    } else {
        None
    }
}

/// A date given as `YYYY-MM-DD`, the year optionally signed, surrounding
/// white space ignored; the digits must all be there and name an existing day.
pub fn parse_date(s: &str) -> (r: Result<CalendarDate, String>)
    ensures
        match date_text(trimmed(s@)) {
            Some(d) => r == Ok::<CalendarDate, String>(d),
            None => r is Err,
        },
{
    let t = trim(s);
    let cs = chars_of(t.as_str());
    let o = sign_width(&cs);
    let found = if cs.len() == o + 10 {
        date_prefix(&cs)
    } else {
        None
    };
    match found {
        Some(d) => Ok(d),
        None => Err(String::from_str("invalid date: expected an existing day written YYYY-MM-DD")),
    }
}

fn tags_intersect(tags: &Vec<String>, wanted: &Vec<String>) -> (r: bool)
    ensures
        r == tags_match(strings_view(tags@), strings_view(wanted@)),
{
    let ghost tv = strings_view(tags@);
    let ghost wv = strings_view(wanted@);
    let mut i: usize = 0;
    while i < tags.len()
        invariant
            i <= tags@.len(),
            tv == strings_view(tags@),
            wv == strings_view(wanted@),
            forall|a: int, b: int|
                0 <= a < i && 0 <= b < wv.len() ==> #[trigger] ascii_lower(tv[a])
                    != #[trigger] ascii_lower(wv[b]),
        decreases tags.len() - i,
    {
        let mut j: usize = 0;
        while j < wanted.len()
            invariant
                i < tags@.len(),
                j <= wanted@.len(),
                tv == strings_view(tags@),
                wv == strings_view(wanted@),
                forall|a: int, b: int|
                    0 <= a < i && 0 <= b < wv.len() ==> #[trigger] ascii_lower(tv[a])
                        != #[trigger] ascii_lower(wv[b]),
                forall|b: int| 0 <= b < j ==> ascii_lower(tv[i as int]) != #[trigger] ascii_lower(wv[b]),
            decreases wanted.len() - j,
        {
            if eq_ignore_ascii_case(tags[i].as_str(), wanted[j].as_str()) {
                assert(ascii_lower(tv[i as int]) == ascii_lower(wv[j as int]));
                return true;
            }
            j = j + 1;
        }
        i = i + 1;
    }
    false
}

fn keep(l: &Link, wanted: &Option<Vec<String>>, date: Option<CalendarDate>) -> (r: bool)
    ensures
        r == keep_link(
            l@,
            match wanted {
                Some(w) => Some(strings_view(w@)),
                None => None,
            },
            date,
        ),
{
    let tag_ok = match wanted {
        Some(w) => tags_intersect(&l.tags, w),
        None => true,
    };
    let date_ok = match date {
        Some(d) => match parse_timestamp_date(l.date.as_str()) {
            Some(x) => x == d,
            None => false,
        },
        None => true,
    };
    tag_ok && date_ok
}

/// The feed with only the links that pass the filters, in stored order; title
/// and version unchanged. With `tags`, a link passes when one of its tags
/// equals, ignoring ASCII case, one of the requested tags (trimmed, empty ones
/// dropped). With `date`, a link passes when its timestamp parses and falls on
/// that date; a timestamp that does not parse never passes.
pub fn filter_feed(feed: Feed, tags: Option<Vec<String>>, date: Option<CalendarDate>) -> (r: Feed)
    ensures
        r@ == filter_view(feed@, wanted_tags(tags), date),
{
    let wanted = match &tags {
        Some(t) => Some(normalize_tags(t)),
        None => None,
    };
    let ghost wv = wanted_tags(tags);
    assert(wv == match wanted {
        Some(w) => Some(strings_view(w@)),
        None => None::<Seq<Seq<char>>>,
    });
    let ghost lv = links_view(feed.links@);
    let mut out: Vec<Link> = Vec::new();
    let mut i: usize = 0;
    while i < feed.links.len()
        invariant
            i <= feed.links@.len(),
            lv == links_view(feed.links@),
            wv == match wanted {
                Some(w) => Some(strings_view(w@)),
                None => None::<Seq<Seq<char>>>,
            },
            links_view(out@) == kept(lv.take(i as int), wv, date),
        decreases feed.links.len() - i,
    {
        let ghost before = out@;
        proof {
            let t = lv.take(i + 1);
            assert(t.drop_last() =~= lv.take(i as int));
            assert(t.last() == lv[i as int]);
            assert(lv[i as int] == feed.links@[i as int]@);
            assert(kept(t, wv, date) == if keep_link(lv[i as int], wv, date) {
                kept(lv.take(i as int), wv, date).push(lv[i as int])
            } else {
                kept(lv.take(i as int), wv, date)
            }) by {
                reveal(Seq::filter);
            }
        }
        if keep(&feed.links[i], &wanted, date) {
            out.push(feed.links[i].duplicate());
            assert(links_view(out@) =~= links_view(before).push(lv[i as int]));
        }
        i = i + 1;
    }
    assert(lv.take(lv.len() as int) =~= lv);
    Feed { title: feed.title, version: feed.version, links: out }
}

/// The filtered view of a loaded feed; a failed load is handed on unchanged,
/// a missing file included.
pub fn list(loaded: Result<Feed, FeedError>, tags: Option<Vec<String>>, date: Option<CalendarDate>) -> (r: Result<Feed, FeedError>)
    ensures
        match loaded {
            Ok(f) => r matches Ok(x) && x@ == filter_view(f@, wanted_tags(tags), date),
            Err(e) => r == Err::<Feed, FeedError>(e),
        },
{
    match loaded {
        Ok(f) => Ok(filter_feed(f, tags, date)),
        Err(e) => Err(e),
    }
}

} // verus!
