//! When a photo was taken: dates read from EXIF text and from file names.
//!
//! A moment is `(seconds, nanoseconds)` since the Unix epoch, UTC.
use vstd::prelude::*;

use crate::filenames::{last_dot, last_dot_exec, lemma_last_dot_range, lemma_last_dot_unique, trim, trim_chars};
use crate::text::{chars_range, str_chars, string_from_chars, string_push};

verus! {

/// What `chrono::NaiveDateTime::parse_from_str(s, fmt)` gives, read as UTC:
/// `(timestamp, subsecond nanoseconds)`, or `None` when it fails.
pub uninterp spec fn naive_datetime_parse(s: Seq<char>, fmt: Seq<char>) -> Option<(i64, u32)>;

/// What `chrono::NaiveDate::parse_from_str(s, fmt)` gives, at midnight UTC:
/// `(timestamp, 0)`, or `None` when it fails.
pub uninterp spec fn naive_date_parse(s: Seq<char>, fmt: Seq<char>) -> Option<(i64, u32)>;

/// `chrono::NaiveDateTime::parse_from_str`, then `and_utc()`.
#[verifier::external_body]
fn parse_naive_datetime(s: &str, fmt: &str) -> (r: Option<(i64, u32)>)
    ensures
        r == naive_datetime_parse(s@, fmt@),
{
    match chrono::NaiveDateTime::parse_from_str(s, fmt) {
        Ok(dt) => Some((dt.and_utc().timestamp(), dt.and_utc().timestamp_subsec_nanos())),
        Err(_) => None,
    }
}

/// `chrono::NaiveDate::parse_from_str`, then `and_hms_opt(0, 0, 0)` and `and_utc()`.
#[verifier::external_body]
fn parse_naive_date(s: &str, fmt: &str) -> (r: Option<(i64, u32)>)
    ensures
        r == naive_date_parse(s@, fmt@),
{
    match chrono::NaiveDate::parse_from_str(s, fmt) {
        Ok(d) => match d.and_hms_opt(0, 0, 0) {
            Some(dt) => Some((dt.and_utc().timestamp(), dt.and_utc().timestamp_subsec_nanos())),
            None => None,
        },
        Err(_) => None,
    }
}

/// First second of 1970-01-01 UTC.
pub const YEAR_1970_START: i64 = 0;

/// First second of 2101-01-01 UTC (131 years, 32 of them leap years).
pub const YEAR_2101_START: i64 = 4_133_980_800;

/// A moment in the years 1970 through 2100.
pub open spec fn in_plausible_years(t: (i64, u32)) -> bool {
    YEAR_1970_START <= t.0 < YEAR_2101_START
}

/// The date a file name gives, from the parse of its first 14 digits as
/// `YYYYMMDDHHMMSS` (`full`, absent with fewer digits) and of its first 8 as
/// `YYYYMMDD` (`day`, absent with fewer digits): the first that succeeds
/// within the years 1970 to 2100.
pub open spec fn pick_filename_date(full: Option<(i64, u32)>, day: Option<(i64, u32)>) -> Option<(i64, u32)> {
    match full {
        Some(t) if in_plausible_years(t) => Some(t),
        _ => match day {
            Some(t) if in_plausible_years(t) => Some(t),
            _ => None,
        },
    }
}

/// The choice between the two parses of a file name's digits.
pub fn filename_date_from_parses(full: Option<(i64, u32)>, day: Option<(i64, u32)>) -> (r: Option<(i64, u32)>)
    ensures
        r == pick_filename_date(full, day),
{
    match full {
        Some(t) => {
            if YEAR_1970_START <= t.0 && t.0 < YEAR_2101_START {
                return Some(t);
            }
        },
        None => {},
    }
    match day {
        Some(t) => {
            if YEAR_1970_START <= t.0 && t.0 < YEAR_2101_START {
                Some(t)
            } else {
                None
            }
        },
        None => None,
    }
}

/// What follows the last `/` or `\` of `s`.
pub open spec fn after_last_separator(s: Seq<char>) -> Seq<char>
    decreases s.len(),
{
    if s.len() == 0 {
        s
    } else if s.last() == '/' || s.last() == '\\' {
        Seq::empty()
    } else {
        after_last_separator(s.drop_last()).push(s.last())
    }
}

/// `s` without its last `.` and what follows it (the whole of `s` without a `.`).
pub open spec fn stem(s: Seq<char>) -> Seq<char> {
    s.subrange(0, last_dot(s))
}

/// The ASCII digits of `s`, in order.
pub open spec fn ascii_digits(s: Seq<char>) -> Seq<char>
    decreases s.len(),
{
    if s.len() == 0 {
        s
    } else if '0' <= s.last() && s.last() <= '9' {
        ascii_digits(s.drop_last()).push(s.last())
    } else {
        ascii_digits(s.drop_last())
    }
}

/// The digits of a file name's stem, from which its date is read.
pub open spec fn filename_digits(filename: Seq<char>) -> Seq<char> {
    ascii_digits(stem(after_last_separator(filename)))
}

/// The date in a file name such as `IMG_20240115_134530.jpg`,
/// `Screenshot_20240115-134530.png` or `PXL_20240115_134530123.jpg`:
/// the first 14 digits of the stem as date and time, else the first 8 as a date.
pub open spec fn filename_date(filename: Seq<char>) -> Option<(i64, u32)> {
    let d = filename_digits(filename);
    pick_filename_date(
        if d.len() >= 14 {
            naive_datetime_parse(d.subrange(0, 14), "%Y%m%d%H%M%S"@)
        } else {
            None
        },
        if d.len() >= 8 {
            naive_date_parse(d.subrange(0, 8), "%Y%m%d"@)
        } else {
            None
        },
    )
}

fn after_last_separator_exec(s: &Vec<char>) -> (r: Vec<char>)
    ensures
        r@ == after_last_separator(s@),
{
    let mut i: usize = s.len();
    proof {
        assert(s@.take(i as int) =~= s@);
        assert(s@ + s@.subrange(i as int, s@.len() as int) =~= s@);
    }
    while i > 0 && s[i - 1] != '/' && s[i - 1] != '\\'
        invariant
            i <= s@.len(),
            after_last_separator(s@) == after_last_separator(s@.take(i as int)) + s@.subrange(
                i as int,
                s@.len() as int,
            ),
        decreases i,
    {
        proof {
            let t = s@.take(i as int);
            assert(t.drop_last() =~= s@.take(i - 1));
            assert(t.last() == s@[i - 1]);
            assert(s@.subrange(i - 1, s@.len() as int) =~= seq![s@[i - 1]] + s@.subrange(
                i as int,
                s@.len() as int,
            ));
            assert(after_last_separator(t) =~= after_last_separator(s@.take(i - 1)).push(s@[i - 1]));
        }
        i = i - 1;
    }
    proof {
        if i > 0 {
            assert(s@.take(i as int).last() == s@[i - 1]);
            assert(after_last_separator(s@.take(i as int)) =~= Seq::<char>::empty());
        } else {
            assert(s@.take(0) =~= Seq::<char>::empty());
        }
        assert(after_last_separator(s@) =~= s@.subrange(i as int, s@.len() as int));
    }
    chars_range(s, i, s.len())
}

fn ascii_digits_exec(s: &Vec<char>) -> (r: Vec<char>)
    ensures
        r@ == ascii_digits(s@),
{
    let mut r: Vec<char> = Vec::new();
    let mut i: usize = 0;
    while i < s.len()
        invariant
            i <= s@.len(),
            r@ == ascii_digits(s@.take(i as int)),
        decreases s@.len() - i,
    {
        let c = s[i];
        proof {
            assert(s@.take(i + 1).drop_last() =~= s@.take(i as int));
        }
        if '0' <= c && c <= '9' {
            r.push(c);
        }
        i = i + 1;
    }
    proof {
        assert(s@.take(s@.len() as int) =~= s@);
    }
    r
}

/// The digits of a file name's stem.
fn filename_digits_exec(filename: &str) -> (r: Vec<char>)
    ensures
        r@ == filename_digits(filename@),
{
    let cs = str_chars(filename);
    let name = after_last_separator_exec(&cs);
    let d = last_dot_exec(&name);
    proof {
        lemma_last_dot_range(name@);
    }
    let st = chars_range(&name, 0, d);
    ascii_digits_exec(&st)
}

/// Try to extract a date from the filename using common patterns:
///   - IMG_20240115_134530.jpg
///   - 20240115_134530.jpg
///   - 2024-01-15_13-45-30.jpg
///   - VID_20240115_134530.mp4
///   - Screenshot_20240115-134530.png
///   - PXL_20240115_134530123.jpg (Pixel phones, extra ms digits)
pub fn parse_date_from_filename(filename: &str) -> (r: Option<(i64, u32)>)
    ensures
        r == filename_date(filename@),
{
    let digits = filename_digits_exec(filename);
    let full = if digits.len() >= 14 {
        let head = string_from_chars(&chars_range(&digits, 0, 14));
        parse_naive_datetime(head.as_str(), "%Y%m%d%H%M%S")
    } else {
        None
    };
    let day = if digits.len() >= 8 {
        let head = string_from_chars(&chars_range(&digits, 0, 8));
        parse_naive_date(head.as_str(), "%Y%m%d")
    } else {
        None
    };
    filename_date_from_parses(full, day)
}

/// `s` with every `/` replaced by `-`.
pub open spec fn slashes_to_dashes(s: Seq<char>) -> Seq<char> {
    s.map_values(|c: char| if c == '/' { '-' } else { c })
}

/// The EXIF text as the date parsers see it: trimmed, `/` read as `-`.
pub open spec fn exif_normalized(s: Seq<char>) -> Seq<char> {
    slashes_to_dashes(trim(s))
}

/// The date an EXIF date text gives: the first of
/// `YYYY:MM:DD HH:MM:SS`, `YYYY-MM-DD HH:MM:SS`, `YYYY:MM:DD`, `YYYY-MM-DD`
/// that parses.
pub open spec fn exif_date(s: Seq<char>) -> Option<(i64, u32)> {
    let n = exif_normalized(s);
    first_of(
        naive_datetime_parse(n, "%Y:%m:%d %H:%M:%S"@),
        naive_datetime_parse(n, "%Y-%m-%d %H:%M:%S"@),
        naive_date_parse(n, "%Y:%m:%d"@),
        naive_date_parse(n, "%Y-%m-%d"@),
    )
}

/// The first of four parse results that succeeded.
pub open spec fn first_of(
    a: Option<(i64, u32)>,
    b: Option<(i64, u32)>,
    c: Option<(i64, u32)>,
    d: Option<(i64, u32)>,
) -> Option<(i64, u32)> {
    if a is Some {
        a
    } else if b is Some {
        b
    } else if c is Some {
        c
    } else {
        d
    }
}

/// The first of the four EXIF format attempts that succeeded.
pub fn exif_date_from_parses(
    a: Option<(i64, u32)>,
    b: Option<(i64, u32)>,
    c: Option<(i64, u32)>,
    d: Option<(i64, u32)>,
) -> (r: Option<(i64, u32)>)
    ensures
        r == first_of(a, b, c, d),
{
    if a.is_some() {
        a
    } else if b.is_some() {
        b
    } else if c.is_some() {
        c
    } else {
        d
    }
}

/// Parse an EXIF datetime string like "2024-01-15 13:45:30" or "2024:01:15 13:45:30"
/// into a UTC moment.
pub fn parse_exif_datetime(s: &str) -> (r: Option<(i64, u32)>)
    ensures
        r == exif_date(s@),
{
    let t = trim_chars(&str_chars(s));
    let mut n = String::new();
    let mut i: usize = 0;
    while i < t.len()
        invariant
            i <= t@.len(),
            t@ == trim(s@),
            n@ == slashes_to_dashes(t@.take(i as int)),
        decreases t@.len() - i,
    {
        let c = t[i];
        if c == '/' {
            string_push(&mut n, '-');
        } else {
            string_push(&mut n, c);
        }
        proof {
            assert(slashes_to_dashes(t@.take(i + 1)) =~= slashes_to_dashes(t@.take(i as int)).push(
                if c == '/' {
                    '-'
                } else {
                    c
                },
            ));
        }
        i = i + 1;
    }
    proof {
        assert(t@.take(t@.len() as int) =~= t@);
    }
    let a = parse_naive_datetime(n.as_str(), "%Y:%m:%d %H:%M:%S");
    let b = parse_naive_datetime(n.as_str(), "%Y-%m-%d %H:%M:%S");
    let c = parse_naive_date(n.as_str(), "%Y:%m:%d");
    let d = parse_naive_date(n.as_str(), "%Y-%m-%d");
    exif_date_from_parses(a, b, c, d)
}

/// The first EXIF date among `texts` that parses; `texts` are the display
/// values of DateTimeOriginal, DateTimeDigitized and DateTime, in that order,
/// absent where the tag is.
pub open spec fn first_exif_date(texts: Seq<Option<Seq<char>>>) -> Option<(i64, u32)>
    decreases texts.len(),
{
    if texts.len() == 0 {
        None
    } else {
        match texts[0] {
            Some(t) if exif_date(t) is Some => exif_date(t),
            _ => first_exif_date(texts.drop_first()),
        }
    }
}

pub open spec fn opt_views(v: Seq<Option<String>>) -> Seq<Option<Seq<char>>> {
    v.map_values(|o: Option<String>| match o {
        Some(s) => Some(s@),
        None => None,
    })
}

/// The capture date of a photo from its EXIF date tags.
pub fn exif_capture_date(texts: &Vec<Option<String>>) -> (r: Option<(i64, u32)>)
    ensures
        r == first_exif_date(opt_views(texts@)),
{
    let ghost all = opt_views(texts@);
    let mut i: usize = 0;
    proof {
        assert(all.skip(0) =~= all);
    }
    while i < texts.len()
        invariant
            i <= texts@.len(),
            all == opt_views(texts@),
            first_exif_date(all) == first_exif_date(all.skip(i as int)),
        decreases texts@.len() - i,
    {
        proof {
            assert(all.skip(i as int).drop_first() =~= all.skip(i + 1));
            assert(all.skip(i as int)[0] == all[i as int]);
        }
        match &texts[i] {
            Some(t) => {
                let d = parse_exif_datetime(t.as_str());
                if d.is_some() {
                    return d;
                }
            },
            None => {},
        }
        i = i + 1;
    }
    proof {
        assert(all.skip(i as int) =~= Seq::<Option<Seq<char>>>::empty());
    }
    None
}

/// A date tag text that parses as an EXIF date.
pub open spec fn parses_as_date(o: Option<Seq<char>>) -> bool {
    o matches Some(t) && exif_date(t) is Some
}

/// The capture date is read from the first tag text, in the order given
/// (DateTimeOriginal, DateTimeDigitized, DateTime), that parses: when the
/// text at `i` parses and none before it does, the date is that text's,
/// whatever later texts hold.
pub proof fn law_first_parsable_date_wins(texts: Seq<Option<Seq<char>>>, i: int)
    requires
        0 <= i < texts.len(),
        parses_as_date(texts[i]),
        forall|j: int| 0 <= j < i ==> !parses_as_date(#[trigger] texts[j]),
    ensures
        first_exif_date(texts) == exif_date(texts[i]->0),
    decreases i,
{
    if i > 0 {
        let rest = texts.drop_first();
        assert(!parses_as_date(texts[0]));
        assert forall|j: int| 0 <= j < i - 1 implies !parses_as_date(#[trigger] rest[j]) by {
            assert(rest[j] == texts[j + 1]);
        }
        assert(rest[i - 1] == texts[i]);
        law_first_parsable_date_wins(rest, i - 1);
    }
}

/// Without a tag text that parses there is no capture date.
pub proof fn law_no_parsable_date(texts: Seq<Option<Seq<char>>>)
    requires
        forall|j: int| 0 <= j < texts.len() ==> !parses_as_date(#[trigger] texts[j]),
    ensures
        first_exif_date(texts) is None,
    decreases texts.len(),
{
    if texts.len() > 0 {
        let rest = texts.drop_first();
        assert(!parses_as_date(texts[0]));
        assert forall|j: int| 0 <= j < rest.len() implies !parses_as_date(#[trigger] rest[j]) by {
            assert(rest[j] == texts[j + 1]);
        }
        law_no_parsable_date(rest);
    }
}

/// A text without path separators appended to a path keeps what follows the
/// last separator, followed by the text.
proof fn lemma_after_separator_append(s: Seq<char>, t: Seq<char>)
    requires
        forall|j: int| 0 <= j < t.len() ==> t[j] != '/' && t[j] != '\\',
    ensures
        after_last_separator(s + t) == after_last_separator(s) + t,
    decreases t.len(),
{
    if t.len() == 0 {
        assert(s + t =~= s);
        assert(after_last_separator(s) + t =~= after_last_separator(s));
    } else {
        let u = t.drop_last();
        lemma_after_separator_append(s, u);
        assert((s + t).drop_last() =~= s + u);
        assert((s + t).last() == t.last());
        assert(after_last_separator(s) + t =~= (after_last_separator(s) + u).push(t.last()));
    }
}

/// The digits a file name's date is read from are those of its name before
/// the extension: for a path `n` followed by `.` and an extension `e` without
/// a dot or separator, they are the digits of `n` after its last separator,
/// dots and all, and the same as for `n` followed by `.jpg`.
pub proof fn law_filename_digits_before_extension(n: Seq<char>, e: Seq<char>)
    requires
        forall|j: int| 0 <= j < e.len() ==> e[j] != '.' && e[j] != '/' && e[j] != '\\',
    ensures
        filename_digits(n + seq!['.'] + e) == ascii_digits(after_last_separator(n)),
        filename_digits(n + seq!['.'] + e) == filename_digits(n + ".jpg"@),
{
    lemma_digits_before_extension(n, e);
    reveal_strlit(".jpg");
    let jpg = seq!['j', 'p', 'g'];
    assert(n + ".jpg"@ =~= n + seq!['.'] + jpg);
    lemma_digits_before_extension(n, jpg);
}

proof fn lemma_digits_before_extension(n: Seq<char>, e: Seq<char>)
    requires
        forall|j: int| 0 <= j < e.len() ==> e[j] != '.' && e[j] != '/' && e[j] != '\\',
    ensures
        filename_digits(n + seq!['.'] + e) == ascii_digits(after_last_separator(n)),
{
    let tail = seq!['.'] + e;
    assert forall|j: int| 0 <= j < tail.len() implies tail[j] != '/' && tail[j] != '\\' by {
        if j > 0 {
            assert(tail[j] == e[j - 1]);
        }
    }
    assert(n + seq!['.'] + e =~= n + tail);
    lemma_after_separator_append(n, tail);
    let m = after_last_separator(n);
    let name = m + tail;
    assert forall|j: int| m.len() < j < name.len() implies name[j] != '.' by {
        assert(name[j] == e[j - m.len() - 1]);
    }
    assert(name[m.len() as int] == '.');
    lemma_last_dot_unique(name, m.len() as int);
    assert(name.subrange(0, m.len() as int) =~= m);
}

} // verus!
