//! Dates: finding a receipt date in OCR text, and grouping the annotated
//! images by date in calendar order.

use chrono::Datelike;
use vstd::prelude::*;
use crate::annotations::{effective_date, AnnotationView, Annotations, FileAnnotation};
use crate::text::{
    chars_lex_le, chars_of, copy_string, decimal, decimal_pad2, decimal_pad2_chars, digit_char,
    digits_value, is_ascii_digit, lemma_lex_antisym,
    lemma_lex_total, lemma_lex_trans, lex_lt, opt_view, parse_u32, parse_u32_spec,
    push_chars, string_from_chars, trim_chars, trim_spec,
};

verus! {

broadcast use vstd::seq_lib::group_to_multiset_ensures;

// ---------------------------------------------------------------------------
// Finding a date in OCR text
// ---------------------------------------------------------------------------

/// Day, month and four-digit year, separated by `-` or `/`, as whole words.
pub const FULL_DATE_PATTERN: &'static str = "\\b(\\d{1,2})[-/](\\d{1,2})[-/](\\d{4})\\b";

/// Day, month and two-digit year, separated by `-` or `/`, as whole words.
pub const SHORT_DATE_PATTERN: &'static str = "\\b(\\d{1,2})[-/](\\d{1,2})[-/](\\d{2})\\b";

/// What the `regex` crate reports for the leftmost-first match of `pattern`
/// in `text`: the text of every capture group (group 0 is the whole match,
/// a group that took no part is `None`); `None` when nothing matches or the
/// pattern does not compile.
pub uninterp spec fn regex_captures(pattern: Seq<char>, text: Seq<char>) -> Option<Seq<Option<Seq<char>>>>;

/// The view of the capture groups handed back by the `regex` crate.
pub open spec fn groups_view(g: Option<Vec<Option<String>>>) -> Option<Seq<Option<Seq<char>>>> {
    match g {
        Some(v) => Some(v@.map_values(|x: Option<String>| opt_view(x))),
        None => None,
    }
}

/// Compiles `pattern` with `regex::Regex::new` and runs `Regex::captures` on
/// `text`, handing back the text of each capture group. The contract says
/// only that the result is the one the `regex` crate gives for these two
/// strings; what a regular expression matches is not stated.
#[verifier::external_body]
fn first_match_groups(pattern: &str, text: &str) -> (r: Option<Vec<Option<String>>>)
    ensures
        groups_view(r) == regex_captures(pattern@, text@),
{
    match regex::Regex::new(pattern) {
        Ok(re) => re.captures(text).map(|c| c.iter().map(|m| m.map(|m| m.as_str().to_string())).collect()),
        Err(_) => None,
    }
}

/// Whether a match has the three groups that the date patterns capture.
pub open spec fn has_date_groups(g: Seq<Option<Seq<char>>>) -> bool {
    &&& g.len() >= 4
    &&& g[1] is Some
    &&& g[2] is Some
    &&& g[3] is Some
}

/// The date written as `DD-MM-<century><year>` from the captured day, month
/// and year, when the day is in 1..=31 and the month in 1..=12 (a part that
/// does not parse as a number counts as 99).
pub open spec fn date_from_parts(day: Seq<char>, month: Seq<char>, year: Seq<char>, century: Seq<char>) -> Option<Seq<char>> {
    let d = match parse_u32_spec(day) {
        Some(v) => v,
        None => 99,
    };
    let m = match parse_u32_spec(month) {
        Some(v) => v,
        None => 99,
    };
    if 1 <= d <= 31 && 1 <= m <= 12 {
        Some(decimal_pad2(d as nat) + seq!['-'] + decimal_pad2(m as nat) + seq!['-'] + century + year)
    } else {
        None
    }
}

/// The date found by one pattern's match, if any.
pub open spec fn date_from_match(groups: Option<Seq<Option<Seq<char>>>>, century: Seq<char>) -> Option<Seq<char>> {
    match groups {
        Some(g) => if has_date_groups(g) {
            date_from_parts(g[1]->Some_0, g[2]->Some_0, g[3]->Some_0, century)
        } else {
            None
        },
        None => None,
    }
}

/// The date read from OCR text, given what each pattern matched in the
/// trimmed text: the four-digit-year form first, then the two-digit-year
/// form, whose year is taken to be in the 2000s.
pub open spec fn date_from_matches(full: Option<Seq<Option<Seq<char>>>>, short: Option<Seq<Option<Seq<char>>>>) -> Option<Seq<char>> {
    match date_from_match(full, seq![]) {
        Some(d) => Some(d),
        None => date_from_match(short, seq!['2', '0']),
    }
}

/// The date `parse_date` reads from `text`.
pub open spec fn parse_date_spec(text: Seq<char>) -> Option<Seq<char>> {
    let t = trim_spec(text);
    date_from_matches(
        regex_captures(FULL_DATE_PATTERN@, t),
        regex_captures(SHORT_DATE_PATTERN@, t),
    )
}

/// Formats the date of one match from its captured day, month and year.
pub fn date_from_groups(groups: &Vec<Option<String>>, century: &str) -> (r: Option<String>)
    requires
        has_date_groups(groups@.map_values(|x: Option<String>| opt_view(x))),
    ensures
        opt_view(r) == date_from_match(groups_view(Some(*groups)), century@),
{
    let ghost g = groups@.map_values(|x: Option<String>| opt_view(x));
    assert(g[1] == opt_view(groups@[1]));
    assert(g[2] == opt_view(groups@[2]));
    assert(g[3] == opt_view(groups@[3]));
    let day = match &groups[1] {
        Some(s) => chars_of(s.as_str()),
        None => Vec::new(),
    };
    let month = match &groups[2] {
        Some(s) => chars_of(s.as_str()),
        None => Vec::new(),
    };
    let year = match &groups[3] {
        Some(s) => chars_of(s.as_str()),
        None => Vec::new(),
    };
    let d: u32 = match parse_u32(&day) {
        Some(v) => v,
        None => 99,
    };
    let m: u32 = match parse_u32(&month) {
        Some(v) => v,
        None => 99,
    };
    if 1 <= d && d <= 31 && 1 <= m && m <= 12 {
        let mut out = decimal_pad2_chars(d as u64);
        out.push('-');
        let mm = decimal_pad2_chars(m as u64);
        push_chars(&mut out, &mm);
        out.push('-');
        let c = chars_of(century);
        push_chars(&mut out, &c);
        push_chars(&mut out, &year);
        Some(string_from_chars(&out))
    } else {
        None
    }
}

/// The date found by one pattern's match, if any: the match counts only
/// when it has the three date groups.
fn date_of_groups(groups: Option<Vec<Option<String>>>, century: &str) -> (r: Option<String>)
    ensures
        opt_view(r) == date_from_match(groups_view(groups), century@),
{
    match groups {
        None => None,
        Some(groups) => {
            let ghost g = groups@.map_values(|x: Option<String>| opt_view(x));
            let ok = groups.len() >= 4 && groups[1].is_some() && groups[2].is_some() && groups[3].is_some();
            proof {
                if groups@.len() >= 4 {
                    assert(g[1] == opt_view(groups@[1]));
                    assert(g[2] == opt_view(groups@[2]));
                    assert(g[3] == opt_view(groups@[3]));
                }
            }
            if ok {
                date_from_groups(&groups, century)
            } else {
                None
            }
        },
    }
}

/// The date read from what the two date patterns matched: the match with a
/// four-digit year when it gives a valid date, else the match with a
/// two-digit year, whose year is taken to be in the 2000s.
pub fn date_from_captures(full: Option<Vec<Option<String>>>, short: Option<Vec<Option<String>>>) -> (r: Option<String>)
    ensures
        opt_view(r) == date_from_matches(groups_view(full), groups_view(short)),
{
    proof {
        reveal_strlit("");
        reveal_strlit("20");
    }
    match date_of_groups(full, "") {
        Some(d) => Some(d),
        None => date_of_groups(short, "20"),
    }
}

/// The receipt date in OCR text, as `DD-MM-YYYY`: the first day-month-year
/// match with a four-digit year, else the first with a two-digit year (read
/// as 20YY), provided its day is 1..=31 and its month 1..=12.
pub fn parse_date(text: &str) -> (r: Option<String>)
    ensures
        opt_view(r) == parse_date_spec(text@),
{
    let t = string_from_chars(&trim_chars(&chars_of(text)));
    let full = first_match_groups(FULL_DATE_PATTERN, t.as_str());
    let short = first_match_groups(SHORT_DATE_PATTERN, t.as_str());
    date_from_captures(full, short)
}

proof fn lemma_pad2(n: nat)
    requires
        n < 100,
    ensures
        decimal_pad2(n).len() == 2,
        digits_value(decimal_pad2(n)) == n,
        is_ascii_digit(decimal_pad2(n)[0]),
        is_ascii_digit(decimal_pad2(n)[1]),
{
    let p = decimal_pad2(n);
    let hi: nat = if n >= 10 { n / 10 } else { 0 };
    let lo: nat = if n >= 10 { n % 10 } else { n };
    assert((digit_char(hi) as u32) == hi + 48);
    assert((digit_char(lo) as u32) == lo + 48);
    assert(('0' as u32) == 48);
    if n >= 10 {
        assert(decimal(n / 10) == seq![digit_char(n / 10)]);
        assert(p =~= seq![digit_char(n / 10), digit_char(n % 10)]);
    }
    assert(p =~= seq![if n >= 10 { digit_char(hi) } else { '0' }, digit_char(lo)]);
    assert(p.drop_last() =~= seq![p[0]]);
    assert(p.drop_last().drop_last() =~= Seq::<char>::empty());
    assert(digits_value(p.drop_last().drop_last()) == 0);
    assert(p.drop_last().last() == p[0]);
    assert((p[0] as u32) == hi + 48);
    assert(digits_value(p.drop_last()) == hi);
    assert(n == hi * 10 + lo);
}

/// Every date read from OCR text begins with a two-digit day in 01..=31,
/// `-`, a two-digit month in 01..=12, and `-`.
pub proof fn lemma_parsed_date_shape(text: Seq<char>)
    ensures
        parse_date_spec(text) matches Some(d) ==> {
            &&& d.len() >= 6
            &&& d[2] == '-' && d[5] == '-'
            &&& is_ascii_digit(d[0]) && is_ascii_digit(d[1]) && is_ascii_digit(d[3]) && is_ascii_digit(d[4])
            &&& 1 <= digits_value(d.take(2)) <= 31
            &&& 1 <= digits_value(d.subrange(3, 5)) <= 12
        },
{
    let t = trim_spec(text);
    let full = regex_captures(FULL_DATE_PATTERN@, t);
    let short = regex_captures(SHORT_DATE_PATTERN@, t);
    let r = if date_from_match(full, seq![]) is Some { full } else { short };
    let c: Seq<char> = if date_from_match(full, seq![]) is Some { seq![] } else { seq!['2', '0'] };
    if let Some(g) = r {
        if has_date_groups(g) {
            let day = match parse_u32_spec(g[1]->Some_0) { Some(v) => v, None => 99 };
            let month = match parse_u32_spec(g[2]->Some_0) { Some(v) => v, None => 99 };
            if 1 <= day <= 31 && 1 <= month <= 12 {
                lemma_pad2(day as nat);
                lemma_pad2(month as nat);
                let d = decimal_pad2(day as nat) + seq!['-'] + decimal_pad2(month as nat) + seq!['-'] + c + g[3]->Some_0;
                assert(d.take(2) =~= decimal_pad2(day as nat));
                assert(d.subrange(3, 5) =~= decimal_pad2(month as nat));
            }
        }
    }
}

// ---------------------------------------------------------------------------
// Grouping images by date
// ---------------------------------------------------------------------------

/// The images that have a date on the same day.
#[derive(Debug)]
pub struct DateGroup {
    pub date: String,
    pub files: Vec<String>,
}

/// The mathematical content of a `DateGroup`.
pub struct DateGroupView {
    pub date: Seq<char>,
    pub files: Seq<Seq<char>>,
}

impl View for DateGroup {
    type V = DateGroupView;

    open spec fn view(&self) -> DateGroupView {
        DateGroupView { date: self.date@, files: self.files@.map_values(|s: String| s@) }
    }
}

/// How the date strings are read as calendar dates.
pub const DATE_FORMAT: &'static str = "%d-%m-%Y";

/// Year, month and day of a calendar date; `None` for a string that is not
/// one.
pub type DateKey = Option<(i32, u32, u32)>;

/// What `chrono::NaiveDate::parse_from_str(s, fmt)` gives, as year, month
/// and day; `None` when it fails.
pub uninterp spec fn chrono_parse_date(s: Seq<char>, fmt: Seq<char>) -> DateKey;

/// Reads `s` as a calendar date in the format `fmt` with
/// `chrono::NaiveDate::parse_from_str`, handing back year, month and day.
/// The contract says only that the result is the one chrono gives for these
/// two strings; chrono's parsing rules are not stated.
#[verifier::external_body]
fn parse_calendar_date(s: &str, fmt: &str) -> (r: DateKey)
    ensures
        r == chrono_parse_date(s@, fmt@),
{
    match chrono::NaiveDate::parse_from_str(s, fmt) {
        Ok(d) => Some((d.year(), d.month(), d.day())),
        Err(_) => None,
    }
}

/// The calendar order of date keys; strings that are no date come first.
pub open spec fn key_lt(a: DateKey, b: DateKey) -> bool {
    match (a, b) {
        (None, Some(_)) => true,
        (Some(x), Some(y)) => x.0 < y.0 || (x.0 == y.0 && (x.1 < y.1 || (x.1 == y.1 && x.2 < y.2))),
        _ => false,
    }
}

/// The order of date groups: by calendar date, and dates that read as the
/// same day (or as none) by their text.
pub open spec fn date_before(x: (Seq<char>, DateKey), y: (Seq<char>, DateKey)) -> bool {
    key_lt(x.1, y.1) || (x.1 == y.1 && lex_lt(x.0, y.0))
}

proof fn lemma_before_trans(x: (Seq<char>, DateKey), y: (Seq<char>, DateKey), z: (Seq<char>, DateKey))
    requires
        date_before(x, y),
        date_before(y, z),
    ensures
        date_before(x, z),
{
    if x.1 == y.1 && y.1 == z.1 {
        lemma_lex_trans(x.0, y.0, z.0);
        if x.0 == z.0 {
            lemma_lex_antisym(x.0, y.0);
        }
    }
}

proof fn lemma_before_total(x: (Seq<char>, DateKey), y: (Seq<char>, DateKey))
    requires
        x.0 != y.0,
    ensures
        date_before(x, y) || date_before(y, x),
{
    lemma_lex_total(x.0, y.0);
}

/// A date and its key.
pub open spec fn keyed_view(p: (String, DateKey)) -> (Seq<char>, DateKey) {
    (p.0@, p.1)
}

/// Whether a sequence is strictly increasing in the group order.
pub open spec fn strictly_ordered(s: Seq<(Seq<char>, DateKey)>) -> bool {
    forall|i: int, j: int| 0 <= i < j < s.len() ==> date_before(#[trigger] s[i], #[trigger] s[j])
}

/// Whether no two entries have the same date text.
pub open spec fn distinct_texts(s: Seq<(Seq<char>, DateKey)>) -> bool {
    forall|i: int, j: int| 0 <= i < j < s.len() ==> (#[trigger] s[i]).0 != (#[trigger] s[j]).0
}

fn key_less(a: &DateKey, b: &DateKey) -> (r: bool)
    ensures
        r == key_lt(*a, *b),
{
    match (a, b) {
        (None, Some(_)) => true,
        (Some(x), Some(y)) => x.0 < y.0 || (x.0 == y.0 && (x.1 < y.1 || (x.1 == y.1 && x.2 < y.2))),
        _ => false,
    }
}

fn key_equal(a: &DateKey, b: &DateKey) -> (r: bool)
    ensures
        r == (*a == *b),
{
    match (a, b) {
        (None, None) => true,
        (Some(x), Some(y)) => x.0 == y.0 && x.1 == y.1 && x.2 == y.2,
        _ => false,
    }
}

/// Whether `x` comes before `y` in the group order.
fn before(x: &(String, DateKey), y: &(String, DateKey)) -> (r: bool)
    ensures
        r == date_before(keyed_view(*x), keyed_view(*y)),
{
    if key_less(&x.1, &y.1) {
        return true;
    }
    if !key_equal(&x.1, &y.1) {
        return false;
    }
    let a = chars_of(x.0.as_str());
    let b = chars_of(y.0.as_str());
    chars_lex_le(&a, &b) && !(x.0 == y.0)
}

/// Inserts `x` into the ordered vector `out`.
fn insert_keyed(out: &mut Vec<(String, DateKey)>, x: (String, DateKey))
    requires
        strictly_ordered(old(out)@.map_values(|p: (String, DateKey)| keyed_view(p))),
        forall|i: int| 0 <= i < old(out)@.len() ==> (#[trigger] old(out)@[i]).0@ != x.0@,
    ensures
        strictly_ordered(final(out)@.map_values(|p: (String, DateKey)| keyed_view(p))),
        final(out)@.map_values(|p: (String, DateKey)| keyed_view(p)).to_multiset()
            == old(out)@.map_values(|p: (String, DateKey)| keyed_view(p)).to_multiset().insert(keyed_view(x)),
{
    let ghost old_s = out@.map_values(|p: (String, DateKey)| keyed_view(p));
    let ghost xv = keyed_view(x);
    let mut pos: usize = 0;
    let mut found = false;
    while pos < out.len() && !found
        invariant
            pos <= out@.len(),
            out@ == old(out)@,
            old_s == out@.map_values(|p: (String, DateKey)| keyed_view(p)),
            xv == keyed_view(x),
            forall|j: int| 0 <= j < pos ==> date_before(#[trigger] old_s[j], xv),
            found ==> pos < out@.len() && !date_before(old_s[pos as int], xv),
        decreases out@.len() - pos, if found { 0int } else { 1int },
    {
        if !before(&out[pos], &x) {
            found = true;
        } else {
            pos = pos + 1;
        }
    }
    proof {
        if pos < out@.len() {
            assert(old_s[pos as int].0 == out@[pos as int].0@);
            lemma_before_total(old_s[pos as int], xv);
        }
    }
    out.insert(pos, x);
    let ghost new_s = out@.map_values(|p: (String, DateKey)| keyed_view(p));
    assert(new_s =~= old_s.insert(pos as int, xv));
    assert forall|i: int, j: int| 0 <= i < j < new_s.len() implies date_before(#[trigger] new_s[i], #[trigger] new_s[j]) by {
        if j < pos {
        } else if j == pos {
        } else if i < pos {
            lemma_before_trans(new_s[i], xv, old_s[pos as int]);
            if j - 1 > pos {
                lemma_before_trans(new_s[i], old_s[pos as int], old_s[j - 1]);
            }
        } else if i == pos {
            if j - 1 > pos {
                lemma_before_trans(xv, old_s[pos as int], old_s[j - 1]);
            }
        } else {
        }
    }
    assert(new_s.remove(pos as int) =~= old_s);
}

/// Puts dates, each with its calendar key, into the group order: by key,
/// then by text. The dates must be distinct.
pub fn order_dates(keyed: Vec<(String, DateKey)>) -> (r: Vec<(String, DateKey)>)
    requires
        distinct_texts(keyed@.map_values(|p: (String, DateKey)| keyed_view(p))),
    ensures
        strictly_ordered(r@.map_values(|p: (String, DateKey)| keyed_view(p))),
        r@.map_values(|p: (String, DateKey)| keyed_view(p)).to_multiset()
            == keyed@.map_values(|p: (String, DateKey)| keyed_view(p)).to_multiset(),
{
    let ghost src = keyed@.map_values(|p: (String, DateKey)| keyed_view(p));
    let mut out: Vec<(String, DateKey)> = Vec::new();
    let mut i: usize = 0;
    while i < keyed.len()
        invariant
            i <= keyed@.len(),
            src == keyed@.map_values(|p: (String, DateKey)| keyed_view(p)),
            distinct_texts(src),
            strictly_ordered(out@.map_values(|p: (String, DateKey)| keyed_view(p))),
            out@.map_values(|p: (String, DateKey)| keyed_view(p)).to_multiset() == src.take(i as int).to_multiset(),
        decreases keyed@.len() - i,
    {
        let x = (copy_string(&keyed[i].0), keyed[i].1);
        proof {
            let o = out@.map_values(|p: (String, DateKey)| keyed_view(p));
            assert forall|k: int| 0 <= k < out@.len() implies (#[trigger] out@[k]).0@ != x.0@ by {
                assert(o[k] == keyed_view(out@[k]));
                assert(o.to_multiset().contains(o[k]));
                assert(src.take(i as int).contains(o[k]));
                let m = choose|m: int| 0 <= m < i && src.take(i as int)[m] == o[k];
                assert(src[m] == o[k]);
                assert(src[i as int].0 == x.0@);
            }
        }
        insert_keyed(&mut out, x);
        assert(src.take(i + 1) =~= src.take(i as int).push(src[i as int]));
        i = i + 1;
    }
    assert(src.take(src.len() as int) =~= src);
    out
}

/// Whether a record's image is grouped: it has a date and is not marked
/// invalid.
pub open spec fn is_grouped(e: AnnotationView) -> bool {
    effective_date(e) is Some && !e.is_invalid
}

/// Whether `d` is the date of some grouped image.
pub open spec fn is_group_date(s: Seq<AnnotationView>, d: Seq<char>) -> bool {
    exists|k: int| 0 <= k < s.len() && is_grouped(#[trigger] s[k]) && effective_date(s[k]) == Some(d)
}

/// The grouped images dated `d`, in record order.
pub open spec fn files_dated(s: Seq<AnnotationView>, d: Seq<char>) -> Seq<Seq<char>> {
    s.filter(|e: AnnotationView| is_grouped(e) && effective_date(e) == Some(d)).map_values(|e: AnnotationView| e.filename)
}

fn effective(e: &FileAnnotation) -> (r: Option<String>)
    ensures
        opt_view(r) == effective_date(e@),
{
    match &e.corrected_date {
        Some(d) => Some(copy_string(d)),
        None => match &e.extracted_date {
            Some(d) => Some(copy_string(d)),
            None => None,
        },
    }
}

/// The dates of the grouped images, each once, in first-seen order.
pub fn distinct_dates(a: &Annotations) -> (r: Vec<String>)
    ensures
        forall|i: int| 0 <= i < r@.len() ==> is_group_date(a@, #[trigger] r@[i]@),
        forall|k: int| 0 <= k < a@.len() && is_grouped(#[trigger] a@[k]) ==>
            exists|i: int| 0 <= i < r@.len() && Some(#[trigger] r@[i]@) == effective_date(a@[k]),
        forall|i: int, j: int| 0 <= i < j < r@.len() ==> (#[trigger] r@[i])@ != (#[trigger] r@[j])@,
{
    let mut out: Vec<String> = Vec::new();
    let mut k: usize = 0;
    while k < a.files.len()
        invariant
            k <= a.files@.len(),
            forall|i: int| 0 <= i < out@.len() ==> is_group_date(a@, #[trigger] out@[i]@),
            forall|m: int| 0 <= m < k && is_grouped(#[trigger] a@[m]) ==>
                exists|i: int| 0 <= i < out@.len() && Some(#[trigger] out@[i]@) == effective_date(a@[m]),
            forall|i: int, j: int| 0 <= i < j < out@.len() ==> (#[trigger] out@[i])@ != (#[trigger] out@[j])@,
        decreases a.files@.len() - k,
    {
        let e = &a.files[k];
        assert(a@[k as int] == e@);
        if !e.is_invalid {
            match effective(e) {
                None => {},
                Some(d) => {
                    let mut seen = false;
                    let mut j: usize = 0;
                    while j < out.len()
                        invariant
                            j <= out@.len(),
                            !seen ==> forall|m: int| 0 <= m < j ==> (#[trigger] out@[m])@ != d@,
                            seen ==> exists|m: int| 0 <= m < out@.len() && (#[trigger] out@[m])@ == d@,
                        decreases out@.len() - j,
                    {
                        if out[j] == d {
                            seen = true;
                        }
                        j = j + 1;
                    }
                    if !seen {
                        let ghost before = out@;
                        out.push(d);
                        assert(out@[out@.len() - 1] == d);
                        assert forall|m: int| 0 <= m <= k && is_grouped(#[trigger] a@[m]) implies
                            exists|i: int| 0 <= i < out@.len() && Some(#[trigger] out@[i]@) == effective_date(a@[m]) by {
                            if m < k {
                                let i = choose|i: int| 0 <= i < before.len() && Some(#[trigger] before[i]@) == effective_date(a@[m]);
                                assert(out@[i] == before[i]);
                            } else {
                                assert(Some(out@[out@.len() - 1]@) == effective_date(a@[m]));
                            }
                        }
                    }
                },
            }
        }
        k = k + 1;
    }
    out
}

/// The file names of the grouped images dated `d`.
pub fn files_with_date(a: &Annotations, d: &String) -> (r: Vec<String>)
    ensures
        r@.map_values(|s: String| s@) == files_dated(a@, d@),
{
    let ghost s = a@;
    let ghost pred = |e: AnnotationView| is_grouped(e) && effective_date(e) == Some(d@);
    let mut out: Vec<String> = Vec::new();
    let mut k: usize = 0;
    while k < a.files.len()
        invariant
            k <= a.files@.len(),
            s == a@,
            pred == (|e: AnnotationView| is_grouped(e) && effective_date(e) == Some(d@)),
            out@.map_values(|x: String| x@) == s.take(k as int).filter(pred).map_values(|e: AnnotationView| e.filename),
        decreases a.files@.len() - k,
    {
        reveal(Seq::filter);
        let e = &a.files[k];
        assert(s.take(k + 1).drop_last() =~= s.take(k as int));
        assert(s.take(k + 1).last() == e@);
        let matches = if e.is_invalid {
            false
        } else {
            match effective(e) {
                None => false,
                Some(x) => x == *d,
            }
        };
        assert(matches == pred(e@));
        let ghost prev = s.take(k as int).filter(pred);
        if matches {
            assert(s.take(k + 1).filter(pred) == prev.push(e@));
            let name = copy_string(&e.filename);
            assert(name@ == e@.filename);
            let ghost old_out = out@;
            out.push(name);
            assert(out@.map_values(|x: String| x@) =~= old_out.map_values(|x: String| x@).push(name@));
            assert(prev.push(e@).map_values(|e: AnnotationView| e.filename)
                =~= prev.map_values(|e: AnnotationView| e.filename).push(e@.filename));
            assert(out@.map_values(|x: String| x@) =~= s.take(k + 1).filter(pred).map_values(|e: AnnotationView| e.filename));
        } else {
            assert(s.take(k + 1).filter(pred) == prev);
            assert(out@.map_values(|x: String| x@) =~= s.take(k + 1).filter(pred).map_values(|e: AnnotationView| e.filename));
        }
        k = k + 1;
    }
    assert(s.take(s.len() as int) =~= s);
    out
}

#[verifier::spinoff_prover]
proof fn lemma_groups_from_ordered(
    s: Seq<AnnotationView>,
    dates: Seq<Seq<char>>,
    kv: Seq<(Seq<char>, DateKey)>,
    ov: Seq<(Seq<char>, DateKey)>,
    rv: Seq<DateGroupView>,
)
    requires
        forall|i: int| 0 <= i < dates.len() ==> is_group_date(s, #[trigger] dates[i]),
        forall|k: int| 0 <= k < s.len() && is_grouped(#[trigger] s[k]) ==>
            exists|i: int| 0 <= i < dates.len() && Some(#[trigger] dates[i]) == effective_date(s[k]),
        kv.len() == dates.len(),
        forall|x: int| 0 <= x < kv.len() ==> #[trigger] kv[x] == (dates[x], chrono_parse_date(dates[x], DATE_FORMAT@)),
        ov.to_multiset() == kv.to_multiset(),
        strictly_ordered(ov),
        rv.len() == ov.len(),
        forall|m: int| 0 <= m < rv.len() ==> #[trigger] rv[m].date == ov[m].0
            && rv[m].files == files_dated(s, ov[m].0),
    ensures
        date_groups_of(s, rv),
{
    assert forall|m: int| 0 <= m < ov.len() implies
        exists|x: int| 0 <= x < kv.len() && #[trigger] ov[m] == kv[x] by {
        assert(ov.to_multiset().contains(ov[m]));
        assert(kv.to_multiset().contains(ov[m]));
    }
    assert forall|x: int| 0 <= x < kv.len() implies
        exists|m: int| 0 <= m < ov.len() && ov[m] == #[trigger] kv[x] by {
        assert(kv.to_multiset().contains(kv[x]));
        assert(ov.to_multiset().contains(kv[x]));
    }
    assert forall|m: int| 0 <= m < rv.len() implies is_group_date(s, #[trigger] rv[m].date) by {
        let x = choose|x: int| 0 <= x < kv.len() && ov[m] == kv[x];
        assert(kv[x].0 == dates[x]);
    }
    assert forall|k: int| 0 <= k < s.len() && is_grouped(#[trigger] s[k]) implies
        exists|m: int| 0 <= m < rv.len() && Some(#[trigger] rv[m].date) == effective_date(s[k]) by {
        let x = choose|x: int| 0 <= x < dates.len() && Some(#[trigger] dates[x]) == effective_date(s[k]);
        assert(kv[x].0 == dates[x]);
        let m = choose|m: int| 0 <= m < ov.len() && ov[m] == kv[x];
        assert(rv[m].date == ov[m].0);
    }
    assert forall|m: int, n: int| 0 <= m < n < rv.len() implies date_before(
        (#[trigger] rv[m].date, chrono_parse_date(rv[m].date, DATE_FORMAT@)),
        (#[trigger] rv[n].date, chrono_parse_date(rv[n].date, DATE_FORMAT@)),
    ) by {
        let x = choose|x: int| 0 <= x < kv.len() && ov[m] == kv[x];
        let y = choose|y: int| 0 <= y < kv.len() && ov[n] == kv[y];
        assert(ov[m] == (rv[m].date, chrono_parse_date(rv[m].date, DATE_FORMAT@)));
        assert(ov[n] == (rv[n].date, chrono_parse_date(rv[n].date, DATE_FORMAT@)));
        assert(date_before(ov[m], ov[n]));
    }
}

/// A group lists, in record order, the images not marked invalid whose
/// corrected date is its date, or that have no corrected date and whose
/// extracted date is its date: none of no records, and a record added last
/// joins exactly when it is such an image.
pub proof fn lemma_files_dated_steps(s: Seq<AnnotationView>, e: AnnotationView, d: Seq<char>)
    ensures
        files_dated(Seq::<AnnotationView>::empty(), d) == Seq::<Seq<char>>::empty(),
        files_dated(s.push(e), d) == (if !e.is_invalid && (e.corrected_date == Some(d)
            || (e.corrected_date is None && e.extracted_date == Some(d))) {
            files_dated(s, d).push(e.filename)
        } else {
            files_dated(s, d)
        }),
{
    reveal(Seq::filter);
    let pred = |x: AnnotationView| is_grouped(x) && effective_date(x) == Some(d);
    assert(s.push(e).drop_last() =~= s);
    assert(Seq::<AnnotationView>::empty().filter(pred) =~= Seq::<AnnotationView>::empty());
    assert(Seq::<AnnotationView>::empty().map_values(|x: AnnotationView| x.filename) =~= Seq::<Seq<char>>::empty());
    assert(s.filter(pred).push(e).map_values(|x: AnnotationView| x.filename)
        =~= s.filter(pred).map_values(|x: AnnotationView| x.filename).push(e.filename));
}

/// Whether `r` lists the date groups of `s`: one group for each date that a
/// grouped image has, holding those images' names in record order, and the
/// groups strictly ordered by (calendar date, text).
pub open spec fn date_groups_of(s: Seq<AnnotationView>, r: Seq<DateGroupView>) -> bool {
    &&& forall|i: int| 0 <= i < r.len() ==> is_group_date(s, #[trigger] r[i].date)
    &&& forall|k: int| 0 <= k < s.len() && is_grouped(#[trigger] s[k]) ==>
            exists|i: int| 0 <= i < r.len() && Some(#[trigger] r[i].date) == effective_date(s[k])
    &&& forall|i: int| 0 <= i < r.len() ==> (#[trigger] r[i]).files == files_dated(s, r[i].date)
    &&& forall|i: int, j: int| 0 <= i < j < r.len() ==> date_before(
            (#[trigger] r[i].date, chrono_parse_date(r[i].date, DATE_FORMAT@)),
            (#[trigger] r[j].date, chrono_parse_date(r[j].date, DATE_FORMAT@)),
        )
}

/// In a grouping, no two groups have the same date, and every grouped
/// image is listed in the group of its date.
pub proof fn lemma_groups_partition(s: Seq<AnnotationView>, r: Seq<DateGroupView>)
    requires
        date_groups_of(s, r),
    ensures
        forall|i: int, j: int| 0 <= i < j < r.len() ==> (#[trigger] r[i]).date != (#[trigger] r[j]).date,
        forall|k: int| 0 <= k < s.len() && is_grouped(#[trigger] s[k]) ==>
            exists|i: int| 0 <= i < r.len() && Some(#[trigger] r[i].date) == effective_date(s[k])
                && r[i].files.contains(s[k].filename),
{
    assert forall|i: int, j: int| 0 <= i < j < r.len() implies (#[trigger] r[i]).date != (#[trigger] r[j]).date by {
        let x = (r[i].date, chrono_parse_date(r[i].date, DATE_FORMAT@));
        let y = (r[j].date, chrono_parse_date(r[j].date, DATE_FORMAT@));
        assert(date_before(x, y));
    }
    assert forall|k: int| 0 <= k < s.len() && is_grouped(#[trigger] s[k]) implies
        exists|i: int| 0 <= i < r.len() && Some(#[trigger] r[i].date) == effective_date(s[k])
            && r[i].files.contains(s[k].filename) by {
        let i = choose|i: int| 0 <= i < r.len() && Some(#[trigger] r[i].date) == effective_date(s[k]);
        let d = r[i].date;
        let pred = |e: AnnotationView| is_grouped(e) && effective_date(e) == Some(d);
        s.lemma_filter_contains(pred, k);
        let f = s.filter(pred);
        let m = choose|m: int| 0 <= m < f.len() && f[m] == s[k];
        assert(f.map_values(|e: AnnotationView| e.filename)[m] == s[k].filename);
        assert(r[i].files == files_dated(s, d));
    }
}

/// The groups follow the calendar: of two groups, the earlier one's date is
/// on or before the later one's (year first, then month, then day), and a
/// text that is no date never comes after one that is.
pub proof fn lemma_groups_calendar_order(s: Seq<AnnotationView>, r: Seq<DateGroupView>)
    requires
        date_groups_of(s, r),
    ensures
        forall|i: int, j: int|
            0 <= i < j < r.len()
                && chrono_parse_date(#[trigger] r[i].date, DATE_FORMAT@) is Some
                && chrono_parse_date(#[trigger] r[j].date, DATE_FORMAT@) is Some
            ==> {
                let (y1, m1, d1) = chrono_parse_date(r[i].date, DATE_FORMAT@)->Some_0;
                let (y2, m2, d2) = chrono_parse_date(r[j].date, DATE_FORMAT@)->Some_0;
                &&& y1 <= y2
                &&& y1 == y2 ==> m1 <= m2
                &&& y1 == y2 && m1 == m2 ==> d1 <= d2
            },
        forall|i: int, j: int|
            0 <= i < j < r.len() && chrono_parse_date(#[trigger] r[j].date, DATE_FORMAT@) is None
            ==> chrono_parse_date(#[trigger] r[i].date, DATE_FORMAT@) is None,
{
    assert forall|i: int, j: int|
        0 <= i < j < r.len()
            && chrono_parse_date(#[trigger] r[i].date, DATE_FORMAT@) is Some
            && chrono_parse_date(#[trigger] r[j].date, DATE_FORMAT@) is Some
        implies {
            let (y1, m1, d1) = chrono_parse_date(r[i].date, DATE_FORMAT@)->Some_0;
            let (y2, m2, d2) = chrono_parse_date(r[j].date, DATE_FORMAT@)->Some_0;
            &&& y1 <= y2
            &&& y1 == y2 ==> m1 <= m2
            &&& y1 == y2 && m1 == m2 ==> d1 <= d2
        } by {
        assert(date_before(
            (r[i].date, chrono_parse_date(r[i].date, DATE_FORMAT@)),
            (r[j].date, chrono_parse_date(r[j].date, DATE_FORMAT@)),
        ));
    }
    assert forall|i: int, j: int|
        0 <= i < j < r.len() && chrono_parse_date(#[trigger] r[j].date, DATE_FORMAT@) is None
        implies chrono_parse_date(#[trigger] r[i].date, DATE_FORMAT@) is None by {
        assert(date_before(
            (r[i].date, chrono_parse_date(r[i].date, DATE_FORMAT@)),
            (r[j].date, chrono_parse_date(r[j].date, DATE_FORMAT@)),
        ));
    }
}

/// The images grouped by date, in calendar order (dates that chrono does not
/// read as `DD-MM-YYYY` first), each group listing its images in record order;
/// images without a date or marked invalid are left out.
pub fn sort_dates_entries(a: &Annotations) -> (r: Vec<DateGroup>)
    ensures
        date_groups_of(a@, r@.map_values(|g: DateGroup| g@)),
{
    let dates = distinct_dates(a);
    let mut keyed: Vec<(String, DateKey)> = Vec::new();
    let mut i: usize = 0;
    while i < dates.len()
        invariant
            i <= dates@.len(),
            keyed@.len() == i,
            forall|j: int| 0 <= j < i ==> (#[trigger] keyed@[j]).0@ == dates@[j]@
                && keyed@[j].1 == chrono_parse_date(dates@[j]@, DATE_FORMAT@),
        decreases dates@.len() - i,
    {
        let key = parse_calendar_date(dates[i].as_str(), DATE_FORMAT);
        keyed.push((copy_string(&dates[i]), key));
        i = i + 1;
    }
    let ghost kv = keyed@.map_values(|p: (String, DateKey)| keyed_view(p));
    assert(distinct_texts(kv)) by {
        assert forall|x: int, y: int| 0 <= x < y < kv.len() implies (#[trigger] kv[x]).0 != (#[trigger] kv[y]).0 by {
            assert(kv[x].0 == dates@[x]@);
            assert(kv[y].0 == dates@[y]@);
        }
    }
    let ordered = order_dates(keyed);
    let ghost ov = ordered@.map_values(|p: (String, DateKey)| keyed_view(p));
    let mut out: Vec<DateGroup> = Vec::new();
    let mut j: usize = 0;
    while j < ordered.len()
        invariant
            j <= ordered@.len(),
            out@.len() == j,
            ov == ordered@.map_values(|p: (String, DateKey)| keyed_view(p)),
            forall|m: int| 0 <= m < j ==> (#[trigger] out@[m])@.date == ov[m].0
                && out@[m]@.files == files_dated(a@, ov[m].0),
        decreases ordered@.len() - j,
    {
        let d = copy_string(&ordered[j].0);
        let files = files_with_date(a, &d);
        out.push(DateGroup { date: d, files });
        j = j + 1;
    }
    let ghost rv = out@.map_values(|g: DateGroup| g@);
    proof {
        let dv = dates@.map_values(|x: String| x@);
        assert forall|x: int| 0 <= x < kv.len() implies #[trigger] kv[x] == (dv[x], chrono_parse_date(dv[x], DATE_FORMAT@)) by {
            assert(kv[x] == keyed_view(keyed@[x]));
        }
        assert forall|m: int| 0 <= m < rv.len() implies #[trigger] rv[m].date == ov[m].0
            && rv[m].files == files_dated(a@, ov[m].0) by {
            assert(rv[m] == out@[m]@);
        }
        assert forall|k: int| 0 <= k < a@.len() && is_grouped(#[trigger] a@[k]) implies
            exists|i: int| 0 <= i < dv.len() && Some(#[trigger] dv[i]) == effective_date(a@[k]) by {
            let i = choose|i: int| 0 <= i < dates@.len() && Some(#[trigger] dates@[i]@) == effective_date(a@[k]);
            assert(dv[i] == dates@[i]@);
        }
        lemma_groups_from_ordered(a@, dv, kv, ov, rv);
    }
    out
}

} // verus!
