use vstd::prelude::*;

use crate::civil::{valid_civil, CivilTime};
use crate::text::{decimal, digit_char, zero_padded};

verus! {

/// What chrono's `NaiveDateTime::parse_from_str` reads from `s` with the
/// format `fmt`, as civil fields; where it refuses the text, the message of
/// its error.
pub uninterp spec fn naive_parse(s: Seq<char>, fmt: Seq<char>) -> Result<CivilTime, Seq<char>>;

/// What chrono's `DateTime::parse_from_str` reads from `s` with the format
/// `fmt`: the local date and time as civil fields and the offset east of UTC
/// in seconds; where it refuses the text, the message of its error.
pub uninterp spec fn offset_parse(s: Seq<char>, fmt: Seq<char>) -> Result<(CivilTime, i32), Seq<char>>;

/// The specifiers that the formats of this library use: year, month, day,
/// hour, minute and second.
pub open spec fn is_field_spec(c: char) -> bool {
    c == 'Y' || c == 'm' || c == 'd' || c == 'H' || c == 'M' || c == 'S'
}

/// A chrono format made of literal text and the specifiers `%Y`, `%m`, `%d`,
/// `%H`, `%M` and `%S`, with no other use of `%`.
pub open spec fn simple_format(fmt: Seq<char>) -> bool
    decreases fmt.len(),
{
    if fmt.len() == 0 {
        true
    } else if fmt[0] == '%' {
        fmt.len() >= 2 && is_field_spec(fmt[1]) && simple_format(fmt.skip(2))
    } else {
        simple_format(fmt.skip(1))
    }
}

/// Two decimal digits of a number below 100.
pub open spec fn two_digits(n: int) -> Seq<char> {
    seq![digit_char(n / 10), digit_char(n % 10)]
}

/// A year as `%Y` writes it: four digits at least, zero-padded, with a sign
/// in front for years before 0 or after 9999.
pub open spec fn year_text(year: int) -> Seq<char> {
    if 0 <= year <= 9999 {
        zero_padded(year as nat, 4)
    } else if year < 0 {
        seq!['-'] + zero_padded((-year) as nat, 4)
    } else {
        seq!['+'] + zero_padded(year as nat, 4)
    }
}

/// What a specifier writes for a date and time; a leap second shows as 60.
pub open spec fn field_text(t: CivilTime, c: char) -> Seq<char> {
    if c == 'Y' {
        year_text(t.year as int)
    } else if c == 'm' {
        two_digits(t.month as int)
    } else if c == 'd' {
        two_digits(t.day as int)
    } else if c == 'H' {
        two_digits(t.hour as int)
    } else if c == 'M' {
        two_digits(t.minute as int)
    } else {
        two_digits(t.second + t.nanosecond / 1_000_000_000)
    }
}

/// The text of a date and time in a simple format: literal text as it
/// stands, each specifier replaced by its field.
pub open spec fn formatted(t: CivilTime, fmt: Seq<char>) -> Seq<char>
    decreases fmt.len(),
{
    if fmt.len() == 0 {
        Seq::empty()
    } else if fmt[0] == '%' && fmt.len() >= 2 {
        field_text(t, fmt[1]) + formatted(t, fmt.skip(2))
    } else {
        seq![fmt[0]] + formatted(t, fmt.skip(1))
    }
}

/// Calls chrono's `NaiveDateTime::parse_from_str` and reads the fields of the
/// result, which chrono keeps a valid date and time, or the message of the
/// error.
#[verifier::external_body]
pub(crate) fn parse_naive(s: &str, fmt: &str) -> (r: Result<CivilTime, String>)
    ensures
        match r {
            Ok(t) => naive_parse(s@, fmt@) == Ok::<CivilTime, Seq<char>>(t) && valid_civil(t),
            Err(m) => naive_parse(s@, fmt@) == Err::<CivilTime, Seq<char>>(m@),
        },
{
    match chrono::NaiveDateTime::parse_from_str(s, fmt) {
        Ok(dt) => Ok(CivilTime {
            year: chrono::Datelike::year(&dt), month: chrono::Datelike::month(&dt),
            day: chrono::Datelike::day(&dt), hour: chrono::Timelike::hour(&dt),
            minute: chrono::Timelike::minute(&dt), second: chrono::Timelike::second(&dt),
            nanosecond: chrono::Timelike::nanosecond(&dt),
        }),
        Err(e) => Err(e.to_string()),
    }
}

/// Calls chrono's `DateTime::parse_from_str` and reads the local fields of
/// the result, which chrono builds from a valid local date and time, and its
/// offset; or the message of the error.
#[verifier::external_body]
pub(crate) fn parse_with_offset(s: &str, fmt: &str) -> (r: Result<(CivilTime, i32), String>)
    ensures
        match r {
            Ok(p) => offset_parse(s@, fmt@) == Ok::<(CivilTime, i32), Seq<char>>(p) && valid_civil(p.0),
            Err(m) => offset_parse(s@, fmt@) == Err::<(CivilTime, i32), Seq<char>>(m@),
        },
{
    match chrono::DateTime::parse_from_str(s, fmt) {
        Ok(dt) => Ok((CivilTime {
            year: chrono::Datelike::year(&dt), month: chrono::Datelike::month(&dt),
            day: chrono::Datelike::day(&dt), hour: chrono::Timelike::hour(&dt),
            minute: chrono::Timelike::minute(&dt), second: chrono::Timelike::second(&dt),
            nanosecond: chrono::Timelike::nanosecond(&dt),
        }, dt.offset().local_minus_utc())),
        Err(e) => Err(e.to_string()),
    }
}

/// Calls chrono's `NaiveDateTime::format` on the date and time that the
/// fields name and writes the result out: literal text as it stands, `%Y`
/// as the year zero-padded to four digits (signed outside 0..=9999), and
/// `%m`, `%d`, `%H`, `%M`, `%S` as two digits each.
#[verifier::external_body]
pub(crate) fn format_civil(t: &CivilTime, fmt: &str) -> (r: String)
    requires
        valid_civil(*t),
        simple_format(fmt@),
    ensures
        r@ == formatted(*t, fmt@),
{
    chrono::NaiveDate::from_ymd_opt(t.year, t.month, t.day).unwrap()
        .and_hms_nano_opt(t.hour, t.minute, t.second, t.nanosecond).unwrap()
        .format(fmt).to_string()
}

pub(crate) proof fn lemma_format_concat(t: CivilTime, a: Seq<char>, b: Seq<char>)
    requires
        simple_format(a),
    ensures
        simple_format(a + b) == simple_format(b),
        formatted(t, a + b) == formatted(t, a) + formatted(t, b),
    decreases a.len(),
{
    if a.len() == 0 {
        assert(a + b =~= b);
        assert(formatted(t, a) + formatted(t, b) =~= formatted(t, b));
    } else if a[0] == '%' {
        assert((a + b)[0] == '%' && (a + b)[1] == a[1]);
        assert((a + b).skip(2) =~= a.skip(2) + b);
        lemma_format_concat(t, a.skip(2), b);
        assert(formatted(t, a + b) =~= formatted(t, a) + formatted(t, b));
    } else {
        assert((a + b)[0] == a[0]);
        assert((a + b).skip(1) =~= a.skip(1) + b);
        lemma_format_concat(t, a.skip(1), b);
        assert(formatted(t, a + b) =~= formatted(t, a) + formatted(t, b));
    }
}

pub(crate) proof fn lemma_field(t: CivilTime, c: char)
    requires
        is_field_spec(c),
    ensures
        simple_format(seq!['%', c]),
        formatted(t, seq!['%', c]) == field_text(t, c),
{
    let f = seq!['%', c];
    assert(f.skip(2) =~= Seq::<char>::empty());
    assert(f[0] == '%' && f[1] == c && f.len() == 2);
    assert(simple_format(f.skip(2)));
    assert(formatted(t, f.skip(2)) =~= Seq::<char>::empty());
    assert(field_text(t, c) + Seq::<char>::empty() =~= field_text(t, c));
}

pub(crate) proof fn lemma_literal(t: CivilTime, c: char)
    requires
        c != '%',
    ensures
        simple_format(seq![c]),
        formatted(t, seq![c]) == seq![c],
{
    let f = seq![c];
    assert(f.skip(1) =~= Seq::<char>::empty());
    assert(f[0] == c && f.len() == 1);
    assert(simple_format(f.skip(1)));
    assert(formatted(t, f.skip(1)) =~= Seq::<char>::empty());
    assert(seq![c] + Seq::<char>::empty() =~= seq![c]);
}

} // verus!
