use vstd::prelude::*;

use crate::civil::{valid_civil, CivilTime};
use crate::error::HimawariError;
use crate::text::{
    decimal, decimal_text, lemma_decimal_reads_back, lemma_two_digits_read_back, lemma_zero_padded_reads_back,
    number_text, pow10, reads_as,
};
use crate::timefmt::{
    format_civil, formatted, lemma_field, lemma_format_concat, lemma_literal, offset_parse, parse_with_offset,
    simple_format, two_digits, year_text,
};

verus! {

/// The address of the file that names the latest true-colour picture in the
/// download archive.
pub fn archive_latest_url() -> (r: &'static str)
    ensures
        r@ == seq!['h', 't', 't', 'p', ':', '/', '/', 'h', 'i', 'm', 'a', 'w', 'a', 'r', 'i', '8', '-', 'd', 'l',
            '.', 'n', 'i', 'c', 't', '.', 'g', 'o', '.', 'j', 'p', '/', 'h', 'i', 'm', 'a', 'w', 'a', 'r', 'i',
            '8', '/', 'i', 'm', 'g', '/', 'D', '5', '3', '1', '1', '0', '6', '/', 'l', 'a', 't', 'e', 's', 't',
            '.', 'j', 's', 'o', 'n'],
{
    proof {
        reveal_strlit("http://himawari8-dl.nict.go.jp/himawari8/img/D531106/latest.json");
    }
    "http://himawari8-dl.nict.go.jp/himawari8/img/D531106/latest.json"
}

/// The format in which the archive's date is read, with the offset of
/// Japan Standard Time appended.
pub open spec fn zoned_date_format() -> Seq<char> {
    seq!['%', 'Y', '-', '%', 'm', '-', '%', 'd', ' ', '%', 'H', ':', '%', 'M', ':', '%', 'S', ' ', '%', 'z']
}

/// The offset of Japan Standard Time as appended to the archive's date.
pub open spec fn jst_suffix() -> Seq<char> {
    seq![' ', '+', '1', '0', '0', '0']
}

/// The time of the picture that the download archive names by the date it
/// reports: the date read as Japan Standard Time (`<date> +1000` with the
/// format `%Y-%m-%d %H:%M:%S %z`), as local fields; where chrono refuses
/// the text, an error with chrono's message.
pub fn archive_time(date: &str) -> (r: Result<CivilTime, HimawariError>)
    ensures
        match offset_parse(date@ + jst_suffix(), zoned_date_format()) {
            Ok(p) => r == Ok::<CivilTime, HimawariError>(p.0),
            Err(m) => r matches Err(HimawariError::DateParse(e)) && e@ == m,
        },
        r matches Ok(t) ==> valid_civil(t),
{
    proof {
        reveal_strlit(" +1000");
        reveal_strlit("%Y-%m-%d %H:%M:%S %z");
        assert("%Y-%m-%d %H:%M:%S %z"@ =~= zoned_date_format());
    }
    let mut zoned = String::from_str(date);
    zoned.append(" +1000");
    assert(zoned@ =~= date@ + jst_suffix());
    match parse_with_offset(zoned.as_str(), "%Y-%m-%d %H:%M:%S %z") {
        Ok(p) => Ok(p.0),
        Err(m) => Err(HimawariError::DateParse(m)),
    }
}

/// The text of a time as the archive's paths write it:
/// `<year>/<month>/<day>/<hhmmss>`.
pub open spec fn archive_path_time(t: CivilTime) -> Seq<char> {
    year_text(t.year as int) + seq!['/'] + two_digits(t.month as int) + seq!['/'] + two_digits(t.day as int)
        + seq!['/'] + two_digits(t.hour as int) + two_digits(t.minute as int) + two_digits(
        t.second + t.nanosecond / 1_000_000_000,
    )
}

proof fn lemma_archive_path_format(t: CivilTime, fmt: Seq<char>)
    requires
        fmt =~= seq!['%', 'Y', '/', '%', 'm', '/', '%', 'd', '/', '%', 'H', '%', 'M', '%', 'S'],
    ensures
        simple_format(fmt),
        formatted(t, fmt) == archive_path_time(t),
{
    let y = seq!['%', 'Y'];
    let m = seq!['%', 'm'];
    let d = seq!['%', 'd'];
    let h = seq!['%', 'H'];
    let mi = seq!['%', 'M'];
    let s = seq!['%', 'S'];
    let sl = seq!['/'];
    lemma_field(t, 'Y');
    lemma_field(t, 'm');
    lemma_field(t, 'd');
    lemma_field(t, 'H');
    lemma_field(t, 'M');
    lemma_field(t, 'S');
    lemma_literal(t, '/');
    let p6 = mi + s;
    lemma_format_concat(t, mi, s);
    let p5 = h + p6;
    lemma_format_concat(t, h, p6);
    let p4 = sl + p5;
    lemma_format_concat(t, sl, p5);
    let p3 = d + p4;
    lemma_format_concat(t, d, p4);
    let p2 = sl + p3;
    lemma_format_concat(t, sl, p3);
    let p1 = m + p2;
    lemma_format_concat(t, m, p2);
    let p0 = sl + p1;
    lemma_format_concat(t, sl, p1);
    lemma_format_concat(t, y, p0);
    assert(fmt =~= y + p0);
    assert(formatted(t, fmt) =~= archive_path_time(t));
}

/// The address of a tile in the archive:
/// `http://himawari8.nict.go.jp/img/D531106/<level>d/<size>/<time>_<x>_<y>.png`.
pub open spec fn archive_tile_url_of(time: CivilTime, size: u32, level: u32, x: u32, y: u32) -> Seq<char> {
    seq!['h', 't', 't', 'p', ':', '/', '/', 'h', 'i', 'm', 'a', 'w', 'a', 'r', 'i', '8', '.', 'n', 'i', 'c', 't',
        '.', 'g', 'o', '.', 'j', 'p', '/', 'i', 'm', 'g', '/', 'D', '5', '3', '1', '1', '0', '6', '/']
        + decimal(level as nat) + seq!['d', '/'] + decimal(size as nat) + seq!['/'] + archive_path_time(time)
        + seq!['_'] + decimal(x as nat) + seq!['_'] + decimal(y as nat) + seq!['.', 'p', 'n', 'g']
}

/// The address in the archive of the tile at column `x`, row `y` of the grid
/// `level` tiles wide, with tiles `size` pixels wide, at `time`.
pub fn archive_tile_url(time: &CivilTime, size: u32, level: u32, x: u32, y: u32) -> (r: String)
    requires
        valid_civil(*time),
    ensures
        r@ == archive_tile_url_of(*time, size, level, x, y),
{
    proof {
        reveal_strlit("http://himawari8.nict.go.jp/img/D531106/");
        reveal_strlit("d/");
        reveal_strlit("/");
        reveal_strlit("_");
        reveal_strlit(".png");
        reveal_strlit("%Y/%m/%d/%H%M%S");
        lemma_archive_path_format(*time, "%Y/%m/%d/%H%M%S"@);
    }
    let mut url = String::from_str("http://himawari8.nict.go.jp/img/D531106/");
    let level_text = decimal_text(level);
    url.append(level_text.as_str());
    url.append("d/");
    let size_text = decimal_text(size);
    url.append(size_text.as_str());
    url.append("/");
    let when = format_civil(time, "%Y/%m/%d/%H%M%S");
    url.append(when.as_str());
    url.append("_");
    let x_text = decimal_text(x);
    url.append(x_text.as_str());
    url.append("_");
    let y_text = decimal_text(y);
    url.append(y_text.as_str());
    url.append(".png");
    assert(url@ =~= archive_tile_url_of(*time, size, level, x, y));
    url
}

/// What to do after probing the archive for a tile.
#[derive(Debug, Clone, Copy, PartialEq, Eq, Structural)]
pub enum RetryAction {
    /// The archive answered: download and decode the tile.
    Download,
    /// It did not: probe again.
    TryAgain,
    /// It did not, and no tries are left: report the failure.
    GiveUp,
}

/// The tries left for fetching a tile.
pub struct TileRetry {
    pub retries_left: u32,
}

/// The next state and action after a probe with `retries_left` tries left.
pub open spec fn retry_step(retries_left: u32, reachable: bool) -> (u32, RetryAction) {
    if reachable {
        (retries_left, RetryAction::Download)
    } else if retries_left <= 1 {
        (0u32, RetryAction::GiveUp)
    } else {
        ((retries_left - 1) as u32, RetryAction::TryAgain)
    }
}

impl TileRetry {
    /// Three tries.
    pub fn new() -> (r: TileRetry)
        ensures
            r.retries_left == 3,
    {
        TileRetry { retries_left: 3 }
    }

    /// Records the outcome of a probe: download where the archive answered;
    /// else one try fewer, and give up where none is left.
    pub fn on_probe(&mut self, reachable: bool) -> (action: RetryAction)
        requires
            old(self).retries_left > 0,
        ensures
            (final(self).retries_left, action) == retry_step(old(self).retries_left, reachable),
    {
        if reachable {
            RetryAction::Download
        } else {
            self.retries_left = self.retries_left - 1;
            if self.retries_left > 0 {
                RetryAction::TryAgain
            } else {
                RetryAction::GiveUp
            }
        }
    }
}

/// The tries left after `failures` failed probes from `start`.
pub open spec fn after_failures(start: u32, failures: nat) -> u32
    decreases failures,
{
    if failures == 0 {
        start
    } else {
        retry_step(after_failures(start, (failures - 1) as nat), false).0
    }
}

/// From `start` tries, each of the first `start - 1` failed probes asks for
/// another try, and the `start`-th gives up; a probe that reaches the archive
/// before then downloads.
pub proof fn lemma_retry_budget(start: u32, failures: nat)
    requires
        0 < start,
        failures < start,
    ensures
        after_failures(start, failures) == start - failures,
        retry_step(after_failures(start, failures), true).1 == RetryAction::Download,
        failures + 1 < start ==> retry_step(after_failures(start, failures), false).1 == RetryAction::TryAgain,
        failures + 1 == start ==> retry_step(after_failures(start, failures), false).1 == RetryAction::GiveUp,
    decreases failures,
{
    if failures > 0 {
        lemma_retry_budget(start, (failures - 1) as nat);
    }
}

/// A time in the years 0 to 9999 is written in the archive's paths as the
/// year in four digits, `/`, the month, `/`, the day, `/`, then the hour, the
/// minute and the second (a leap second as 60) in two digits each.
pub proof fn lemma_archive_path_names_the_time(t: CivilTime)
    requires
        valid_civil(t),
        0 <= t.year <= 9999,
    ensures
        exists|dy: Seq<char>, dm: Seq<char>, dd: Seq<char>, dh: Seq<char>, dmi: Seq<char>, ds: Seq<char>|
            #![trigger reads_as(dy, 4, t.year as int), reads_as(dm, 2, t.month as int), reads_as(dd, 2, t.day as int), reads_as(dh, 2, t.hour as int), reads_as(dmi, 2, t.minute as int), reads_as(ds, 2, t.second + t.nanosecond / 1_000_000_000)]
            {
                &&& reads_as(dy, 4, t.year as int)
                &&& reads_as(dm, 2, t.month as int)
                &&& reads_as(dd, 2, t.day as int)
                &&& reads_as(dh, 2, t.hour as int)
                &&& reads_as(dmi, 2, t.minute as int)
                &&& reads_as(ds, 2, t.second + t.nanosecond / 1_000_000_000)
                &&& archive_path_time(t) == dy + seq!['/'] + dm + seq!['/'] + dd + seq!['/'] + dh + dmi + ds
            },
{
    assert(pow10(4) == 10000) by {
        reveal_with_fuel(pow10, 5);
    }
    lemma_zero_padded_reads_back(t.year as nat, 4);
    lemma_two_digits_read_back(t.month as int);
    lemma_two_digits_read_back(t.day as int);
    lemma_two_digits_read_back(t.hour as int);
    lemma_two_digits_read_back(t.minute as int);
    let sec = t.second + t.nanosecond / 1_000_000_000;
    lemma_two_digits_read_back(sec);
    let dy = year_text(t.year as int);
    let dm = two_digits(t.month as int);
    let dd = two_digits(t.day as int);
    let dh = two_digits(t.hour as int);
    let dmi = two_digits(t.minute as int);
    let ds = two_digits(sec);
    assert(reads_as(dy, 4, t.year as int));
    assert(reads_as(dm, 2, t.month as int));
    assert(reads_as(dd, 2, t.day as int));
    assert(reads_as(dh, 2, t.hour as int));
    assert(reads_as(dmi, 2, t.minute as int));
    assert(reads_as(ds, 2, sec));
    assert(archive_path_time(t) == dy + seq!['/'] + dm + seq!['/'] + dd + seq!['/'] + dh + dmi + ds);
}

/// The archive address of a tile is the true-colour directory, the decimal
/// digits of the level followed by `d/`, the digits of the tile size, `/`,
/// the time as the archive's paths write it, `_`, the digits of the column,
/// `_`, the digits of the row, and `.png`: the column and the row as given,
/// for every time, size, level, column and row.
pub proof fn lemma_archive_tile_url_names_its_tile(time: CivilTime, size: u32, level: u32, x: u32, y: u32)
    ensures
        exists|dl: Seq<char>, ds: Seq<char>, dx: Seq<char>, dy: Seq<char>|
            #![trigger number_text(dl, level as int), number_text(ds, size as int), number_text(dx, x as int), number_text(dy, y as int)]
            {
                &&& number_text(dl, level as int)
                &&& number_text(ds, size as int)
                &&& number_text(dx, x as int)
                &&& number_text(dy, y as int)
                &&& archive_tile_url_of(time, size, level, x, y) == seq!['h', 't', 't', 'p', ':', '/', '/', 'h', 'i', 'm',
                    'a', 'w', 'a', 'r', 'i', '8', '.', 'n', 'i', 'c', 't', '.', 'g', 'o', '.', 'j', 'p', '/', 'i', 'm', 'g',
                    '/', 'D', '5', '3', '1', '1', '0', '6', '/'] + dl + seq!['d', '/'] + ds + seq!['/'] + archive_path_time(
                    time,
                ) + seq!['_'] + dx + seq!['_'] + dy + seq!['.', 'p', 'n', 'g']
            },
{
    lemma_decimal_reads_back(level as nat);
    lemma_decimal_reads_back(size as nat);
    lemma_decimal_reads_back(x as nat);
    lemma_decimal_reads_back(y as nat);
    let dl = decimal(level as nat);
    let ds = decimal(size as nat);
    let dx = decimal(x as nat);
    let dy = decimal(y as nat);
    assert(number_text(dl, level as int) && number_text(ds, size as int));
    assert(number_text(dx, x as int) && number_text(dy, y as int));
}

} // verus!
