use vstd::prelude::*;

use crate::civil::{slot_start, ten_minute_slot, valid_civil, CivilTime};
use crate::error::HimawariError;
use crate::text::{
    decimal, decimal_text, lemma_decimal_reads_back, lemma_two_digits_read_back, lemma_zero_padded_reads_back,
    number_text, pow10, reads_as,
};
use crate::timefmt::{
    format_civil, formatted, lemma_field, lemma_format_concat, naive_parse, parse_naive, simple_format, two_digits,
    year_text,
};

verus! {

/// Which picture to build: the latest one, or the one of a given time (UTC).
pub enum DateOptions {
    Latest,
    Date(CivilTime),
}

/// What to build: the time, the infrared or the true-colour picture, the zoom
/// level (1, 2 or 3) and how long the downloads may take, in seconds.
pub struct Options {
    pub date: DateOptions,
    pub infrared: bool,
    pub zoom: u32,
    pub timeout_seconds: i64,
}

impl Default for Options {
    /// The latest true-colour picture at zoom level 2, with a thirty-second
    /// timeout.
    fn default() -> (r: Self)
        ensures
            r.date is Latest,
            r.infrared == false,
            r.zoom == 2,
            r.timeout_seconds == 30,
    {
        Options { date: DateOptions::Latest, infrared: false, zoom: 2, timeout_seconds: 30 }
    }
}

/// The number of tiles on each side of the grid at a zoom level, where the
/// archive serves that zoom level.
pub open spec fn blocks_of_zoom(zoom: u32) -> Option<u32> {
    if zoom == 1 {
        Some(1u32)
    } else if zoom == 2 {
        Some(4u32)
    } else if zoom == 3 {
        Some(8u32)
    } else {
        None
    }
}

/// The name by which the archive calls a grid of `blocks` tiles a side:
/// the number followed by `d`.
pub open spec fn level_name(blocks: u32) -> Seq<char> {
    decimal(blocks as nat).push('d')
}

/// The archive's name for the true-colour pictures.
pub open spec fn true_colour_type() -> Seq<char> {
    seq!['D', '5', '3', '1', '1', '0', '6']
}

/// The archive's name for the kind of picture chosen.
pub open spec fn image_type_name(infrared: bool) -> Seq<char> {
    if infrared {
        seq!['I', 'N', 'F', 'R', 'A', 'R', 'E', 'D', '_', 'F', 'U', 'L', 'L']
    } else {
        true_colour_type()
    }
}

/// The address of the archive's pictures.
pub open spec fn archive_root() -> Seq<char> {
    seq!['h', 't', 't', 'p', 's', ':', '/', '/', 'h', 'i', 'm', 'a', 'w', 'a', 'r', 'i', '8', '.',
        'n', 'i', 'c', 't', '.', 'g', 'o', '.', 'j', 'p', '/', 'i', 'm', 'g']
}

/// The address of the file that names the latest picture of a kind.
pub open spec fn latest_url_of(image_type: Seq<char>) -> Seq<char> {
    archive_root() + seq!['/'] + image_type + seq!['/', 'l', 'a', 't', 'e', 's', 't', '.', 'j', 's', 'o', 'n']
}

/// The format in which the archive writes the date of its latest picture.
pub open spec fn payload_date_format() -> Seq<char> {
    seq!['%', 'Y', '-', '%', 'm', '-', '%', 'd', ' ', '%', 'H', ':', '%', 'M', ':', '%', 'S']
}

/// The directory of the archive that holds the tiles of a grid at a time:
/// `<root>/D531106/<level>/550/<year>/<month>/<day>/<hhmmss>`.
pub open spec fn tile_base_url_of(level: Seq<char>, date: CivilTime) -> Seq<char> {
    archive_root() + seq!['/'] + true_colour_type() + seq!['/'] + level + seq!['/', '5', '5', '0', '/']
        + year_text(date.year as int) + seq!['/'] + two_digits(date.month as int) + seq!['/']
        + two_digits(date.day as int) + seq!['/'] + two_digits(date.hour as int)
        + two_digits(date.minute as int) + two_digits(date.second + date.nanosecond / 1_000_000_000)
}

/// The address of the tile at column `x`, row `y` in a tile directory.
pub open spec fn tile_url_of(base: Seq<char>, x: u32, y: u32) -> Seq<char> {
    base + seq!['_'] + decimal(x as nat) + seq!['_'] + decimal(y as nat) + seq!['.', 'p', 'n', 'g']
}

/// A tile to download: its address and its place in the grid.
pub struct TileRequest {
    pub url: String,
    pub x: u32,
    pub y: u32,
}

impl Options {
    /// The zoom level as the archive names it and the number of tiles on each
    /// side of the grid: `1d` and 1, `4d` and 4, `8d` and 8 for zoom levels
    /// 1, 2 and 3, in true colour as in infrared.
    pub fn level(&self) -> (r: Result<(&'static str, u32), HimawariError>)
        ensures
            match blocks_of_zoom(self.zoom) {
                Some(blocks) => r matches Ok(l) && l.0@ == level_name(blocks) && l.1 == blocks,
                None => r == Err::<(&'static str, u32), HimawariError>(HimawariError::InvalidZoomLevel),
            },
    {
        proof {
            reveal_strlit("1d");
            reveal_strlit("4d");
            reveal_strlit("8d");
            assert(decimal(1) == seq!['1']);
            assert(decimal(4) == seq!['4']);
            assert(decimal(8) == seq!['8']);
        }
        match (self.infrared, self.zoom) {
            (true, 1) => Ok(("1d", 1)),
            (true, 2) => Ok(("4d", 4)),
            (true, 3) => Ok(("8d", 8)),
            (false, 1) => Ok(("1d", 1)),
            (false, 2) => Ok(("4d", 4)),
            (false, 3) => Ok(("8d", 8)),
            _ => Err(HimawariError::InvalidZoomLevel),
        }
    }

    /// The archive's name for the kind of picture chosen.
    pub fn image_type(&self) -> (r: &'static str)
        ensures
            r@ == image_type_name(self.infrared),
    {
        proof {
            reveal_strlit("INFRARED_FULL");
            reveal_strlit("D531106");
        }
        if self.infrared {
            "INFRARED_FULL"
        } else {
            "D531106"
        }
    }

    /// The address of the file that names the archive's latest picture of
    /// the kind chosen.
    pub fn latest_url(&self) -> (r: String)
        ensures
            r@ == latest_url_of(image_type_name(self.infrared)),
    {
        proof {
            reveal_strlit("https://himawari8.nict.go.jp/img/");
            reveal_strlit("/latest.json");
            assert(archive_root() + seq!['/'] =~= "https://himawari8.nict.go.jp/img/"@);
        }
        let mut url = String::from_str("https://himawari8.nict.go.jp/img/");
        url.append(self.image_type());
        url.append("/latest.json");
        assert(url@ =~= latest_url_of(image_type_name(self.infrared)));
        url
    }
}

/// The slot whose picture the archive names by the date it reports: the
/// date read as `%Y-%m-%d %H:%M:%S`, rounded down to its ten-minute slot;
/// where chrono refuses the text, an error with chrono's message.
pub fn slot_from_payload_date(date: &str) -> (r: Result<CivilTime, HimawariError>)
    ensures
        match naive_parse(date@, payload_date_format()) {
            Ok(t) => r == Ok::<CivilTime, HimawariError>(ten_minute_slot(t)),
            Err(m) => r matches Err(HimawariError::DateParse(e)) && e@ == m,
        },
        r matches Ok(t) ==> valid_civil(t),
{
    proof {
        reveal_strlit("%Y-%m-%d %H:%M:%S");
        assert("%Y-%m-%d %H:%M:%S"@ =~= payload_date_format());
    }
    match parse_naive(date, "%Y-%m-%d %H:%M:%S") {
        Ok(t) => {
            proof {
                crate::civil::lemma_slot_start(t);
            }
            Ok(slot_start(&t))
        },
        Err(m) => Err(HimawariError::DateParse(m)),
    }
}

/// The directory of the archive that holds the tiles of a grid at the time
/// `date`, the grid named as the archive names its zoom levels.
pub fn tile_base_url(level: &str, date: &CivilTime) -> (r: String)
    requires
        valid_civil(*date),
    ensures
        r@ == tile_base_url_of(level@, *date),
{
    proof {
        reveal_strlit("https://himawari8.nict.go.jp/img/D531106/");
        reveal_strlit("/550/");
        reveal_strlit("/");
        reveal_strlit("%Y");
        reveal_strlit("%m");
        reveal_strlit("%d");
        reveal_strlit("%H%M%S");
        assert("%Y"@ =~= seq!['%', 'Y']);
        assert("%m"@ =~= seq!['%', 'm']);
        assert("%d"@ =~= seq!['%', 'd']);
        assert("%H%M%S"@ =~= seq!['%', 'H'] + (seq!['%', 'M'] + seq!['%', 'S']));
        lemma_field(*date, 'Y');
        lemma_field(*date, 'm');
        lemma_field(*date, 'd');
        lemma_field(*date, 'H');
        lemma_field(*date, 'M');
        lemma_field(*date, 'S');
        lemma_format_concat(*date, seq!['%', 'M'], seq!['%', 'S']);
        lemma_format_concat(*date, seq!['%', 'H'], seq!['%', 'M'] + seq!['%', 'S']);
    }
    let mut url = String::from_str("https://himawari8.nict.go.jp/img/D531106/");
    url.append(level);
    url.append("/550/");
    let year = format_civil(date, "%Y");
    url.append(year.as_str());
    url.append("/");
    let month = format_civil(date, "%m");
    url.append(month.as_str());
    url.append("/");
    let day = format_civil(date, "%d");
    url.append(day.as_str());
    url.append("/");
    let clock = format_civil(date, "%H%M%S");
    url.append(clock.as_str());
    assert(url@ =~= tile_base_url_of(level@, *date));
    url
}

/// The address of the tile at column `x`, row `y` in a tile directory:
/// `<base>_<x>_<y>.png`.
pub fn tile_url(base: &str, x: u32, y: u32) -> (r: String)
    ensures
        r@ == tile_url_of(base@, x, y),
{
    proof {
        reveal_strlit("_");
        reveal_strlit(".png");
    }
    let mut url = String::from_str(base);
    url.append("_");
    let xs = decimal_text(x);
    url.append(xs.as_str());
    url.append("_");
    let ys = decimal_text(y);
    url.append(ys.as_str());
    url.append(".png");
    assert(url@ =~= tile_url_of(base@, x, y));
    url
}

impl Options {
    /// The tiles to download for the picture at the time `date`: for each
    /// column `x` and, within it, each row `y` of the grid, the address of
    /// that tile; an error where the zoom level is not served.
    pub fn tile_requests(&self, date: &CivilTime) -> (r: Result<Vec<TileRequest>, HimawariError>)
        requires
            valid_civil(*date),
        ensures
            match blocks_of_zoom(self.zoom) {
                Some(blocks) => r matches Ok(v) && v.len() == blocks * blocks && forall|i: int|
                    0 <= i < v.len() ==> {
                        &&& (#[trigger] v@[i]).x == i / (blocks as int)
                        &&& v@[i].y == i % (blocks as int)
                        &&& v@[i].url@ == tile_url_of(
                            tile_base_url_of(level_name(blocks), *date),
                            v@[i].x,
                            v@[i].y,
                        )
                    },
                None => r is Err && r == Err::<Vec<TileRequest>, HimawariError>(HimawariError::InvalidZoomLevel),
            },
    {
        let (level, blocks) = match self.level() {
            Ok(l) => l,
            Err(e) => return Err(e),
        };
        let base = tile_base_url(level, date);
        let ghost base_spec = tile_base_url_of(level_name(blocks), *date);
        let mut requests: Vec<TileRequest> = Vec::new();
        let mut x: u32 = 0;
        while x < blocks
            invariant
                blocks <= 8,
                x <= blocks,
                base@ == base_spec,
                requests.len() == x * blocks,
                forall|i: int| 0 <= i < requests.len() ==> {
                    &&& (#[trigger] requests@[i]).x == i / (blocks as int)
                    &&& requests@[i].y == i % (blocks as int)
                    &&& requests@[i].url@ == tile_url_of(base_spec, requests@[i].x, requests@[i].y)
                },
            decreases blocks - x,
        {
            let mut y: u32 = 0;
            while y < blocks
                invariant
                    blocks <= 8,
                    x < blocks,
                    y <= blocks,
                    base@ == base_spec,
                    requests.len() == x * blocks + y,
                    forall|i: int| 0 <= i < requests.len() ==> {
                        &&& (#[trigger] requests@[i]).x == i / (blocks as int)
                        &&& requests@[i].y == i % (blocks as int)
                        &&& requests@[i].url@ == tile_url_of(base_spec, requests@[i].x, requests@[i].y)
                    },
                decreases blocks - y,
            {
                let ghost k: int = x * blocks + y;
                assert(k / (blocks as int) == x && k % (blocks as int) == y) by (nonlinear_arith)
                    requires
                        x < blocks,
                        y < blocks,
                        k == x * blocks + y,
                ;
                let url = tile_url(base.as_str(), x, y);
                requests.push(TileRequest { url, x, y });
                y = y + 1;
            }
            assert(x * blocks + blocks == (x + 1) * blocks) by (nonlinear_arith);
            x = x + 1;
        }
        Ok(requests)
    }
}

/// The address of a tile names the column first and the row second: it is
/// the tile directory, `_`, the decimal digits of the column, `_`, the
/// decimal digits of the row, and `.png`, for every directory, column and row.
pub proof fn lemma_tile_url_names_column_then_row(base: Seq<char>, x: u32, y: u32)
    ensures
        exists|dx: Seq<char>, dy: Seq<char>|
            #![trigger number_text(dx, x as int), number_text(dy, y as int)]
            number_text(dx, x as int) && number_text(dy, y as int) && tile_url_of(base, x, y) == base + seq!['_']
                + dx + seq!['_'] + dy + seq!['.', 'p', 'n', 'g'],
{
    lemma_decimal_reads_back(x as nat);
    lemma_decimal_reads_back(y as nat);
    let dx = decimal(x as nat);
    let dy = decimal(y as nat);
    assert(number_text(dx, x as int) && number_text(dy, y as int));
    assert(tile_url_of(base, x, y) == base + seq!['_'] + dx + seq!['_'] + dy + seq!['.', 'p', 'n', 'g']);
}

/// The tile directory of a time in the years 0 to 9999 is the archive's
/// true-colour directory, the level's name, `550`, then the year in four
/// digits, the month, day, hour, minute and second in two digits each (a leap
/// second as 60), as `<year>/<month>/<day>/<hhmmss>`.
pub proof fn lemma_tile_base_url_names_the_time(level: Seq<char>, date: CivilTime)
    requires
        valid_civil(date),
        0 <= date.year <= 9999,
    ensures
        exists|dy: Seq<char>, dm: Seq<char>, dd: Seq<char>, dh: Seq<char>, dmi: Seq<char>, ds: Seq<char>|
            #![trigger reads_as(dy, 4, date.year as int), reads_as(dm, 2, date.month as int), reads_as(dd, 2, date.day as int), reads_as(dh, 2, date.hour as int), reads_as(dmi, 2, date.minute as int), reads_as(ds, 2, date.second + date.nanosecond / 1_000_000_000)]
            {
                &&& reads_as(dy, 4, date.year as int)
                &&& reads_as(dm, 2, date.month as int)
                &&& reads_as(dd, 2, date.day as int)
                &&& reads_as(dh, 2, date.hour as int)
                &&& reads_as(dmi, 2, date.minute as int)
                &&& reads_as(ds, 2, date.second + date.nanosecond / 1_000_000_000)
                &&& tile_base_url_of(level, date) == seq!['h', 't', 't', 'p', 's', ':', '/', '/', 'h', 'i', 'm', 'a', 'w', 'a',
                    'r', 'i', '8', '.', 'n', 'i', 'c', 't', '.', 'g', 'o', '.', 'j', 'p', '/', 'i', 'm', 'g', '/', 'D', '5',
                    '3', '1', '1', '0', '6', '/'] + level + seq!['/', '5', '5', '0', '/'] + dy + seq!['/'] + dm
                    + seq!['/'] + dd + seq!['/'] + dh + dmi + ds
            },
{
    assert(pow10(4) == 10000) by {
        reveal_with_fuel(pow10, 5);
    }
    lemma_zero_padded_reads_back(date.year as nat, 4);
    lemma_two_digits_read_back(date.month as int);
    lemma_two_digits_read_back(date.day as int);
    lemma_two_digits_read_back(date.hour as int);
    lemma_two_digits_read_back(date.minute as int);
    let sec = date.second + date.nanosecond / 1_000_000_000;
    lemma_two_digits_read_back(sec);
    let dy = year_text(date.year as int);
    let dm = two_digits(date.month as int);
    let dd = two_digits(date.day as int);
    let dh = two_digits(date.hour as int);
    let dmi = two_digits(date.minute as int);
    let ds = two_digits(sec);
    assert(reads_as(dy, 4, date.year as int));
    assert(reads_as(dm, 2, date.month as int));
    assert(reads_as(dd, 2, date.day as int));
    assert(reads_as(dh, 2, date.hour as int));
    assert(reads_as(dmi, 2, date.minute as int));
    assert(reads_as(ds, 2, sec));
    assert(tile_base_url_of(level, date) =~= seq!['h', 't', 't', 'p', 's', ':', '/', '/', 'h', 'i', 'm', 'a', 'w',
        'a', 'r', 'i', '8', '.', 'n', 'i', 'c', 't', '.', 'g', 'o', '.', 'j', 'p', '/', 'i', 'm', 'g', '/', 'D', '5',
        '3', '1', '1', '0', '6', '/'] + level + seq!['/', '5', '5', '0', '/'] + dy + seq!['/'] + dm + seq!['/'] + dd
        + seq!['/'] + dh + dmi + ds);
}

/// The archive's name of a grid is the decimal digits of its number of tiles
/// a side followed by `d`.
pub proof fn lemma_level_name_reads_back(blocks: u32)
    ensures
        exists|d: Seq<char>| #![trigger number_text(d, blocks as int)] number_text(d, blocks as int) && level_name(blocks) == d + seq!['d'],
{
    lemma_decimal_reads_back(blocks as nat);
    let d = decimal(blocks as nat);
    assert(number_text(d, blocks as int));
    assert(level_name(blocks) =~= d + seq!['d']);
}

} // verus!
