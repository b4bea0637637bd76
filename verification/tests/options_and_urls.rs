use himawari_render::options::{DateOptions, Options};
use himawari_render::{
    archive_latest_url, archive_tile_url, archive_time, slot_from_payload_date, slot_start, tile_base_url, tile_url,
    CivilTime, HimawariError,
};

fn options_with(zoom: u32, infrared: bool) -> Options {
    Options { zoom, infrared, ..Options::default() }
}

fn civil(year: i32, month: u32, day: u32, hour: u32, minute: u32, second: u32) -> CivilTime {
    CivilTime { year, month, day, hour, minute, second, nanosecond: 0 }
}

#[test]
fn default_options() {
    let o = Options::default();
    assert!(matches!(o.date, DateOptions::Latest));
    assert!(!o.infrared);
    assert_eq!(o.zoom, 2);
    assert_eq!(o.timeout_seconds, 30);
}

#[test]
fn level_of_each_zoom() {
    for infrared in [false, true] {
        assert_eq!(options_with(1, infrared).level(), Ok(("1d", 1)));
        assert_eq!(options_with(2, infrared).level(), Ok(("4d", 4)));
        assert_eq!(options_with(3, infrared).level(), Ok(("8d", 8)));
        assert_eq!(options_with(0, infrared).level(), Err(HimawariError::InvalidZoomLevel));
        assert_eq!(options_with(4, infrared).level(), Err(HimawariError::InvalidZoomLevel));
    }
}

#[test]
fn error_messages() {
    assert_eq!(HimawariError::InvalidZoomLevel.message(), "Invalid zoom level");
    assert_eq!(HimawariError::DateParse("premature end of input".to_string()).message(), "premature end of input");
    assert_eq!(HimawariError::TileDecode("bad".to_string()).message(), "bad");
    assert_eq!(HimawariError::TileOutOfBounds("big".to_string()).message(), "big");
}

fn date_error(text: &str) -> HimawariError {
    HimawariError::DateParse(text.to_string())
}

#[test]
fn latest_urls() {
    assert_eq!(options_with(2, false).image_type(), "D531106");
    assert_eq!(options_with(2, true).image_type(), "INFRARED_FULL");
    assert_eq!(options_with(2, false).latest_url(), "https://himawari8.nict.go.jp/img/D531106/latest.json");
    assert_eq!(options_with(2, true).latest_url(), "https://himawari8.nict.go.jp/img/INFRARED_FULL/latest.json");
    assert_eq!(archive_latest_url(), "http://himawari8-dl.nict.go.jp/himawari8/img/D531106/latest.json");
}

#[test]
fn payload_date_is_rounded_down_to_its_slot() {
    assert_eq!(slot_from_payload_date("2020-01-02 03:47:59"), Ok(civil(2020, 1, 2, 3, 40, 0)));
    assert_eq!(slot_from_payload_date("2020-01-02 03:40:00"), Ok(civil(2020, 1, 2, 3, 40, 0)));
    assert_eq!(slot_from_payload_date("2020-01-02 03:09:00"), Ok(civil(2020, 1, 2, 3, 0, 0)));
    assert_eq!(slot_from_payload_date("2016-12-31 23:59:60"), Ok(civil(2016, 12, 31, 23, 50, 0)));
}

#[test]
fn payload_date_errors() {
    assert_eq!(slot_from_payload_date("not a date"), Err(date_error("input contains invalid characters")));
    assert_eq!(slot_from_payload_date("2020-02-30 03:47:59"), Err(date_error("input is out of range")));
    assert_eq!(slot_from_payload_date("2020-01-02 24:00:00"), Err(date_error("input is out of range")));
    assert_eq!(slot_from_payload_date(""), Err(date_error("premature end of input")));
}

#[test]
fn slot_start_drops_seconds_and_fraction() {
    let t = CivilTime { year: 2021, month: 7, day: 4, hour: 9, minute: 59, second: 59, nanosecond: 1_500_000_000 };
    assert_eq!(slot_start(&t), civil(2021, 7, 4, 9, 50, 0));
    assert_eq!(slot_start(&slot_start(&t)), slot_start(&t));
}

#[test]
fn tile_directory_and_addresses() {
    let date = civil(2020, 1, 2, 3, 40, 0);
    let base = tile_base_url("4d", &date);
    assert_eq!(base, "https://himawari8.nict.go.jp/img/D531106/4d/550/2020/01/02/034000");
    assert_eq!(tile_url(&base, 3, 12), format!("{}_3_12.png", base));
    assert_eq!(tile_url("b", 0, 0), "b_0_0.png");
    assert_eq!(tile_url("b", 4294967295, 10), "b_4294967295_10.png");
}

#[test]
fn years_are_written_as_chrono_writes_them() {
    assert_eq!(tile_base_url("1d", &civil(99, 5, 6, 7, 8, 9)), "https://himawari8.nict.go.jp/img/D531106/1d/550/0099/05/06/070809");
    assert_eq!(tile_base_url("1d", &civil(12345, 5, 6, 7, 8, 9)), "https://himawari8.nict.go.jp/img/D531106/1d/550/+12345/05/06/070809");
    assert_eq!(tile_base_url("1d", &civil(-5, 5, 6, 7, 8, 9)), "https://himawari8.nict.go.jp/img/D531106/1d/550/-0005/05/06/070809");
    let leap = CivilTime { year: 2016, month: 12, day: 31, hour: 23, minute: 59, second: 59, nanosecond: 1_000_000_000 };
    assert_eq!(tile_base_url("1d", &leap), "https://himawari8.nict.go.jp/img/D531106/1d/550/2016/12/31/235960");
}

#[test]
fn requests_cover_the_grid_column_by_column() {
    let date = civil(2020, 1, 2, 3, 40, 0);
    let base = "https://himawari8.nict.go.jp/img/D531106/4d/550/2020/01/02/034000";
    let requests = options_with(2, false).tile_requests(&date).unwrap();
    assert_eq!(requests.len(), 16);
    for (i, r) in requests.iter().enumerate() {
        assert_eq!(r.x as usize, i / 4);
        assert_eq!(r.y as usize, i % 4);
        assert_eq!(r.url, format!("{}_{}_{}.png", base, i / 4, i % 4));
    }
    let one = options_with(1, true).tile_requests(&date).unwrap();
    assert_eq!(one.len(), 1);
    assert_eq!(one[0].url, "https://himawari8.nict.go.jp/img/D531106/1d/550/2020/01/02/034000_0_0.png");
    assert_eq!(options_with(3, false).tile_requests(&date).unwrap().len(), 64);
    assert!(matches!(options_with(7, false).tile_requests(&date), Err(HimawariError::InvalidZoomLevel)));
}

#[test]
fn archive_time_reads_japan_time() {
    assert_eq!(archive_time("2019-05-06 07:08:09"), Ok(civil(2019, 5, 6, 7, 8, 9)));
    assert_eq!(archive_time("2019-05-06 07:08"), Err(date_error("input contains invalid characters")));
    assert_eq!(archive_time("garbage"), Err(date_error("input contains invalid characters")));
}

#[test]
fn archive_tile_addresses() {
    let t = civil(2019, 5, 6, 7, 8, 9);
    assert_eq!(archive_tile_url(&t, 550, 4, 1, 2), "http://himawari8.nict.go.jp/img/D531106/4d/550/2019/05/06/070809_1_2.png");
    assert_eq!(archive_tile_url(&t, 550, 20, 19, 0), "http://himawari8.nict.go.jp/img/D531106/20d/550/2019/05/06/070809_19_0.png");
}
