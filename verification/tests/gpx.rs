use moto_core::gpx::date::{civil_from_days, days_from_civil, days_in_month};
use moto_core::gpx::read::{element, parse_time_ms};
use moto_core::gpx::ride::ride_times;
use moto_core::gpx::scan::{attr_text, next_element};
use moto_core::gpx::text::{escape, iso_time};

#[test]
fn formats_times_in_utc() {
    assert_eq!(iso_time(0), "1970-01-01T00:00:00.000Z");
    assert_eq!(iso_time(951_782_400_000), "2000-02-29T00:00:00.000Z");
    assert_eq!(iso_time(1_790_000_000_123), "2026-09-21T14:13:20.123Z");
    assert_eq!(iso_time(4_102_444_799_999), "2099-12-31T23:59:59.999Z");
    assert_eq!(iso_time(-1), "1969-12-31T23:59:59.999Z");
}

#[test]
fn times_parse_strictly() {
    let t = parse_time_ms;
    assert_eq!(t("1970-01-01T00:00:00Z"), Some(0));
    assert_eq!(t("2026-09-24T07:30:00.123Z"), Some(parse_time_ms("2026-09-24T07:30:00Z").unwrap() + 123));
    assert_eq!(t("2026-09-24T07:30:00.1239Z"), t("2026-09-24T07:30:00.123Z"));
    assert_eq!(t("2026-09-24T09:30:00+02:00"), t("2026-09-24T07:30:00Z"));
    assert_eq!(t("2026-09-24T05:30:00-02:00"), t("2026-09-24T07:30:00Z"));
    assert_eq!(t("2024-02-29T00:00:00Z").map(iso_time).as_deref(), Some("2024-02-29T00:00:00.000Z"));
    for bad in [
        "",
        "2026-09-24",
        "2026-09-24T07:30:00",
        "2026-09-24T07:30:00ZZ",
        "2026-13-01T00:00:00Z",
        "2026-02-29T00:00:00Z",
        "2026-09-31T00:00:00Z",
        "2026-09-24T24:00:00Z",
        "2026-09-24T07:60:00Z",
        "2026-09-24T07:30:00.Z",
        "2026-09-24T07:30:00+2:00",
        "1969-12-31T23:59:59Z",
        "2101-01-01T00:00:00Z",
        "２026-09-24T07:30:00Z",
        "2026-09-24T07:30:00+24:00",
        "+2026-09-24T07:30:00Z",
    ] {
        assert_eq!(t(bad), None, "{bad}");
    }
    for day in (0..47_000).step_by(371) {
        let ms = day * 86_400_000 + 12_345_678;
        assert_eq!(t(&iso_time(ms)), Some(ms));
    }
}

#[test]
fn times_accept_the_other_separators() {
    assert_eq!(parse_time_ms("2026-09-24t07:30:00z"), parse_time_ms("2026-09-24T07:30:00Z"));
    assert_eq!(parse_time_ms("2026-09-24 07:30:00,5Z"), Some(parse_time_ms("2026-09-24T07:30:00Z").unwrap() + 500));
    assert_eq!(parse_time_ms("2100-01-01T00:00:00Z"), Some(4_102_444_800_000));
    assert_eq!(parse_time_ms("2100-01-01T00:00:00.001Z"), None);
}

#[test]
fn the_calendar_counts_days_from_1970() {
    assert_eq!(days_from_civil(1970, 1, 1), 0);
    assert_eq!(days_from_civil(2000, 3, 1), 11_017);
    assert_eq!(days_from_civil(1969, 12, 31), -1);
    assert_eq!(civil_from_days(11_016), (2000, 2, 29));
    assert_eq!(civil_from_days(-719_528), (0, 1, 1));
    assert_eq!(civil_from_days(47_482), (2100, 1, 1));
    assert_eq!(days_in_month(2024, 2), 29);
    assert_eq!(days_in_month(2100, 2), 28);
    assert_eq!(days_in_month(2000, 2), 29);
    assert_eq!(days_in_month(2026, 9), 30);
    assert_eq!(days_in_month(2026, 12), 31);
    for z in (-800_000..800_000).step_by(997) {
        let (y, m, d) = civil_from_days(z);
        assert_eq!(days_from_civil(y, m, d), z);
    }
}

#[test]
fn text_is_escaped_for_xml() {
    assert_eq!(escape("Ride <1> & \"more\"\u{0}"), "Ride &lt;1&gt; &amp; &quot;more&quot;");
    assert_eq!(escape("it's\ta\nb\r"), "it&apos;s\ta\nb\r");
    assert_eq!(escape("x\u{fffe}\u{ffff}\u{1}y"), "xy");
    assert_eq!(escape("Skåne"), "Skåne");
}

#[test]
fn element_text_is_found_and_trimmed() {
    assert_eq!(element("<ele>5</ele><time> 2026-09-24T07:30:00Z </time>", "time").as_deref(), Some("2026-09-24T07:30:00Z"));
    assert_eq!(element("<time>a</time><time>b</time>", "time").as_deref(), Some("a"));
    assert_eq!(element("<time>unclosed", "time"), None);
    assert_eq!(element("no tags here", "time"), None);
    assert_eq!(element("<moto:speed>3.5</moto:speed>", "moto:speed").as_deref(), Some("3.5"));
    assert_eq!(element("<time></time>", "time").as_deref(), Some(""));
}

#[test]
fn fix_times_never_go_back() {
    // A repeated or earlier time is nudged 1 ms past the one before.
    assert_eq!(ride_times(&[Some(5_000), Some(5_000), Some(4_000), Some(9_000)], 0), vec![5_000, 5_001, 5_002, 9_000]);
    assert_eq!(ride_times(&[Some(i64::MAX), Some(1)], 0), vec![i64::MAX, i64::MAX]);
}

#[test]
fn points_without_times_are_a_second_apart_from_the_first_time() {
    assert_eq!(ride_times(&[None, Some(10_000), None], 77), vec![10_000, 11_000, 12_000]);
    assert_eq!(ride_times(&[None, None, None], 77), vec![77, 1_077, 2_077]);
    assert_eq!(ride_times(&[], 77), Vec::<i64>::new());
    assert_eq!(ride_times(&[Some(i64::MAX - 500), None], 0), vec![i64::MAX - 500, i64::MAX]);
}

fn found(text: &str, name: &str, from: usize) -> Option<(String, String, usize)> {
    let chars: Vec<char> = text.chars().collect();
    let name: Vec<char> = name.chars().collect();
    next_element(&chars, &name, from).map(|f| {
        (
            chars[f.tag_start..f.tag_end].iter().collect(),
            chars[f.body_start..f.body_end].iter().collect(),
            f.next,
        )
    })
}

#[test]
fn finds_point_tags_and_bodies() {
    let gpx = r#"<trkptx lat="1"/><trkpt lat="2" lon="3"><time>t</time></trkpt><trkpt lat="4" lon="5"/>"#;
    let (tag, body, next) = found(gpx, "trkpt", 0).unwrap();
    assert_eq!(tag, r#" lat="2" lon="3""#);
    assert_eq!(body, "<time>t</time>");
    let (tag, body, next) = found(gpx, "trkpt", next).unwrap();
    assert_eq!(tag, r#" lat="4" lon="5"/"#);
    assert_eq!(body, "");
    assert!(found(gpx, "trkpt", next).is_none());
    assert!(found(gpx, "rtept", 0).is_none());
}

#[test]
fn an_unclosed_point_ends_at_the_next_one() {
    let gpx = "<trkpt a><time>1</time><trkpt b>x</trkpt>";
    let (tag, body, next) = found(gpx, "trkpt", 0).unwrap();
    assert_eq!((tag.as_str(), body.as_str()), (" a", "<time>1</time>"));
    let (tag, body, _) = found(gpx, "trkpt", next).unwrap();
    assert_eq!((tag.as_str(), body.as_str()), (" b", "x"));
    // A tag cut off by a '<' has no body; one never ended stops the scan.
    let (tag, body, _) = found("<trkpt a<b>", "trkpt", 0).unwrap();
    assert_eq!((tag.as_str(), body.as_str()), (" a", ""));
    assert!(found("<trkpt a", "trkpt", 0).is_none());
}

#[test]
fn attribute_values_are_read_in_either_quote() {
    assert_eq!(attr_text(" lat=\"55.1\" lon='13.1'", "lat").as_deref(), Some("55.1"));
    assert_eq!(attr_text(" lat=\"55.1\" lon='13.1'", "lon").as_deref(), Some("13.1"));
    // White space around `=` and inside the quotes.
    assert_eq!(attr_text("\n lat = \" 55.8 \"\n", "lat").as_deref(), Some("55.8"));
    // Part of a longer name is skipped; the real one further on counts.
    assert_eq!(attr_text(" xlat=\"1\" lat=\"2\"", "lat").as_deref(), Some("2"));
    assert_eq!(attr_text(" xlat=\"1\" lon=\"1\"", "lat"), None);
    // No quotes, no closing quote, or no `=`: nothing.
    assert_eq!(attr_text(" lat=1 lon=2", "lat"), None);
    assert_eq!(attr_text(" lat=\"1\" lon=\"2", "lon"), None);
    assert_eq!(attr_text(" lat \"1\"", "lat"), None);
    // The first real occurrence decides, even when it has no value.
    assert_eq!(attr_text(" lat lat=\"3\"", "lat"), None);
    assert_eq!(attr_text(" lat=\"\"", "lat").as_deref(), Some(""));
}

#[test]
fn escaped_text_holds_no_markup_or_forbidden_characters() {
    let out = escape("a<b>&\"'\u{1}\u{1f}\u{fffe}\u{ffff}\t\n\rz");
    assert_eq!(out, "a&lt;b&gt;&amp;&quot;&apos;\t\n\rz");
    assert!(out.chars().all(|c| !matches!(c, '<' | '>' | '"' | '\'')
        && (c as u32 >= 0x20 || matches!(c, '\t' | '\n' | '\r'))
        && c != '\u{fffe}' && c != '\u{ffff}'));
}

#[test]
fn written_times_parse_back() {
    for ms in [0i64, 951_782_400_000, 1_790_000_000_123, 4_102_444_799_999, 4_102_444_800_000] {
        assert_eq!(parse_time_ms(&iso_time(ms)), Some(ms));
    }
}
