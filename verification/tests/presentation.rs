use query_monitor::format::{content_layout, format_batches, ContentLine, SqlSizeClass, SubStatement};
use query_monitor::item::{plan_item, ItemLine};
use query_monitor::scroll::ScrollState;
use query_monitor::palette::{
    get_http_method_color, interpolate_color, sql_size_color, syn_style_to_ratatui,
    upper_method_color,
};
use query_monitor::time::{extract_time_from_timestamp, fallback_time_of, time_label};

#[test]
fn the_time_is_cut_out_of_a_timestamp() {
    assert_eq!(fallback_time_of("2023-12-01T14:30:25.123Z"), "14:30:25");
    assert_eq!(fallback_time_of("2023-12-01T14:30:25"), "14:30:25");
    assert_eq!(fallback_time_of("2023-12-01 14:30:25.5"), "14:30:25");
    assert_eq!(fallback_time_of("2023-12-01 14:30:25 +0100"), "14:30:25");
    assert_eq!(fallback_time_of("aTbTc"), "b");
    assert_eq!(fallback_time_of("T"), "");
    assert_eq!(fallback_time_of("T.5"), "");
    assert_eq!(fallback_time_of("day T1.2 x.y"), "1");
    assert_eq!(fallback_time_of("yesterday"), "yesterday");
    assert_eq!(fallback_time_of("12.5"), "12.5");
    assert_eq!(fallback_time_of(""), "");
}

#[test]
fn a_parsed_time_wins_over_the_cut() {
    assert_eq!(time_label("2023-12-01T14:30:25Z", Some("15:30:25".to_string())), "15:30:25");
    assert_eq!(time_label("2023-12-01T14:30:25Z", None), "14:30:25Z");
    assert_eq!(time_label("nonsense", None), "nonsense");
}

#[test]
fn a_timestamp_that_parses_gives_a_time_of_day() {
    let shown = extract_time_from_timestamp("2023-12-01T14:30:25.123Z");
    let parts: Vec<&str> = shown.split(':').collect();
    assert_eq!(parts.len(), 3);
    assert_eq!(parts[2], "25");
    assert_eq!(shown.len(), 8);
    let shown = extract_time_from_timestamp("2023-12-01 14:30:07+00:00");
    assert_eq!(shown.len(), 8);
    assert!(shown.ends_with(":07"));
    assert_eq!(extract_time_from_timestamp("not a time"), "a");
    assert_eq!(extract_time_from_timestamp("2023-13-45T99:99:99.1"), "99:99:99");
}

#[test]
fn dull_greys_turn_beige() {
    assert_eq!(syn_style_to_ratatui(120, 120, 120), (245, 222, 179));
    assert_eq!(syn_style_to_ratatui(101, 101, 101), (245, 222, 179));
    assert_eq!(syn_style_to_ratatui(179, 179, 179), (245, 222, 179));
    assert_eq!(syn_style_to_ratatui(180, 180, 180), (180, 180, 180));
    assert_eq!(syn_style_to_ratatui(100, 100, 100), (245, 222, 179));
    assert_eq!(syn_style_to_ratatui(80, 80, 80), (80, 80, 80));
    assert_eq!(syn_style_to_ratatui(81, 100, 119), (245, 222, 179));
    assert_eq!(syn_style_to_ratatui(81, 101, 119), (81, 101, 119));
    assert_eq!(syn_style_to_ratatui(139, 120, 139), (245, 222, 179));
    assert_eq!(syn_style_to_ratatui(140, 140, 121), (140, 140, 121));
    assert_eq!(syn_style_to_ratatui(255, 0, 0), (255, 0, 0));
    assert_eq!(syn_style_to_ratatui(0, 0, 0), (0, 0, 0));
}

#[test]
fn size_classes_have_their_colours() {
    assert_eq!(sql_size_color(SqlSizeClass::Small), (80, 200, 120));
    assert_eq!(sql_size_color(SqlSizeClass::Medium), (255, 193, 7));
    assert_eq!(sql_size_color(SqlSizeClass::Big), (255, 87, 34));
    assert_eq!(sql_size_color(SqlSizeClass::Abomination), (186, 48, 255));
}

#[test]
fn methods_have_their_colours_in_any_case() {
    assert_eq!(get_http_method_color("GET"), (97, 175, 254));
    assert_eq!(get_http_method_color("get"), (97, 175, 254));
    assert_eq!(get_http_method_color("Post"), (73, 204, 144));
    assert_eq!(get_http_method_color("put"), (252, 161, 48));
    assert_eq!(get_http_method_color("delete"), (249, 62, 62));
    assert_eq!(get_http_method_color("PATCH"), (80, 227, 194));
    assert_eq!(get_http_method_color("options"), (144, 18, 254));
    assert_eq!(get_http_method_color("head"), (155, 155, 155));
    assert_eq!(get_http_method_color("CALL"), (128, 128, 128));
    assert_eq!(get_http_method_color(""), (128, 128, 128));
    assert_eq!(upper_method_color(&"GET".to_string()), (97, 175, 254));
    assert_eq!(upper_method_color(&"get".to_string()), (128, 128, 128));
}

#[test]
fn content_lines_are_laid_out_block_by_block() {
    let subs = vec![
        SubStatement { raw: "one".to_string(), formatted: "ONE\n1".to_string() },
        SubStatement { raw: "two".to_string(), formatted: String::new() },
    ];
    assert_eq!(
        content_layout(&subs),
        vec![
            ContentLine::Header(0),
            ContentLine::Text(0, 0),
            ContentLine::Text(0, 1),
            ContentLine::Separator(0),
            ContentLine::Header(1),
            ContentLine::Text(1, 0),
            ContentLine::Separator(1),
        ]
    );
    assert!(content_layout(&Vec::new()).is_empty());
    let subs = format_batches("[-- Batch Command 1]\nSELECT 1;\n[-- Batch Command 2]\nSELECT 2;");
    assert_eq!(content_layout(&subs).len(), 8);
}

fn numbered(n: usize) -> Vec<ContentLine> {
    (0..n).map(|l| ContentLine::Text(0, l)).collect()
}

fn content(l: usize, cursor: bool) -> ItemLine {
    ItemLine::Content { line: ContentLine::Text(0, l), cursor }
}

#[test]
fn a_record_without_content_says_so() {
    let state = ScrollState { offset: 3, cursor: 1 };
    assert_eq!(plan_item(&Vec::new(), state, 10, true), vec![ItemLine::NoContent]);
    assert_eq!(plan_item(&numbered(4), state, 0, false), vec![ItemLine::NotVisible]);
}

#[test]
fn content_that_fits_is_shown_whole() {
    let state = ScrollState { offset: 7, cursor: 1 };
    assert_eq!(
        plan_item(&numbered(3), state, 5, false),
        vec![content(0, false), content(1, false), content(2, false)]
    );
    assert_eq!(
        plan_item(&numbered(3), state, 3, true),
        vec![content(0, false), content(1, true), content(2, false)]
    );
}

#[test]
fn long_content_is_shown_through_the_window() {
    let state = ScrollState { offset: 2, cursor: 3 };
    assert_eq!(
        plan_item(&numbered(10), state, 3, true),
        vec![
            ItemLine::ScrollPosition { first: 3, total: 10 },
            content(2, false),
            content(3, true),
            content(4, false),
            ItemLine::MoreBelow { remaining: 5 },
        ]
    );
    assert_eq!(
        plan_item(&numbered(10), state, 3, false),
        vec![
            ItemLine::TooLong { total: 10 },
            content(2, false),
            content(3, false),
            content(4, false),
            ItemLine::MoreBelow { remaining: 5 },
        ]
    );
    // a stale offset is clamped, and nothing is left below the last window
    let state = ScrollState { offset: 50, cursor: 9 };
    assert_eq!(
        plan_item(&numbered(10), state, 3, true),
        vec![
            ItemLine::ScrollPosition { first: 8, total: 10 },
            content(7, false),
            content(8, false),
            content(9, true),
        ]
    );
}

fn mixed(a: u8, b: u8, t: f64) -> u8 {
    ((a as f64) + (b as f64 - a as f64) * t).round() as u8
}

fn mixed_colour(ms: u64) -> (u8, u8, u8) {
    let green = (38, 255, 0);
    let yellow = (255, 252, 66);
    let red = (237, 83, 83);
    if ms < 250 {
        let t = ms as f64 / 500.0;
        (mixed(green.0, yellow.0, t), mixed(green.1, yellow.1, t), mixed(green.2, yellow.2, t))
    } else if ms < 5000 {
        let t = (ms.saturating_sub(500)) as f64 / (5000.0 - 500.0);
        (mixed(yellow.0, red.0, t), mixed(yellow.1, red.1, t), mixed(yellow.2, red.2, t))
    } else {
        red
    }
}

#[test]
fn durations_have_their_colours() {
    assert_eq!(interpolate_color(0), (38, 255, 0));
    assert_eq!(interpolate_color(125), (92, 254, 17));
    assert_eq!(interpolate_color(249), (146, 254, 33));
    assert_eq!(interpolate_color(250), (255, 252, 66));
    assert_eq!(interpolate_color(500), (255, 252, 66));
    assert_eq!(interpolate_color(625), (255, 247, 66));
    assert_eq!(interpolate_color(2750), (246, 168, 75));
    assert_eq!(interpolate_color(4999), (237, 83, 83));
    assert_eq!(interpolate_color(5000), (237, 83, 83));
    assert_eq!(interpolate_color(u64::MAX), (237, 83, 83));
}

#[test]
fn the_colour_of_a_duration_is_the_rounded_mix() {
    for ms in 0..6000u64 {
        assert_eq!(interpolate_color(ms), mixed_colour(ms));
    }
    assert_eq!(interpolate_color(1 << 40), mixed_colour(1 << 40));
}

fn reads_as_a_clock(t: &str) -> bool {
    let c: Vec<char> = t.chars().collect();
    c.len() == 8
        && c[2] == ':'
        && c[5] == ':'
        && [0, 1, 3, 4, 6, 7].iter().all(|&i| c[i].is_ascii_digit())
}

#[test]
fn a_parsed_time_reads_as_a_clock() {
    let parsed = [
        "2023-12-01T14:30:25.123Z",
        "2023-12-01T04:05:06+05:30",
        "1996-12-19T16:39:57-08:00",
        "2016-12-31T23:59:60Z",
        "0001-01-01T00:00:00Z",
        "9999-12-31T23:59:59.999999999Z",
        "2012-12-12 12:12:12Z",
        "2012-12-12 12:12:12+0000",
        "2012-12-12t01:02:03z",
    ];
    for timestamp in parsed {
        let shown = extract_time_from_timestamp(timestamp);
        assert!(reads_as_a_clock(&shown));
        assert_ne!(shown, timestamp);
    }
}

#[test]
fn a_time_that_cannot_be_parsed_is_cut_out() {
    let unparsed = [
        "2023-12-01T14:30:25",
        "2023-12-01 14:30:25.5",
        "2023-13-45T99:99:99.1Z",
        "yesterday at noon",
        "T",
        "",
        "14:30",
    ];
    for timestamp in unparsed {
        assert_eq!(extract_time_from_timestamp(timestamp), fallback_time_of(timestamp));
    }
    assert_eq!(extract_time_from_timestamp("2023-12-01T14:30:25"), "14:30:25");
    assert_eq!(extract_time_from_timestamp("yesterday at noon"), "at");
}
