use landsurvey::pnezd::{parse, parse_number, parse_with, Decimal, Delimiter, Format};

/// The double that a survey number is read as.
fn value(d: &Decimal) -> f64 {
    d.text.parse().unwrap()
}

#[test]
fn parses_basic_records_and_skips_junk() {
    // Comment + blank line are ignored; one unparseable line is skipped.
    let text = "\
# control points
1, 5000.00, 5000.00, 100.0, CP1
2, 5100.50, 5050.25, 101.2, IRON PIN, NE corner

garbage line
3, 5200, 5100, 102
";
    let out = parse(text);
    assert_eq!(out.points.len(), 3);
    assert_eq!(out.skipped, 1);
    assert_eq!(out.points[0].number, "1");
    assert_eq!(value(&out.points[0].northing), 5000.0);
    // Description keeps embedded commas (it is the trailing field).
    assert_eq!(out.points[1].description, "IRON PIN, NE corner");
    // Missing description is empty, not an error.
    assert_eq!(out.points[2].description, "");
}

#[test]
fn feature_code_is_first_description_token() {
    let out = parse("1, 5000, 4000, 10, CB 0.50 0.30\n2, 5001, 4001, 11,\n");
    assert_eq!(out.points[0].code(), "CB");
    assert_eq!(out.points[1].code(), ""); // empty description -> empty code
}

#[test]
fn keeps_alphanumeric_point_names() {
    let out = parse("CP1, 5000, 4000, 10, control\nTBM, 5001, 4001, 11, bench\n");
    assert_eq!(out.points.len(), 2);
    assert_eq!(out.points[0].number, "CP1");
    assert_eq!(out.points[1].number, "TBM");
}

#[test]
fn penzd_swaps_easting_and_northing() {
    // P, E, N, Z, D
    let out = parse_with("1, 5050.25, 5100.50, 101.2, X", &Format::penzd());
    assert_eq!(out.points.len(), 1);
    assert_eq!(value(&out.points[0].easting), 5050.25);
    assert_eq!(value(&out.points[0].northing), 5100.50);
}

#[test]
fn whitespace_delimited_collapses_runs_and_keeps_multiword_desc() {
    // Ragged spacing + a multi-word trailing description.
    let out = parse("1   5000.00    5000.00   100.0   IRON PIN NE corner\n");
    assert_eq!(out.points.len(), 1, "skipped {}", out.skipped);
    let p = &out.points[0];
    assert_eq!(value(&p.easting), 5000.0);
    assert_eq!(value(&p.elevation), 100.0);
    assert_eq!(p.description, "IRON PIN NE corner");
}

#[test]
fn tab_delimited() {
    let fmt = Format {
        delimiter: Delimiter::Tab,
        ..Format::pnezd()
    };
    let out = parse_with("1\t5000\t4000\t100\tCP\n2\t5001\t4001\t101\tIP\n", &fmt);
    assert_eq!(out.points.len(), 2);
    assert_eq!(value(&out.points[1].easting), 4001.0);
}

#[test]
fn semicolon_and_brazilian_numbers() {
    let out = parse("1;7.395.000,123;333.000,456;752,000;MARCO\n");
    assert_eq!(out.points.len(), 1, "skipped {}", out.skipped);
    let p = &out.points[0];
    assert!((value(&p.northing) - 7_395_000.123).abs() < 1e-9);
    assert!((value(&p.easting) - 333_000.456).abs() < 1e-9);
    assert!((value(&p.elevation) - 752.0).abs() < 1e-9);
}

#[test]
fn semicolon_with_decimal_point() {
    let out = parse("1;7395000.123;333000.456;752.5;MARCO\n");
    assert_eq!(out.points.len(), 1, "skipped {}", out.skipped);
    assert!((value(&out.points[0].northing) - 7_395_000.123).abs() < 1e-9);
    assert!((value(&out.points[0].easting) - 333_000.456).abs() < 1e-9);
}

#[test]
fn auto_detects_whitespace_when_no_commas() {
    let out = parse("1 5000 4000 100 GND\n");
    assert_eq!(out.points.len(), 1);
    assert_eq!(out.points[0].description, "GND");
}

#[test]
fn custom_column_order_without_number_or_elevation() {
    // Columns: Easting, Northing, Description (no number, no elevation).
    let fmt = Format {
        number: None,
        easting: 0,
        northing: 1,
        elevation: None,
        description: Some(2),
        delimiter: Delimiter::Whitespace,
    };
    let out = parse_with("5000.0 5100.0 GND\n", &fmt);
    assert_eq!(out.points.len(), 1);
    let p = &out.points[0];
    assert_eq!(value(&p.easting), 5000.0);
    assert_eq!(value(&p.northing), 5100.0);
    assert_eq!(value(&p.elevation), 0.0);
    assert_eq!(p.number, "");
    assert_eq!(p.description, "GND");
}

#[test]
fn numbers_in_every_notation() {
    let text = |s: &str| parse_number(s).map(|d| d.text);
    assert_eq!(text(" 5000,25 ").as_deref(), Some("5000.25"));
    assert_eq!(text("1,234,567").as_deref(), Some("1234567"));
    assert_eq!(text("1.234.567").as_deref(), Some("1234567"));
    assert_eq!(text("1,234.5").as_deref(), Some("1234.5"));
    assert_eq!(text("1.234,5").as_deref(), Some("1234.5"));
    assert_eq!(text("1\u{a0}234,5").as_deref(), Some("1234.5"));
    assert_eq!(text("1,2.3,4"), None);
    assert_eq!(text("inf"), None);
    assert_eq!(text("1e400"), None);
    assert_eq!(text(""), None);
}

/// A file in lines: number, northing, easting, elevation and description.
fn rows(text: &str, fmt: &Format) -> Vec<[String; 5]> {
    parse_with(text, fmt)
        .points
        .into_iter()
        .map(|p| [p.number, p.northing.text, p.easting.text, p.elevation.text, p.description])
        .collect()
}

#[test]
fn white_space_is_ascii_white_space() {
    let fmt = Format { delimiter: Delimiter::Whitespace, ..Format::pnezd() };
    assert_eq!(
        rows("1 5\u{a0}000 4000\t100 IRON\u{a0}PIN", &fmt),
        vec![["1", "5000", "4000", "100", "IRON\u{a0}PIN"]]
    );
}

#[test]
fn every_line_is_a_point_or_skipped_or_ignored() {
    let out = parse("a\n\n  # c\n1,2,3\r\n  \n2,x,3\n#\n3,4,5,6,7,8");
    assert_eq!((out.points.len(), out.skipped), (2, 2));
    assert_eq!(out.points[1].description, "7,8");
    assert_eq!(parse(""), Default::default());
}

#[test]
fn files_can_be_joined() {
    let (a, b) = ("1,2,3\nx\n", "2;3,5;4\n# end");
    let fmt = Format::pnezd();
    let both = format!("{a}\n{b}");
    let mut joined = rows(a, &fmt);
    joined.extend(rows(b, &fmt));
    assert_eq!(rows(&both, &fmt), joined);
    assert_eq!(parse(&both).skipped, parse(a).skipped + parse(b).skipped);
}

#[test]
fn exchanged_columns_exchange_coordinates() {
    let text = "1,2,3,4,d\n2;5,5;6;;";
    for (p, q) in rows(text, &Format::pnezd()).iter().zip(rows(text, &Format::penzd())) {
        assert_eq!((&p[1], &p[2]), (&q[2], &q[1]));
        assert_eq!((&p[0], &p[3], &p[4]), (&q[0], &q[3], &q[4]));
    }
}

#[test]
fn auto_takes_the_first_delimiter_that_gives_coordinates() {
    let fmt = Format::pnezd();
    // A comma gives no coordinates here, so the semicolon is taken.
    assert_eq!(rows("1;2,5;3,5", &fmt), vec![["1", "2.5", "3.5", "0", ""]]);
    assert_eq!(rows("1\t2\t3\t4\ta, b; c", &fmt), vec![["1", "2", "3", "4", "a, b; c"]]);
    assert_eq!(parse("1 2").skipped, 1);
    let comma = Format { delimiter: Delimiter::Comma, ..Format::pnezd() };
    assert_eq!(parse_with("1;2;3", &comma).skipped, 1);
}

#[test]
fn a_read_number_reads_as_itself() {
    for raw in [" 1.234.567,89 ", "1,5", "1 000", "-2.5e3", "1,234,567"] {
        let once = parse_number(raw).unwrap();
        assert_eq!(parse_number(&once.text).unwrap(), once, "{raw}");
    }
    assert_eq!(parse_number("1 2\u{a0}3\t4").unwrap().text, "1234");
    for raw in ["", " ", "x", "inf", "nan", "1e999", "1,2,3.4.5", "--1"] {
        assert!(parse_number(raw).is_none(), "{raw}");
    }
}

#[test]
fn only_a_description_takes_the_rest_of_a_line() {
    let fmt = Format {
        number: Some(0),
        northing: 1,
        easting: 2,
        elevation: Some(3),
        description: None,
        delimiter: Delimiter::Comma,
    };
    let out = parse_with("1,5000,4000,100,GND", &fmt);
    assert_eq!(out.points.len(), 1);
    assert_eq!(value(&out.points[0].elevation), 100.0);
    // A number in the last column is one field, whatever follows it.
    let plain = Format { number: None, northing: 0, easting: 1, elevation: None, ..fmt };
    assert_eq!(rows("5000,4000,7", &plain), vec![["", "5000", "4000", "0", ""]]);
    for delimiter in [Delimiter::Auto, Delimiter::Whitespace] {
        let f = Format { delimiter, ..plain.clone() };
        assert_eq!(rows("5000 4000 7 x", &f), vec![["", "5000", "4000", "0", ""]]);
    }
    // So is a description before the last mapped column.
    let early = Format { description: Some(2), elevation: Some(3), ..plain };
    assert_eq!(rows("1,2,a b,4,c", &early), vec![["", "1", "2", "4", "a b"]]);
    // One in the last mapped column is the rest.
    let late = Format { description: Some(2), elevation: None, ..early };
    assert_eq!(rows("1,2,a b,4,c", &late), vec![["", "1", "2", "0", "a b,4,c"]]);
}

#[test]
fn thousands_come_in_any_number_of_groups() {
    for raw in ["7.395.000,123", "7,395,000.123", "7395000,123", "7395.000,123"] {
        assert_eq!(parse_number(raw).unwrap().text, "7395000.123", "{raw}");
    }
}
