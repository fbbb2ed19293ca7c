use orts::finals2000a::{EopParseError, EopRow, Finals2000A};
use orts::reading::{FloatClass, FloatValue, Reading};

/// A key that orders binary64 values as the values are ordered.
fn key(v: f64) -> u64 {
    let v = if v == 0.0 { 0.0 } else { v };
    let b = v.to_bits();
    if b >> 63 == 1 {
        !b
    } else {
        b | (1 << 63)
    }
}

fn class(v: f64) -> FloatClass {
    if v.is_nan() {
        FloatClass::Nan
    } else if v == f64::INFINITY {
        FloatClass::PosInfinity
    } else if v == f64::NEG_INFINITY {
        FloatClass::NegInfinity
    } else if v < 0.0 {
        FloatClass::Negative
    } else if v == 0.0 {
        FloatClass::Zero
    } else {
        FloatClass::Positive
    }
}

fn reading(text: &str) -> Reading {
    match text.parse::<f64>() {
        Ok(v) => Reading::Number(FloatValue {
            class: class(v),
            unit: (v - 1.0).abs() <= 1e-9,
            key: key(v),
        }, v.to_string()),
        Err(_) => Reading::NotANumber,
    }
}

fn parse(text: &str) -> Result<Vec<EopRow>, EopParseError> {
    let readings: Vec<Vec<Reading>> = Finals2000A::fields(text)
        .iter()
        .map(|line| line.iter().map(|f| reading(f)).collect())
        .collect();
    Finals2000A::parse(text, &readings)
}

/// A row of `width` bytes with `fields` written right-aligned to end at the
/// given (exclusive) byte positions.
fn row(width: usize, fields: &[(usize, &str)]) -> String {
    let mut line = vec![b' '; width];
    line[0..6].copy_from_slice(b"250101");
    for &(end, text) in fields {
        let start = end - text.len();
        line[start..end].copy_from_slice(text.as_bytes());
    }
    String::from_utf8(line).unwrap()
}

/// A Bulletin A row: MJD, x pole, y pole, UT1-UTC, LOD.
fn a_row(mjd: &str) -> String {
    row(
        185,
        &[
            (15, mjd),
            (27, "0.123456"),
            (46, "0.234567"),
            (68, "-0.0123456"),
            (86, "1.2345"),
        ],
    )
}

fn value(text: &str) -> f64 {
    text.parse().unwrap()
}

#[test]
fn bulletin_a_values_are_read_from_their_columns() {
    let text = a_row("60676.00") + "\n";
    let rows = parse(&text).unwrap();
    assert_eq!(rows.len(), 1);
    let e = &rows[0];
    assert_eq!(value(&e.mjd), 60676.0);
    assert_eq!(value(&e.xp), 0.123456);
    assert_eq!(value(&e.yp), 0.234567);
    assert_eq!(value(&e.dut1), -0.0123456);
    // LOD is in milliseconds as written; the caller scales it.
    assert_eq!(e.lod.as_deref().map(value).map(|ms| ms * 1e-3), Some(1.2345e-3));
    assert_eq!(e.dx, None);
    assert_eq!(e.dy, None);
}

#[test]
fn bulletin_b_is_preferred_where_present() {
    let line = row(
        185,
        &[
            (15, "60676.00"),
            (27, "0.1"),
            (46, "0.2"),
            (68, "0.3"),
            (106, "0.05"),
            (125, "0.06"),
            (144, "0.11"),
            (154, "0.22"),
            (165, "0.33"),
            (175, "0.055"),
        ],
    );
    let rows = parse(&line).unwrap();
    let e = &rows[0];
    assert_eq!(e.xp, "0.11");
    assert_eq!(e.yp, "0.22");
    assert_eq!(e.dut1, "0.33");
    assert_eq!(e.dx.as_deref(), Some("0.055"));
    // No Bulletin B dY, so Bulletin A's.
    assert_eq!(e.dy.as_deref(), Some("0.06"));
    assert_eq!(e.lod, None);
}

#[test]
fn short_lines_and_header_lines_are_skipped() {
    let header = row(90, &[(15, "    MJD ")]);
    let text = format!("finals2000A\n\n{header}\n{}\n", a_row("60676.00"));
    let rows = parse(&text).unwrap();
    assert_eq!(rows.len(), 1);
}

#[test]
fn the_padded_tail_of_the_published_file_is_skipped() {
    let tail = row(185, &[(15, "60677.00")]);
    let text = format!("{}\n{tail}\n{tail}\n", a_row("60676.00"));
    assert_eq!(parse(&text).unwrap().len(), 1);
}

#[test]
fn a_row_with_some_required_values_is_malformed() {
    let partial = row(185, &[(15, "60677.00"), (27, "0.1")]);
    let text = format!("{}\n{partial}\n", a_row("60676.00"));
    assert_eq!(
        parse(&text),
        Err(EopParseError::InvalidNumber {
            line: 2,
            column: "yp_A",
            value: String::new()
        })
    );
}

#[test]
fn the_mjd_must_increase() {
    let text = format!("{}\n{}\n", a_row("60676.00"), a_row("60676.00"));
    assert_eq!(
        parse(&text),
        Err(EopParseError::NonMonotonicMjd {
            line: 2,
            previous: "60676.00".to_string(),
            current: "60676.00".to_string()
        })
    );
    let text = format!("{}\n{}\n{}\n", a_row("60676.00"), a_row("60677.00"), a_row("60678.00"));
    let rows = parse(&text).unwrap();
    assert!(rows.windows(2).all(|w| w[0].mjd_key < w[1].mjd_key));
}

#[test]
fn a_non_finite_value_is_an_invalid_number() {
    let text = row(185, &[(15, "NaN"), (27, "0.1"), (46, "0.2"), (68, "0.3")]);
    assert_eq!(
        parse(&text),
        Err(EopParseError::InvalidNumber {
            line: 1,
            column: "MJD",
            value: "NaN".to_string()
        })
    );
    let text = row(185, &[(15, "60676.00"), (27, "inf"), (46, "0.2"), (68, "0.3")]);
    assert!(matches!(
        parse(&text),
        Err(EopParseError::InvalidNumber { column: "xp_A", .. })
    ));
    // A Bulletin B NaN does not win over a good Bulletin A value.
    let text = row(
        185,
        &[(15, "60676.00"), (27, "0.1"), (46, "0.2"), (68, "0.3"), (144, "NaN")],
    );
    assert_eq!(
        parse(&text),
        Err(EopParseError::InvalidNumber {
            line: 1,
            column: "xp_B",
            value: "NaN".to_string()
        })
    );
}

#[test]
fn an_optional_column_holding_garbage_is_an_error() {
    let text = row(
        185,
        &[(15, "60676.00"), (27, "0.1"), (46, "0.2"), (68, "0.3"), (86, "0.3O0")],
    );
    assert_eq!(
        parse(&text),
        Err(EopParseError::InvalidNumber {
            line: 1,
            column: "lod_A",
            value: "0.3O0".to_string()
        })
    );
}

#[test]
fn a_line_that_stops_inside_a_column_has_no_value_there() {
    // The row stops at byte 82, inside LOD's 78..86.
    let mut text = row(185, &[(15, "60676.00"), (27, "0.1"), (46, "0.2"), (68, "0.3")]);
    text.truncate(78);
    text.push_str("1.23");
    let rows = parse(&text).unwrap();
    assert_eq!(rows[0].lod, None);
}

#[test]
fn a_text_with_no_rows_is_empty() {
    assert_eq!(parse(""), Err(EopParseError::Empty));
    assert_eq!(parse("header\nmore header\n"), Err(EopParseError::Empty));
}

#[test]
fn the_fields_are_the_trimmed_columns() {
    let fields = Finals2000A::fields(&a_row("60676.00"));
    assert_eq!(fields.len(), 1);
    assert_eq!(fields[0].len(), 12);
    assert_eq!(fields[0][0], "60676.00");
    assert_eq!(fields[0][3], "-0.0123456");
    assert_eq!(fields[0][5], "");
    // A line too short to be a row offers nothing.
    let fields = Finals2000A::fields("short line");
    assert!(fields[0].iter().all(|f| f.is_empty()));
}

#[test]
fn a_column_that_would_cut_a_character_is_refused_only_where_it_is_read() {
    // A long header line whose MJD column is not a number: the reader never
    // slices its later columns, so a character across one of them is fine.
    let mut header = String::from("# header line X");
    while header.len() < 90 {
        header.push('é');
    }
    let text = format!("{header}\n{}\n", a_row("60676.00"));
    let readings: Vec<Vec<Reading>> = Finals2000A::fields(&text)
        .iter()
        .map(|line| line.iter().map(|f| reading(f)).collect())
        .collect();
    assert_eq!(Finals2000A::try_parse(&text, &readings).map(|r| r.map(|v| v.len())), Some(Ok(1)));
    // A data row with a two-byte character across the start of LOD's column
    // is one the reader would slice through.
    let mut row = a_row("60676.00").into_bytes();
    row[77..79].copy_from_slice("é".as_bytes());
    let text = String::from_utf8(row).unwrap();
    let readings: Vec<Vec<Reading>> = Finals2000A::fields(&text)
        .iter()
        .map(|line| line.iter().map(|f| reading(f)).collect())
        .collect();
    assert!(Finals2000A::try_parse(&text, &readings).is_none());
}

#[test]
fn a_blank_required_column_never_reads_as_a_number() {
    let partial = row(185, &[(15, "60677.00"), (27, "0.1"), (68, "0.3")]);
    let text = format!("{partial}\n");
    // Whatever reading the caller hands over for the blank y pole.
    let one = Reading::Number(
        FloatValue { class: FloatClass::Positive, unit: true, key: key(1.0) },
        "1".to_string(),
    );
    let mut readings: Vec<Vec<Reading>> = Finals2000A::fields(&text)
        .iter()
        .map(|line| line.iter().map(|f| reading(f)).collect())
        .collect();
    readings[0][2] = one.clone();
    assert_eq!(
        Finals2000A::parse(&text, &readings),
        Err(EopParseError::InvalidNumber { line: 1, column: "yp_A", value: String::new() })
    );
    // A blank MJD skips the row, whatever reading comes with it.
    let undated = row(185, &[(27, "0.1"), (46, "0.2"), (68, "0.3")]);
    let text = format!("{undated}\n{}\n", a_row("60676.00"));
    let mut readings: Vec<Vec<Reading>> = Finals2000A::fields(&text)
        .iter()
        .map(|line| line.iter().map(|f| reading(f)).collect())
        .collect();
    readings[0][0] = one;
    assert_eq!(parse(&text).unwrap().len(), 1);
    assert_eq!(Finals2000A::parse(&text, &readings).unwrap().len(), 1);
}

#[test]
fn a_blank_tail_row_does_not_move_the_mjd_baseline() {
    let tail = row(185, &[(15, "10.00")]);
    let text = format!("{}\n{tail}\n{}\n", a_row("60676.00"), a_row("60677.00"));
    let rows = parse(&text).unwrap();
    assert_eq!(rows.len(), 2);
    assert_eq!(rows[1].mjd, "60677.00");
}
