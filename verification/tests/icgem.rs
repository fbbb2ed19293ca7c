use orts::icgem::{
    parse, tokens_by_line, tri_index, tri_len, Coefficient, IcgemParseError, ParsedIcgem, Parser,
    TideSystem, MAX_DEGREE,
};
use orts::reading::{with_e_exponent, FloatClass, FloatValue, Reading};

/// A Fortran-style float (`0.484D-03` as well as `4.84e-4`).
fn parse_f64(s: &str) -> Option<f64> {
    if let Ok(v) = s.parse::<f64>() {
        return Some(v);
    }
    with_e_exponent(s).parse::<f64>().ok()
}

/// A key that orders binary64 values as the values are ordered.
fn key(v: f64) -> u64 {
    let v = if v == 0.0 { 0.0 } else { v };
    let b = v.to_bits();
    if b >> 63 == 1 {
        !b
    } else {
        b | (1 << 63)
    }
}

fn class(v: f64) -> FloatClass {
    if v.is_nan() {
        FloatClass::Nan
    } else if v == f64::INFINITY {
        FloatClass::PosInfinity
    } else if v == f64::NEG_INFINITY {
        FloatClass::NegInfinity
    } else if v < 0.0 {
        FloatClass::Negative
    } else if v == 0.0 {
        FloatClass::Zero
    } else {
        FloatClass::Positive
    }
}

fn reading(token: &str) -> Reading {
    match parse_f64(token) {
        Some(v) => Reading::Number(FloatValue {
            class: class(v),
            unit: (v - 1.0).abs() <= 1e-9,
            key: key(v),
        }, v.to_string()),
        None => Reading::NotANumber,
    }
}

fn readings_of(text: &str) -> Vec<Vec<Reading>> {
    tokens_by_line(text)
        .iter()
        .map(|line| line.iter().map(|t| reading(t)).collect())
        .collect()
}

fn parse_with(text: &str, max_degree: Option<usize>) -> Result<ParsedIcgem, IcgemParseError> {
    parse(text, max_degree, &readings_of(text))
}

fn whole(text: &str) -> Result<ParsedIcgem, IcgemParseError> {
    parse_with(text, None)
}

fn feed(parser: &mut Parser, line: &str) -> Result<(), IcgemParseError> {
    let readings: Vec<Reading> = line.split_whitespace().map(reading).collect();
    parser.feed_line(line, &readings)
}

fn number(c: &Coefficient) -> f64 {
    match c {
        Coefficient::Zero => 0.0,
        Coefficient::One => 1.0,
        Coefficient::Written(t) => parse_f64(t).expect("a written coefficient is a number"),
    }
}

fn numbers(cs: &[Coefficient]) -> Vec<f64> {
    cs.iter().map(number).collect()
}

/// A complete degree-2 model with Fortran exponents and the header layout
/// ICGEM actually emits.
const MINIMAL: &str = "\
begin_of_head
product_type            gravity_field
modelname               TEST2
earth_gravity_constant  0.3986004415D+15
radius                  0.6378136300D+07
max_degree              2
errors                  no
norm                    fully_normalized
tide_system             zero_tide

key   L    M    C                    S
end_of_head
gfc   0    0    1.0D+00              0.0D+00
gfc   1    0    0.0                  0.0
gfc   1    1    0.0                  0.0
gfc   2    0   -0.484165143790815D-03 0.0
gfc   2    1   -0.206615509074176D-09 0.138441389137979D-08
gfc   2    2    0.243938357328313D-05 -0.140027370385934D-05
";

/// Insert `record` before the last coefficient, so the parser has not
/// completed the triangle (and stopped reading) when it gets there.
fn inject(record: &str) -> String {
    MINIMAL.replace("gfc   2    2", &format!("{record}\ngfc   2    2"))
}

#[test]
fn parses_header_and_converts_to_km() {
    let p = whole(MINIMAL).unwrap();
    assert_eq!(parse_f64(&p.gm).unwrap() / 1e9, 398600.4415);
    assert_eq!(parse_f64(&p.radius).unwrap() / 1e3, 6378.1363);
    assert_eq!(p.max_degree, 2);
    assert_eq!(p.tide_system, TideSystem::ZeroTide);
    assert_eq!(p.model_name.as_deref(), Some("TEST2"));
    assert_eq!(number(&p.c[tri_index(0, 0)]), 1.0);
    assert_eq!(number(&p.c[tri_index(2, 0)]), -0.484165143790815e-3);
    assert_eq!(number(&p.s[tri_index(2, 1)]), 0.138441389137979e-8);
    assert_eq!(number(&p.c[tri_index(2, 2)]), 0.243938357328313e-5);
    assert_eq!(number(&p.s[tri_index(2, 2)]), -0.140027370385934e-5);
}

/// EGM2008's own header/record lines (as distributed by ICGEM) parse and
/// keep C̄20 bit-exact.
#[test]
fn egm2008_golden_lines() {
    let text = "\
product_type             gravity_field
modelname                EGM2008
earth_gravity_constant   3.986004415E+14
radius                   6378136.3
max_degree               2
errors                   formal
norm                     fully_normalized
tide_system              tide_free
end_of_head
gfc    0    0  1.000000000000E+00  0.000000000000E+00 0.0000E+00 0.0000E+00
gfc    2    0 -4.841651437908150E-04  0.000000000000E+00 7.4815E-11 0.0000E+00
gfc    2    1 -2.066155090741760E-10  1.384413891379790E-09 7.0630E-11 7.1667E-11
gfc    2    2  2.439383573283130E-06 -1.400273703859340E-06 7.2306E-11 7.3020E-11
";
    let p = whole(text).unwrap();
    assert_eq!(number(&p.c[tri_index(2, 0)]), -4.84165143790815e-4);
    assert_eq!(p.tide_system, TideSystem::TideFree);
    // Degree 1 absent → zero.
    assert_eq!(number(&p.c[tri_index(1, 1)]), 0.0);
}

/// The column-count message names the `errors` declaration the expected
/// count came from.
#[test]
fn error_column_count_must_match_header_and_the_message_names_the_header() {
    let text = MINIMAL.replace(
        "errors                  no",
        "errors                  calibrated",
    );
    match whole(&text) {
        Err(IcgemParseError::MalformedRecord { line: 13, reason }) => {
            assert!(reason.contains("`errors calibrated`"), "{reason}");
            assert!(reason.contains("expected 6 columns"), "{reason}");
            assert!(reason.contains("found 4"), "{reason}");
        }
        other => panic!("{other:?}"),
    }
    // Absent `errors` means no σ columns, and the message says so.
    let text = MINIMAL.replace("errors                  no\n", "").replace(
        "gfc   2    2    0.243938357328313D-05 -0.140027370385934D-05",
        "gfc 2 2 1.0 1.0 0.0 0.0",
    );
    match whole(&text) {
        Err(IcgemParseError::MalformedRecord { reason, .. }) => {
            assert!(reason.contains("`errors no (absent)`"), "{reason}");
        }
        other => panic!("{other:?}"),
    }
}

#[test]
fn rejects_time_variable_records() {
    for kind in ["gfct", "trnd", "dot", "asin", "acos"] {
        let text = inject(&format!("{kind} 2 0 1.0 0.0 20050101"));
        assert_eq!(
            whole(&text),
            Err(IcgemParseError::TimeVariableUnsupported {
                line: 18,
                kind: kind.to_string()
            })
        );
    }
}

#[test]
fn rejects_unknown_record_kind() {
    assert!(matches!(
        whole(&inject("xyz 2 0 1.0 0.0")),
        Err(IcgemParseError::UnknownRecord { line: 18, .. })
    ));
}

#[test]
fn rejects_unnormalized_and_non_gravity_products() {
    let text = MINIMAL.replace("fully_normalized", "unnormalized");
    assert_eq!(
        whole(&text),
        Err(IcgemParseError::UnsupportedNormalization(
            "unnormalized".into()
        ))
    );
    let text = MINIMAL.replace("gravity_field", "topography");
    assert_eq!(
        whole(&text),
        Err(IcgemParseError::NotAGravityField("topography".into()))
    );
}

/// `product_type` is checked when present and tolerated when absent.
#[test]
fn product_type_is_optional() {
    let text = MINIMAL.replace("product_type            gravity_field\n", "");
    assert!(whole(&text).is_ok());
}

#[test]
fn rejects_missing_end_of_head_and_missing_headers() {
    assert_eq!(
        whole("product_type gravity_field\n"),
        Err(IcgemParseError::MissingEndOfHead)
    );
    let text = MINIMAL.replace("earth_gravity_constant  0.3986004415D+15\n", "");
    assert_eq!(
        whole(&text),
        Err(IcgemParseError::MissingHeader("earth_gravity_constant"))
    );
    let text = MINIMAL.replace("max_degree              2\n", "");
    assert_eq!(
        whole(&text),
        Err(IcgemParseError::MissingHeader("max_degree"))
    );
    // The normalization has no safe default.
    let text = MINIMAL.replace("norm                    fully_normalized\n", "");
    assert_eq!(whole(&text), Err(IcgemParseError::MissingHeader("norm")));
}

/// The parser sets no defaults for the keys it uses, so it cannot pick one
/// of two declarations either.
#[test]
fn rejects_duplicate_header_keys() {
    for (key, line) in [
        ("norm", "norm unnormalized"),
        ("norm", "norm fully_normalized"),
        ("max_degree", "max_degree 5"),
        ("radius", "radius 1.0"),
        ("earth_gravity_constant", "earth_gravity_constant 1.0"),
        ("earth_gravity_constant", "gravity_constant 1.0"),
        ("errors", "errors formal"),
        ("product_type", "product_type gravity_field"),
        ("tide_system", "tide_system tide_free"),
        ("modelname", "modelname OTHER"),
    ] {
        let text = MINIMAL.replace("end_of_head", &format!("{line}\nend_of_head"));
        assert_eq!(
            whole(&text),
            Err(IcgemParseError::DuplicateHeader(key)),
            "{line}"
        );
    }
}

/// `tide_system` is recorded, never interpreted, so a spelling this parser
/// does not know is `Unknown`, like an absent line.
#[test]
fn unrecognised_tide_system_spelling_reads_as_unknown() {
    let text = MINIMAL.replace(
        "tide_system             zero_tide",
        "tide_system             zero-tide",
    );
    assert_eq!(whole(&text).unwrap().tide_system, TideSystem::Unknown);
    let text = MINIMAL.replace("tide_system             zero_tide\n", "");
    assert_eq!(whole(&text).unwrap().tide_system, TideSystem::Unknown);
    let text = MINIMAL.replace("tide_system             zero_tide", "tide_system");
    assert_eq!(whole(&text).unwrap().tide_system, TideSystem::Unknown);
}

/// An unknown header keyword is provenance, not data: ignored.
#[test]
fn unknown_header_keys_are_ignored() {
    let text = MINIMAL.replace(
        "end_of_head",
        "generating_institute GFZ\nreference_date 20250101\nend_of_head",
    );
    assert!(whole(&text).is_ok());
}

/// Bounds are checked against the triangular layout before indexing.
#[test]
fn rejects_bad_indices_duplicates_and_non_finite() {
    assert!(matches!(
        whole(&inject("gfc 3 0 1.0 0.0")),
        Err(IcgemParseError::IndexOutOfRange {
            degree: 3,
            order: 0,
            ..
        })
    ));
    assert!(matches!(
        whole(&inject("gfc 2 3 1.0 0.0")),
        Err(IcgemParseError::IndexOutOfRange {
            degree: 2,
            order: 3,
            ..
        })
    ));
    assert!(matches!(
        whole(&inject("gfc 2 1 1.0 0.0")),
        Err(IcgemParseError::DuplicateCoefficient {
            degree: 2,
            order: 1,
            ..
        })
    ));
    assert!(matches!(
        whole(&inject("gfc x 1 1.0 0.0")),
        Err(IcgemParseError::MalformedRecord { .. })
    ));
    let text = MINIMAL.replace("0.243938357328313D-05", "NaN");
    assert!(matches!(
        whole(&text),
        Err(IcgemParseError::NonFiniteCoefficient {
            degree: 2,
            order: 2,
            ..
        })
    ));
    let text = MINIMAL.replace("0.243938357328313D-05", "inf");
    assert!(matches!(
        whole(&text),
        Err(IcgemParseError::NonFiniteCoefficient { .. })
    ));
}

#[test]
fn rejects_non_unit_c00_and_non_zero_degree_one() {
    let text = MINIMAL.replace("gfc   0    0    1.0D+00", "gfc   0    0    0.5D+00");
    assert!(
        matches!(whole(&text), Err(IcgemParseError::UnexpectedC00(v)) if v == "0.5")
    );
    let text = MINIMAL.replace(
        "gfc   1    1    0.0                  0.0",
        "gfc 1 1 0.0 1e-9",
    );
    assert_eq!(
        whole(&text),
        Err(IcgemParseError::NonZeroDegreeOne {
            degree: 1,
            order: 1
        })
    );
}

#[test]
fn requires_every_coefficient_from_degree_two_up() {
    let text = MINIMAL.replace(
        "gfc   2    1   -0.206615509074176D-09 0.138441389137979D-08\n",
        "",
    );
    assert_eq!(
        whole(&text),
        Err(IcgemParseError::MissingCoefficient {
            degree: 2,
            order: 1
        })
    );
}

#[test]
fn degree_zero_and_one_may_be_omitted() {
    let text = MINIMAL
        .replace("gfc   0    0    1.0D+00              0.0D+00\n", "")
        .replace("gfc   1    0    0.0                  0.0\n", "")
        .replace("gfc   1    1    0.0                  0.0\n", "");
    let p = whole(&text).unwrap();
    assert_eq!(number(&p.c[tri_index(0, 0)]), 1.0);
    assert_eq!(number(&p.c[tri_index(1, 0)]), 0.0);
}

/// `max_degree` beyond the supported limit is refused at the header.
#[test]
fn rejects_max_degree_above_the_supported_limit() {
    for bad in ["2191", "100000", "18446744073709551615"] {
        let text = MINIMAL.replace(
            "max_degree              2",
            &format!("max_degree {bad}"),
        );
        match whole(&text) {
            Err(IcgemParseError::InvalidHeader("max_degree", _)) => {}
            other => panic!("{bad}: expected InvalidHeader(max_degree), got {other:?}"),
        }
    }
    // usize overflow in the integer parse itself is also an InvalidHeader.
    let text = MINIMAL.replace(
        "max_degree              2",
        "max_degree 99999999999999999999999",
    );
    assert!(matches!(
        whole(&text),
        Err(IcgemParseError::InvalidHeader("max_degree", _))
    ));
}

#[test]
fn model_name_keeps_the_whole_line_after_the_keyword() {
    let text = MINIMAL.replace(
        "modelname               TEST2",
        "modelname               EIGEN-6C4 (static part)   ",
    );
    let p = whole(&text).unwrap();
    assert_eq!(p.model_name.as_deref(), Some("EIGEN-6C4 (static part)"));
    // A bare keyword with no name is `None`, not `Some("")`.
    let text = MINIMAL.replace("modelname               TEST2", "modelname");
    assert_eq!(whole(&text).unwrap().model_name, None);
}

#[test]
fn fortran_exponent_parsing() {
    assert_eq!(parse_f64("0.5D+01"), Some(5.0));
    assert_eq!(parse_f64("-1.25d-2"), Some(-0.0125));
    assert_eq!(parse_f64("1e3"), Some(1000.0));
    assert_eq!(parse_f64("abc"), None);
}

/// A degree-4 text whose degree-4 record is deliberately malformed, to show
/// that a cap really stops the parser before it gets there.
const DEGREE4_BROKEN_TAIL: &str = "\
earth_gravity_constant 3.986004415E+14
radius 6378136.3
max_degree 4
norm fully_normalized
end_of_head
gfc 0 0 1.0 0.0
gfc 1 0 0.0 0.0
gfc 1 1 0.0 0.0
gfc 2 0 -4.8e-4 0.0
gfc 2 1 0.0 0.0
gfc 2 2 2.4e-6 -1.4e-6
gfc 3 0 9.6e-7 0.0
gfc 3 1 0.0 0.0
gfc 3 2 0.0 0.0
gfc 3 3 0.0 0.0
gfc 4 x 1.0 0.0
";

/// With a cap the parser stops once the requested triangle is complete.
#[test]
fn a_degree_cap_stops_early_and_sizes_for_the_cap() {
    let p = parse_with(DEGREE4_BROKEN_TAIL, Some(3)).unwrap();
    assert_eq!(p.max_degree, 3);
    assert_eq!(p.c.len(), tri_len(3));
    assert_eq!(number(&p.c[tri_index(3, 0)]), 9.6e-7);
    // Without the cap the same text is rejected at the broken record.
    assert!(matches!(
        parse_with(DEGREE4_BROKEN_TAIL, None),
        Err(IcgemParseError::MalformedRecord { line: 16, .. })
    ));
}

/// Completion waits for the degree-0/1 records too.
#[test]
fn early_stop_never_skips_the_degree_zero_and_one_checks() {
    // C00 record moved after the triangle, with a bad value.
    let text = MINIMAL
        .replace("gfc   0    0    1.0D+00              0.0D+00\n", "")
        .replace(
            "gfc   2    2    0.243938357328313D-05 -0.140027370385934D-05\n",
            "gfc   2    2    0.243938357328313D-05 -0.140027370385934D-05\ngfc 0 0 0.5 0.0\n",
        );
    assert!(matches!(
        parse_with(&text, Some(2)),
        Err(IcgemParseError::UnexpectedC00(v)) if v == "0.5"
    ));
    // Cap below 2 still validates the degree-1 record.
    let text = MINIMAL.replace(
        "gfc   1    1    0.0                  0.0",
        "gfc 1 1 0.0 1e-9",
    );
    assert_eq!(
        parse_with(&text, Some(1)),
        Err(IcgemParseError::NonZeroDegreeOne {
            degree: 1,
            order: 1
        })
    );
    // Degree 0/1 omitted: never "complete", but the whole file parses.
    let text = DEGREE4_BROKEN_TAIL
        .replace("gfc 0 0 1.0 0.0\n", "")
        .replace("gfc 1 0 0.0 0.0\n", "")
        .replace("gfc 1 1 0.0 0.0\n", "")
        .replace("gfc 4 x 1.0 0.0\n", "");
    let mut parser = Parser::new(Some(3));
    for line in text.lines() {
        feed(&mut parser, line).unwrap();
    }
    assert!(!parser.is_complete());
    assert_eq!(parser.finish().unwrap().max_degree, 3);
}

/// Records above the cap that arrive before the triangle is complete are
/// index-checked and skipped, not stored.
#[test]
fn records_above_the_cap_are_skipped_when_interleaved() {
    let text = DEGREE4_BROKEN_TAIL
        .replace("gfc 4 x 1.0 0.0\n", "")
        .replace("gfc 2 1 0.0 0.0\n", "gfc 4 4 1.0 1.0\ngfc 2 1 0.0 0.0\n");
    let p = parse_with(&text, Some(3)).unwrap();
    assert_eq!(p.max_degree, 3);
    assert_eq!(p.c.len(), tri_len(3));
    // … but a record outside the file's triangle is still an error.
    let text = text.replace("gfc 4 4 1.0 1.0\n", "gfc 5 0 1.0 1.0\n");
    assert!(matches!(
        parse_with(&text, Some(3)),
        Err(IcgemParseError::IndexOutOfRange { degree: 5, .. })
    ));
}

/// Asking for more than the file has is an error, not a silent clamp.
#[test]
fn a_cap_above_the_files_degree_is_refused() {
    assert_eq!(
        parse_with(DEGREE4_BROKEN_TAIL, Some(5)),
        Err(IcgemParseError::DegreeUnavailable {
            requested: 5,
            available: 4
        })
    );
}

/// A cap equal to the file's degree reads everything, like no cap.
#[test]
fn a_cap_equal_to_the_files_degree_reads_the_whole_file() {
    let capped = parse_with(MINIMAL, Some(2)).unwrap();
    let whole = whole(MINIMAL).unwrap();
    assert_eq!(capped.max_degree, whole.max_degree);
    assert_eq!(numbers(&capped.c), numbers(&whole.c));
    assert_eq!(numbers(&capped.s), numbers(&whole.s));
}

#[test]
fn is_complete_flips_exactly_at_the_last_required_record() {
    let mut parser = Parser::new(Some(2));
    let lines: Vec<&str> = MINIMAL.lines().collect();
    for (i, line) in lines.iter().enumerate() {
        feed(&mut parser, line).unwrap();
        assert_eq!(parser.is_complete(), i == lines.len() - 1, "line {}", i + 1);
    }
    // Whole-file mode has the same completion point here (cap = 2).
    let mut parser = Parser::new(None);
    for line in &lines[..lines.len() - 1] {
        feed(&mut parser, line).unwrap();
    }
    assert!(!parser.is_complete());
    feed(&mut parser, lines[lines.len() - 1]).unwrap();
    assert!(parser.is_complete());
}

#[test]
fn the_triangular_layout_packs_each_degree_after_the_last() {
    assert_eq!(tri_index(0, 0), 0);
    assert_eq!(tri_index(1, 0), 1);
    assert_eq!(tri_index(1, 1), 2);
    assert_eq!(tri_index(2, 0), 3);
    assert_eq!(tri_index(3, 3), 9);
    assert_eq!(tri_len(0), 1);
    assert_eq!(tri_len(2), 6);
    assert_eq!(tri_len(MAX_DEGREE), 2191 * 2192 / 2);
    assert_eq!(tri_index(MAX_DEGREE, MAX_DEGREE) + 1, tri_len(MAX_DEGREE));
}

#[test]
fn a_failed_line_leaves_the_parser_as_it_was() {
    let mut parser = Parser::new(None);
    for line in MINIMAL.lines().take(12) {
        feed(&mut parser, line).unwrap();
    }
    assert!(matches!(
        feed(&mut parser, "gfc 9 0 1.0 0.0"),
        Err(IcgemParseError::IndexOutOfRange { line: 13, degree: 9, order: 0 })
    ));
    for line in MINIMAL.lines().skip(12) {
        feed(&mut parser, line).unwrap();
    }
    assert!(parser.is_complete());
    assert!(parser.finish().is_ok());
}

#[test]
fn a_malformed_coefficient_names_the_field() {
    match whole(&inject("gfc 2 1 abc 0.0")) {
        Err(IcgemParseError::MalformedRecord { line: 18, reason }) => {
            assert!(reason.contains("`abc`"), "{reason}");
            assert!(reason.contains("is not a number"), "{reason}");
        }
        other => panic!("{other:?}"),
    }
}

#[test]
fn a_non_positive_constant_is_an_invalid_header() {
    let text = MINIMAL.replace("0.6378136300D+07", "-1.0");
    assert_eq!(
        whole(&text),
        Err(IcgemParseError::InvalidHeader("radius", "-1".to_string()))
    );
    let text = MINIMAL.replace("0.3986004415D+15", "zero");
    assert_eq!(
        whole(&text),
        Err(IcgemParseError::InvalidHeader(
            "earth_gravity_constant",
            "zero".to_string()
        ))
    );
}

#[test]
fn an_unknown_errors_declaration_is_an_invalid_header() {
    let text = MINIMAL.replace("errors                  no", "errors                  maybe");
    assert_eq!(
        whole(&text),
        Err(IcgemParseError::InvalidHeader("errors", "maybe".to_string()))
    );
}

#[test]
fn a_degree_above_the_limit_names_the_limit() {
    let text = MINIMAL.replace("max_degree              2", "max_degree 2191");
    assert_eq!(
        whole(&text),
        Err(IcgemParseError::InvalidHeader(
            "max_degree",
            "2191 (limit 2190)".to_string()
        ))
    );
}

#[test]
fn each_error_reads_as_its_message() {
    let cases = [
        (IcgemParseError::MissingEndOfHead, "ICGEM: no `end_of_head` line"),
        (IcgemParseError::MissingHeader("norm"), "ICGEM: missing header `norm`"),
        (
            IcgemParseError::DuplicateHeader("radius"),
            "ICGEM: header `radius` declared twice",
        ),
        (
            IcgemParseError::InvalidHeader("errors", "maybe".to_string()),
            "ICGEM: header `errors` has invalid value `maybe`",
        ),
        (
            IcgemParseError::NotAGravityField("topography".to_string()),
            "ICGEM: product_type is `topography`, expected `gravity_field`",
        ),
        (
            IcgemParseError::UnsupportedNormalization("unnormalized".to_string()),
            "ICGEM: norm `unnormalized` unsupported (only `fully_normalized`)",
        ),
        (
            IcgemParseError::DegreeUnavailable { requested: 5, available: 4 },
            "ICGEM: degree 5 requested, but the file carries max_degree 4",
        ),
        (
            IcgemParseError::TimeVariableUnsupported { line: 18, kind: "gfct".to_string() },
            "ICGEM line 18: time-variable record `gfct` unsupported (static `gfc` only)",
        ),
        (
            IcgemParseError::UnknownRecord { line: 18, kind: "xyz".to_string() },
            "ICGEM line 18: unknown record kind `xyz`",
        ),
        (
            IcgemParseError::MalformedRecord { line: 16, reason: "order `x` is not an integer".to_string() },
            "ICGEM line 16: malformed record: order `x` is not an integer",
        ),
        (
            IcgemParseError::IndexOutOfRange { line: 18, degree: 3, order: 0 },
            "ICGEM line 18: (n=3, m=0) outside max_degree / m ≤ n",
        ),
        (
            IcgemParseError::DuplicateCoefficient { line: 18, degree: 2, order: 1 },
            "ICGEM line 18: duplicate coefficient (n=2, m=1)",
        ),
        (
            IcgemParseError::NonFiniteCoefficient { line: 18, degree: 2, order: 2 },
            "ICGEM line 18: non-finite coefficient (n=2, m=2)",
        ),
        (
            IcgemParseError::UnexpectedC00("0.5".to_string()),
            "ICGEM: C00 = 0.5, expected 1",
        ),
        (
            IcgemParseError::NonZeroDegreeOne { degree: 1, order: 1 },
            "ICGEM: non-zero degree-1 coefficient (n=1, m=1) — origin offsets are not modelled",
        ),
        (
            IcgemParseError::MissingCoefficient { degree: 2, order: 1 },
            "ICGEM: coefficient (n=2, m=1) missing",
        ),
    ];
    for (error, message) in cases {
        assert_eq!(error.message(), message);
    }
}

#[test]
fn after_completion_a_line_that_does_not_fail_adds_nothing() {
    let mut parser = Parser::new(Some(3));
    for line in DEGREE4_BROKEN_TAIL.lines().take(15) {
        feed(&mut parser, line).unwrap();
    }
    assert!(parser.is_complete());
    feed(&mut parser, "gfc 4 0 1.0 0.0").unwrap();
    feed(&mut parser, "").unwrap();
    assert!(matches!(
        feed(&mut parser, "gfc 3 0 1.0 0.0"),
        Err(IcgemParseError::DuplicateCoefficient { line: 18, degree: 3, order: 0 })
    ));
    let fed = parser.finish().unwrap();
    let parsed = parse_with(DEGREE4_BROKEN_TAIL, Some(3)).unwrap();
    assert_eq!(fed, parsed);
}

#[test]
fn a_cap_at_the_declared_degree_fails_as_no_cap_does() {
    let text = MINIMAL.replace(
        "gfc   2    1   -0.206615509074176D-09 0.138441389137979D-08\n",
        "",
    );
    assert_eq!(parse_with(&text, Some(2)), whole(&text));
    assert!(whole(&text).is_err());
    // With no max_degree declared, any cap fails as no cap does.
    let text = MINIMAL.replace("max_degree              2\n", "");
    assert_eq!(parse_with(&text, Some(7)), whole(&text));
}
