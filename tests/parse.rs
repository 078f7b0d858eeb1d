use autoeq::curve::Point;
use autoeq::parse::{parse_spectrum, ParseError};

fn parse(text: &str) -> Result<Vec<Point>, ParseError> {
    parse_spectrum(&text.as_bytes().to_vec()).map(|c| c.points().clone())
}

#[test]
fn parses_spectrum_export() {
    let text = "Frequency (Hz)\tLevel (dB)\n21.533203\t-58.123456\n43.066406\t-60.5\n64.599609\t-7\n";
    assert_eq!(
        parse(text),
        Ok(vec![
            Point { freq: 21_533, gain: -58_123 },
            Point { freq: 43_066, gain: -60_500 },
            Point { freq: 64_599, gain: -7_000 },
        ])
    );
}

#[test]
fn skips_header_and_empty_lines() {
    assert_eq!(
        parse("1\t2\n\n100\t-3.25\n\n\n200.5\t4.\n"),
        Ok(vec![Point { freq: 100_000, gain: -3_250 }, Point { freq: 200_500, gain: 4_000 }])
    );
}

#[test]
fn ignores_fields_after_the_second() {
    assert_eq!(parse("h\n1\t2\t3\n"), Ok(vec![Point { freq: 1_000, gain: 2_000 }]));
}

#[test]
fn reports_malformed_line_number() {
    assert_eq!(parse("h\n1\t2\nabc\t3\n"), Err(ParseError::BadLine(3)));
    assert_eq!(parse("h\n5\n"), Err(ParseError::BadLine(2)));
    assert_eq!(parse("h\n1\t-\n"), Err(ParseError::BadLine(2)));
    assert_eq!(parse("h\n.\t1\n"), Err(ParseError::BadLine(2)));
    assert_eq!(parse("h\n1e\t1\n"), Err(ParseError::BadLine(2)));
    assert_eq!(parse("h\ne3\t1\n"), Err(ParseError::BadLine(2)));
    assert_eq!(parse("h\n1\t+-1\n"), Err(ParseError::BadLine(2)));
    assert_eq!(parse("h\n1\t1.2.3\n"), Err(ParseError::BadLine(2)));
    assert_eq!(parse("h\n1\tinf\n"), Err(ParseError::BadLine(2)));
    assert_eq!(parse("h\n0\t1\n"), Err(ParseError::BadLine(2)));
    assert_eq!(parse("h\n-1\t1\n"), Err(ParseError::BadLine(2)));
    assert_eq!(parse("h\r\n1\t2\r\n"), Err(ParseError::BadLine(2)));
    assert_eq!(parse("h\n1\t1234567890123\n"), Err(ParseError::BadLine(2)));
}

#[test]
fn accepts_largest_magnitude() {
    assert_eq!(parse("h\n1\t-1000000000000\n"), Ok(vec![Point { freq: 1_000, gain: -1_000_000_000_000_000 }]));
    assert_eq!(parse("h\n1\t1e12\n"), Ok(vec![Point { freq: 1_000, gain: 1_000_000_000_000_000 }]));
    assert_eq!(parse("h\n1\t-1000000000000.001\n"), Err(ParseError::BadLine(2)));
    assert_eq!(parse("h\n1\t1e13\n"), Err(ParseError::BadLine(2)));
    assert_eq!(parse("h\n1\t1e99999999999999999999\n"), Err(ParseError::BadLine(2)));
}

#[test]
fn accepts_every_real_number_spelling() {
    assert_eq!(
        parse("h\n.5\t1\n1e3\t5E-1\n2000.\t+5\n3E+3\t-.25\n4000\t+0.0001\n"),
        Ok(vec![
            Point { freq: 500, gain: 1_000 },
            Point { freq: 1_000_000, gain: 500 },
            Point { freq: 2_000_000, gain: 5_000 },
            Point { freq: 3_000_000, gain: -250 },
            Point { freq: 4_000_000, gain: 0 },
        ])
    );
}

#[test]
fn exponents_shift_and_truncate() {
    assert_eq!(
        parse("h\n0.000021533e6\t7e-99999999999999\n12.3456e1\t-98765e-4\n"),
        Ok(vec![Point { freq: 21_533, gain: 0 }, Point { freq: 123_456, gain: -9_876 }])
    );
    assert_eq!(parse("h\n0e99999999999\t1\n"), Err(ParseError::BadLine(2)));
    assert_eq!(parse("h\n1\t0e99999999999\n"), Ok(vec![Point { freq: 1_000, gain: 0 }]));
}

#[test]
fn reports_missing_data() {
    assert_eq!(parse(""), Err(ParseError::NoData));
    assert_eq!(parse("only a header\n"), Err(ParseError::NoData));
    assert_eq!(parse("h\n\n\n"), Err(ParseError::NoData));
}

#[test]
fn reports_unordered_frequencies() {
    assert_eq!(parse("h\n2\t0\n1\t0\n"), Err(ParseError::NotAscending));
    assert_eq!(parse("h\n2\t0\n2\t0\n"), Err(ParseError::NotAscending));
}
