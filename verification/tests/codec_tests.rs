use lhef::floattok::check_float_token;
use lhef::num::parse_i32_bytes;
use lhef::serial::fmt_i32;

#[test]
fn integer_parse_matches_std() {
    let cases: Vec<&[u8]> = vec![
        b"0",
        b"-0",
        b"+12",
        b"12",
        b"007",
        b"2147483647",
        b"-2147483648",
        b"2147483648",
        b"-2147483649",
        b"",
        b"+",
        b"-",
        b"1a",
        b" 1",
        b"99999999999999999999999999",
        b"-99999999999999999999999999",
    ];
    for c in cases {
        let expected = std::str::from_utf8(c).ok().and_then(|s| s.parse::<i32>().ok());
        assert_eq!(parse_i32_bytes(c), expected, "token {:?}", c);
    }
}

#[test]
fn integer_format_round_trips() {
    for x in [0i32, 1, -1, 42, -42, i32::MAX, i32::MIN, 1000000, -1000000] {
        let text = fmt_i32(x);
        assert_eq!(text, format!("{}", x).into_bytes());
        assert_eq!(parse_i32_bytes(&text), Some(x));
    }
}

#[test]
fn float_grammar_matches_external_parser() {
    let cases: Vec<&[u8]> = vec![
        b"0",
        b"1.5",
        b"-1.5",
        b"+1.5",
        b".5",
        b"5.",
        b"5.e3",
        b"1e10",
        b"1E-10",
        b"1e+10",
        b"120588124.02",
        b"702517.48228",
        b"inf",
        b"-inf",
        b"INF",
        b"Infinity",
        b"-infinity",
        b"nan",
        b"NaN",
        b"-nan",
        b"+nan",
        b"",
        b".",
        b"e5",
        b"1e",
        b"1e+",
        b"--5",
        b"1.5.2",
        b"1 5",
        b"0x10",
        b"1_000",
        b"in",
        b"nanx",
        b"infinit",
        b"99999999999999999999999999999999999999e999",
        b"1e-999",
    ];
    for c in cases {
        let external = fast_float::parse::<f64, _>(c).is_ok();
        assert_eq!(check_float_token(c), external, "token {:?}", std::str::from_utf8(c));
    }
}

#[test]
fn float_tokens_from_shortest_formatting_are_accepted() {
    for x in [
        0.0f64,
        -0.0,
        1.0,
        -1.0,
        0.1,
        84515.12,
        91.188,
        0.007546771,
        1e300,
        -1e-300,
        f64::MAX,
        f64::MIN_POSITIVE,
        f64::INFINITY,
        f64::NEG_INFINITY,
    ] {
        let text = ryu::Buffer::new().format(x).as_bytes().to_vec();
        assert!(check_float_token(&text), "rejected {:?}", std::str::from_utf8(&text));
        let back: f64 = fast_float::parse(&text).unwrap();
        assert_eq!(back.to_bits(), x.to_bits());
    }
}
