use t2_fancontrol::text::{
    chars_of, decimal_string, parse_unsigned_chars, split_chars, split_once_chars, trim_chars,
    trim_str, IntErrorKind,
};

fn chars(s: &str) -> Vec<char> {
    s.chars().collect()
}

#[test]
fn trim_matches_std() {
    for s in ["", "  ", " a b ", "\u{3000}x\u{a0}", "\r\nline\r", "\u{85}z\u{2028}", "\u{200b}y"] {
        assert_eq!(trim_str(s), s.trim());
        let t: String = trim_chars(&chars(s)).into_iter().collect();
        assert_eq!(t, s.trim());
    }
}

#[test]
fn split_matches_std() {
    for s in ["", ",", "a,b", ",a,,b,", "abc"] {
        let parts: Vec<String> = split_chars(&chars(s), ',')
            .into_iter()
            .map(|v| v.into_iter().collect())
            .collect();
        let expected: Vec<String> = s.split(',').map(String::from).collect();
        assert_eq!(parts, expected);
    }
}

#[test]
fn split_once_matches_std() {
    for s in ["", "a", "a=b", "=b", "a=", "a=b=c"] {
        let got = split_once_chars(&chars(s), '=').map(|(a, b)| {
            (a.into_iter().collect::<String>(), b.into_iter().collect::<String>())
        });
        let expected = s.split_once('=').map(|(a, b)| (a.to_string(), b.to_string()));
        assert_eq!(got, expected);
    }
}

#[test]
fn parse_unsigned_matches_std_u8() {
    for s in ["", "+", "-", "0", "255", "256", "+7", "-0", "007", "1a", "999a", "9a99", " 1", "٣"] {
        let got = parse_unsigned_chars(&chars(s), 255);
        match s.parse::<u8>() {
            Ok(v) => assert_eq!(got, Ok(v as u32), "{s:?}"),
            Err(e) => {
                let kind = match e.kind() {
                    std::num::IntErrorKind::Empty => IntErrorKind::Empty,
                    std::num::IntErrorKind::InvalidDigit => IntErrorKind::InvalidDigit,
                    std::num::IntErrorKind::PosOverflow => IntErrorKind::PosOverflow,
                    other => panic!("unexpected {other:?}"),
                };
                assert_eq!(got, Err(kind), "{s:?}");
                assert_eq!(kind.description(), e.to_string());
            }
        }
    }
}

#[test]
fn parse_unsigned_u32_limits() {
    assert_eq!(parse_unsigned_chars(&chars("4294967295"), u32::MAX), Ok(u32::MAX));
    assert_eq!(
        parse_unsigned_chars(&chars("4294967296"), u32::MAX),
        Err(IntErrorKind::PosOverflow)
    );
}

#[test]
fn decimal_strings() {
    for n in [0u32, 7, 10, 99, 100, 255, 65535, u32::MAX] {
        assert_eq!(decimal_string(n), n.to_string());
    }
}

#[test]
fn chars_of_keeps_order() {
    assert_eq!(chars_of("añb"), vec!['a', 'ñ', 'b']);
}
