use twitch_notify::numbers::{format_i128, format_u128, parse_i128, parse_i32, parse_u128, parse_u32};

#[test]
fn parse_u32_matches_std() {
    for s in ["0", "42", "+7", "-0", "-5", "", "+", "-", "4294967295", "4294967296", "12a", " 1", "007"] {
        assert_eq!(parse_u32(s), s.parse::<u32>().ok(), "input {:?}", s);
    }
}

#[test]
fn parse_i32_matches_std() {
    for s in ["0", "-1", "+10", "2147483647", "2147483648", "-2147483648", "-2147483649", "--1", "-", "1-"] {
        assert_eq!(parse_i32(s), s.parse::<i32>().ok(), "input {:?}", s);
    }
}

#[test]
fn parse_u128_and_i128_match_std() {
    for s in [
        "340282366920938463463374607431768211455",
        "340282366920938463463374607431768211456",
        "170141183460469231731687303715884105727",
        "-170141183460469231731687303715884105728",
        "-170141183460469231731687303715884105729",
        "99999999999999999999999999999999999999999999",
        "12",
        "-12",
    ] {
        assert_eq!(parse_u128(s), s.parse::<u128>().ok(), "input {:?}", s);
        assert_eq!(parse_i128(s), s.parse::<i128>().ok(), "input {:?}", s);
    }
}

#[test]
fn format_matches_to_string() {
    for n in [0u128, 7, 10, 12345, u128::MAX] {
        assert_eq!(format_u128(n), n.to_string());
    }
    for n in [0i128, -1, 9, -10, i128::MIN, i128::MAX] {
        assert_eq!(format_i128(n), n.to_string());
    }
}

#[test]
fn parse_reads_back_what_format_writes() {
    for n in [0i128, -45, 1234567, i128::MIN, i128::MAX] {
        assert_eq!(parse_i128(&format_i128(n)), Some(n));
    }
    for n in [0u128, 99, u128::MAX] {
        assert_eq!(parse_u128(&format_u128(n)), Some(n));
    }
}
