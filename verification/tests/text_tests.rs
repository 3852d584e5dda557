use wuerfeln::text::{i64_to_string, parse_i64, parse_u8, split_char, str_eq, trim, u64_to_string, validator};

#[test]
fn decimal_formatting() {
    assert_eq!(u64_to_string(0), "0");
    assert_eq!(u64_to_string(7), "7");
    assert_eq!(u64_to_string(1234567890), "1234567890");
    assert_eq!(u64_to_string(u64::MAX), "18446744073709551615");
    assert_eq!(i64_to_string(0), "0");
    assert_eq!(i64_to_string(-42), "-42");
    assert_eq!(i64_to_string(i64::MIN), "-9223372036854775808");
    assert_eq!(i64_to_string(i64::MAX), "9223372036854775807");
}

#[test]
fn parsing_matches_std() {
    let cases = [
        "", "-", "+", "0", "10", "-10", "+5", "007", " 3", "3 ", "1_0", "abc", "-0",
        "9223372036854775807", "9223372036854775808", "-9223372036854775808",
        "-9223372036854775809", "184467440737095516150", "--4", "+-4",
    ];
    for s in cases {
        assert_eq!(parse_i64(s), s.parse::<i64>().ok(), "on {:?}", s);
        assert_eq!(parse_u8(s), s.parse::<u8>().ok(), "on {:?}", s);
    }
    assert_eq!(parse_u8("255"), Some(255));
    assert_eq!(parse_u8("256"), None);
    assert_eq!(parse_u8("-1"), None);
}

#[test]
fn trimming_matches_std() {
    let cases = ["", "   ", "a", "  a b  ", "\t x \n", "\u{a0}y\u{3000}", "z  "];
    for s in cases {
        assert_eq!(trim(s), s.trim(), "on {:?}", s);
    }
}

#[test]
fn string_equality() {
    assert!(str_eq("", ""));
    assert!(str_eq("abc", "abc"));
    assert!(!str_eq("abc", "abd"));
    assert!(!str_eq("abc", "abcd"));
    assert!(str_eq("grün", "grün"));
}

#[test]
fn splitting_matches_std() {
    let cases = ["", ";", "a;b;c", ";;x", "10;-10;0", "ab"];
    for s in cases {
        let mine = split_char(s, ';');
        let std: Vec<&str> = s.split(';').collect();
        assert_eq!(mine.len(), std.len(), "on {:?}", s);
        for (a, b) in mine.iter().zip(std.iter()) {
            assert_eq!(a, b, "on {:?}", s);
        }
    }
}

#[test]
fn validator_checks_trimmed_integers() {
    assert_eq!(validator(&String::from(" 42 ")), Ok(()));
    assert_eq!(validator(&String::from("-3")), Ok(()));
    assert_eq!(validator(&String::from("   ")), Err("Bitte etwas eingeben"));
    assert_eq!(validator(&String::from("")), Err("Bitte etwas eingeben"));
    assert_eq!(
        validator(&String::from("drei")),
        Err("Bitte eine positive oder negative Ganzzahl eingeben")
    );
    assert_eq!(
        validator(&String::from("99999999999999999999")),
        Err("Bitte eine positive oder negative Ganzzahl eingeben")
    );
}
