use crow::text::{
    i64_to_decimal, join_strings, lines_of, parse_bool, parse_i32, parse_u8, replace_all, trim,
    u64_to_decimal, IntProblem,
};
use crow::users::{jwt_claims, login_result, LoginResult, UserRole, JWT_VALIDITY_SECS};
use crow::ids::UserId;

#[test]
fn trimming_removes_unicode_whitespace() {
    assert_eq!(trim("  a b \t\n"), "a b");
    assert_eq!(trim("\u{2003}x\u{a0}"), "x");
    assert_eq!(trim("   "), "");
}

#[test]
fn lines_follow_str_lines() {
    assert_eq!(lines_of("a\r\nb\n\nc\n"), vec!["a", "b", "", "c"]);
    assert!(lines_of("").is_empty());
    assert_eq!(join_strings(&vec!["a".to_string(), "b".to_string()], ", "), "a, b");
}

#[test]
fn numbers_parse_and_print() {
    assert_eq!(parse_u8("255"), Ok(255));
    assert_eq!(parse_u8("+7"), Ok(7));
    assert_eq!(parse_u8("256"), Err(IntProblem::PosOverflow));
    assert_eq!(parse_u8(""), Err(IntProblem::Empty));
    assert_eq!(parse_u8("1x"), Err(IntProblem::InvalidDigit));
    assert_eq!(parse_i32("-2147483648"), Some(i32::MIN));
    assert_eq!(parse_i32("2147483648"), None);
    assert_eq!(u64_to_decimal(0), "0");
    assert_eq!(i64_to_decimal(i64::MIN), "-9223372036854775808");
    assert_eq!(parse_bool("true"), Some(true));
    assert_eq!(parse_bool("True"), None);
}

#[test]
fn replacement_and_case() {
    assert_eq!(replace_all("aXbXc", "X", "--"), "a--b--c");
    assert_eq!(replace_all("aaa", "aa", "b"), "ba");
}

#[test]
fn tokens_last_a_day() {
    let c = jwt_claims(UserId("u".to_string()), UserRole::Admin, 1000);
    assert_eq!(c.exp, 1000 + JWT_VALIDITY_SECS);
    assert_eq!(c.iss.0, "compilers");
}

#[test]
fn login_answers() {
    match login_result(200, Some("Ann".to_string()), "tok".to_string()) {
        Ok(LoginResult::Success { name, auth }) => {
            assert_eq!(name, "Ann");
            assert_eq!(auth.0, "tok");
        }
        other => panic!("unexpected {:?}", other),
    }
    assert!(matches!(login_result(401, None, "tok".to_string()), Ok(LoginResult::WrongPassword)));
    assert_eq!(login_result(500, None, "tok".to_string()).err(), Some(500));
}
