use golstats::score::parse_score;

#[test]
fn sums_a_plain_score() {
    assert_eq!(parse_score("3 - 2"), Ok(5));
    assert_eq!(parse_score("2 - 0"), Ok(2));
    assert_eq!(parse_score("0 - 0"), Ok(0));
}

#[test]
fn forfeit_on_either_side_is_zero() {
    assert_eq!(parse_score("FF - 2"), Ok(0));
    assert_eq!(parse_score("2 - FF"), Ok(0));
    assert_eq!(parse_score("FF - FF"), Ok(0));
}

#[test]
fn operands_are_trimmed() {
    assert_eq!(parse_score(" 10 -  3 "), Ok(13));
    assert_eq!(parse_score("\t7 - 1\n"), Ok(8));
}

#[test]
fn missing_separator_fails() {
    assert!(parse_score("abc").is_err());
    assert!(parse_score("3-2").is_err());
    assert!(parse_score("").is_err());
}

#[test]
fn extra_separator_fails() {
    assert!(parse_score("1 - 2 - 3").is_err());
}

#[test]
fn non_integer_operand_fails() {
    assert!(parse_score("x - 2").is_err());
    assert!(parse_score("2 - y").is_err());
    assert!(parse_score("FF - y").is_err());
    assert!(parse_score(" - ").is_err());
}

#[test]
fn out_of_range_operand_fails() {
    assert!(parse_score("9999999999 - 1").is_err());
    assert_eq!(parse_score("2147483647 - 1"), Ok(2147483648));
}

#[test]
fn signed_operands_parse() {
    assert_eq!(parse_score("-1 - 2"), Ok(1));
    assert_eq!(parse_score("+4 - 1"), Ok(5));
}
