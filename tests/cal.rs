use textutils::cal::{parse_int, parse_month, parse_year, unique_prefix_match};

#[test]
fn test_parse_int() {
    // Parse positive int as usize
    let res = parse_int::<usize>("1");
    assert!(res.is_ok());
    assert_eq!(res.unwrap(), 1usize);

    // Parse negative int as i32
    let res = parse_int::<i32>("-1");
    assert!(res.is_ok());
    assert_eq!(res.unwrap(), -1i32);

    // Fail on a string
    let res = parse_int::<i64>("foo");
    assert!(res.is_err());
    assert_eq!(res.unwrap_err().to_string(), "Invalid integer \"foo\"");
}

#[test]
fn test_parse_year() {
    let res = parse_year("1");
    assert!(res.is_ok());
    assert_eq!(res.unwrap(), 1i32);

    let res = parse_year("9999");
    assert!(res.is_ok());
    assert_eq!(res.unwrap(), 9999i32);

    let res = parse_year("0");
    assert!(res.is_err());
    assert_eq!(
        res.unwrap_err().to_string(),
        "year \"0\" not in the range 1 through 9999"
    );

    let res = parse_year("10000");
    assert!(res.is_err());
    assert_eq!(
        res.unwrap_err().to_string(),
        "year \"10000\" not in the range 1 through 9999"
    );

    let res = parse_year("foo");
    assert!(res.is_err());
}

#[test]
fn test_parse_month() {
    let res = parse_month("1");
    assert!(res.is_ok());
    assert_eq!(res.unwrap(), 1u32);

    let res = parse_month("12");
    assert!(res.is_ok());
    assert_eq!(res.unwrap(), 12u32);

    let res = parse_month("jan");
    assert!(res.is_ok());
    assert_eq!(res.unwrap(), 1u32);

    let res = parse_month("0");
    assert!(res.is_err());
    assert_eq!(
        res.unwrap_err().to_string(),
        "month \"0\" not in the range 1 through 12"
    );

    let res = parse_month("13");
    assert!(res.is_err());
    assert_eq!(
        res.unwrap_err().to_string(),
        "month \"13\" not in the range 1 through 12"
    );

    let res = parse_month("foo");
    assert!(res.is_err());
    assert_eq!(res.unwrap_err().to_string(), "Invalid month \"foo\"");
}

#[test]
fn year_messages() {
    assert_eq!(parse_year("-5"), Err("year \"-5\" not in the range 1 through 9999".to_string()));
    assert_eq!(parse_year("0010"), Ok(10));
    assert_eq!(parse_year("x1"), Err("Invalid year \"x1\"".to_string()));
    assert_eq!(parse_int::<u32>("-1"), Err("Invalid integer \"-1\"".to_string()));
    assert_eq!(parse_int::<i64>("+42"), Ok(42i64));
}

#[test]
fn month_names_in_any_case() {
    assert_eq!(parse_month("MAR"), Ok(3));
    assert_eq!(parse_month("De"), Ok(12));
    assert_eq!(parse_month("Ju"), Err("Invalid month \"Ju\"".to_string()));
    assert_eq!(parse_month("jul"), Ok(7));
    assert_eq!(parse_month(""), Err("Invalid month \"\"".to_string()));
}

#[test]
fn prefix_matching() {
    let names: Vec<String> = vec!["apple".to_string(), "apricot".to_string(), "banana".to_string()];
    assert_eq!(unique_prefix_match("b", &names), Some(2));
    assert_eq!(unique_prefix_match("apr", &names), Some(1));
    assert_eq!(unique_prefix_match("ap", &names), None);
    assert_eq!(unique_prefix_match("z", &names), None);
}
