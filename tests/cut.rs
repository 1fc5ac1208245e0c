use textutils::cut::{extract_bytes, extract_chars, extract_fields, parse_index, parse_pos};

#[test]
fn test_parse_pos() {
    // The empty string is an error
    assert!(parse_pos("").is_err());

    // Zero is an error
    let res = parse_pos("0");
    assert!(res.is_err());
    assert_eq!(res.unwrap_err().to_string(), "illegal list value: \"0\"",);

    let res = parse_pos("0-1");
    assert!(res.is_err());
    assert_eq!(res.unwrap_err().to_string(), "illegal list value: \"0-1\"",);

    // A leading + is an error
    let res = parse_pos("+1");
    assert!(res.is_err());
    assert_eq!(res.unwrap_err().to_string(), "illegal list value: \"+1\"",);

    let res = parse_pos("+1-2");
    assert!(res.is_err());
    assert_eq!(res.unwrap_err().to_string(), "illegal list value: \"+1-2\"",);

    let res = parse_pos("1-+2");
    assert!(res.is_err());
    assert_eq!(res.unwrap_err().to_string(), "illegal list value: \"1-+2\"",);

    // Any non-number is an error
    let res = parse_pos("a");
    assert!(res.is_err());
    assert_eq!(res.unwrap_err().to_string(), "illegal list value: \"a\"",);

    let res = parse_pos("1,a");
    assert!(res.is_err());
    assert_eq!(res.unwrap_err().to_string(), "illegal list value: \"a\"",);

    let res = parse_pos("1-a");
    assert!(res.is_err());
    assert_eq!(res.unwrap_err().to_string(), "illegal list value: \"1-a\"",);

    let res = parse_pos("a-1");
    assert!(res.is_err());
    assert_eq!(res.unwrap_err().to_string(), "illegal list value: \"a-1\"",);

    // Wonky ranges
    assert!(parse_pos("-").is_err());
    assert!(parse_pos(",").is_err());
    assert!(parse_pos("1,").is_err());
    assert!(parse_pos("1-").is_err());
    assert!(parse_pos("1-1-1").is_err());
    assert!(parse_pos("1-1-a").is_err());

    // First number must be less than second
    let res = parse_pos("1-1");
    assert!(res.is_err());
    assert_eq!(
        res.unwrap_err().to_string(),
        "First number in range (1) must be lower than second number (1)",
    );

    let res = parse_pos("2-1");
    assert!(res.is_err());
    assert_eq!(
        res.unwrap_err().to_string(),
        "First number in range (2) must be lower than second number (1)",
    );

    // All the following are acceptable
    let res = parse_pos("1");
    assert!(res.is_ok());
    assert_eq!(res.unwrap(), vec![0..1]);

    let res = parse_pos("01");
    assert!(res.is_ok());
    assert_eq!(res.unwrap(), vec![0..1]);

    let res = parse_pos("1,3");
    assert!(res.is_ok());
    assert_eq!(res.unwrap(), vec![0..1, 2..3]);

    let res = parse_pos("001,0003");
    assert!(res.is_ok());
    assert_eq!(res.unwrap(), vec![0..1, 2..3]);

    let res = parse_pos("1-3");
    assert!(res.is_ok());
    assert_eq!(res.unwrap(), vec![0..3]);

    let res = parse_pos("0001-03");
    assert!(res.is_ok());
    assert_eq!(res.unwrap(), vec![0..3]);

    let res = parse_pos("1,7,3-5");
    assert!(res.is_ok());
    assert_eq!(res.unwrap(), vec![0..1, 6..7, 2..5]);

    let res = parse_pos("15,19-20");
    assert!(res.is_ok());
    assert_eq!(res.unwrap(), vec![14..15, 18..20]);
}

#[test]
fn test_extract_chars() {
    assert_eq!(extract_chars("", &[0..1]), "".to_string());
    assert_eq!(extract_chars("ábc", &[0..1]), "á".to_string());
    assert_eq!(extract_chars("ábc", &[0..1, 2..3]), "ác".to_string());
    assert_eq!(extract_chars("ábc", &[0..3]), "ábc".to_string());
    assert_eq!(extract_chars("ábc", &[2..3, 1..2]), "cb".to_string());
    assert_eq!(extract_chars("ábc", &[0..1, 1..2, 4..5]), "áb".to_string());
}

#[test]
fn test_extract_bytes() {
    assert_eq!(extract_bytes("ábc", &[0..1]), "�".to_string());
    assert_eq!(extract_bytes("ábc", &[0..2]), "á".to_string());
    assert_eq!(extract_bytes("ábc", &[0..3]), "áb".to_string());
    assert_eq!(extract_bytes("ábc", &[0..4]), "ábc".to_string());
    assert_eq!(extract_bytes("ábc", &[3..4, 2..3]), "cb".to_string());
    assert_eq!(extract_bytes("ábc", &[0..2, 5..6]), "á".to_string());
}

#[test]
fn test_extract_fields() {
    let rec: Vec<String> = vec!["Captain".to_string(), "Sham".to_string(), "12345".to_string()];
    assert_eq!(extract_fields(&rec, &[0..1]), &["Captain"]);
    assert_eq!(extract_fields(&rec, &[1..2]), &["Sham"]);
    assert_eq!(extract_fields(&rec, &[0..1, 2..3]), &["Captain", "12345"]);
    assert_eq!(extract_fields(&rec, &[0..1, 3..4]), &["Captain"]);
    assert_eq!(extract_fields(&rec, &[1..2, 0..1]), &["Sham", "Captain"]);
}

#[test]
fn index_parsing() {
    assert_eq!(parse_index("7"), Ok(7));
    assert_eq!(parse_index("007"), Ok(7));
    assert_eq!(parse_index("0"), Err("illegal index value: \"0\"".to_string()));
    assert_eq!(parse_index("+7"), Err("illegal index value: \"+7\"".to_string()));
    assert_eq!(parse_index("-7"), Err("illegal index value: \"-7\"".to_string()));
    assert_eq!(parse_index(""), Err("illegal index value: \"\"".to_string()));
}

#[test]
fn overlapping_and_long_ranges() {
    assert_eq!(extract_chars("abcdef", &[1..4, 2..3]), "bcdc".to_string());
    assert_eq!(extract_chars("abc", &[1..100]), "bc".to_string());
    assert_eq!(extract_chars("abc", &[3..4]), "".to_string());
    assert_eq!(extract_bytes("ab", &[]), "".to_string());
}
