use textutils::head::{bytes_end, lines_end, parse_positive_int};
use textutils::lines::{count_lines, line_offset};

#[test]
fn test_parse_positive_int() {
    // 3 is an OK integer
    let res = parse_positive_int("3");
    assert!(res.is_ok());
    assert_eq!(res.unwrap(), 3);

    // Any string is an error
    let res = parse_positive_int("foo");
    assert!(res.is_err());
    assert_eq!(res.unwrap_err().to_string(), "foo".to_string());

    // A zero is an error
    let res = parse_positive_int("0");
    assert!(res.is_err());
    assert_eq!(res.unwrap_err().to_string(), "0".to_string())
}

#[test]
fn positive_int_signs() {
    assert_eq!(parse_positive_int("+3"), Ok(3));
    assert_eq!(parse_positive_int("-3"), Err("-3".to_string()));
    assert_eq!(parse_positive_int(""), Err("".to_string()));
}

#[test]
fn head_line_and_byte_ends() {
    let text = b"one\ntwo\nthree";
    assert_eq!(lines_end(text, 0), 0);
    assert_eq!(lines_end(text, 1), 4);
    assert_eq!(lines_end(text, 2), 8);
    assert_eq!(lines_end(text, 3), 13);
    assert_eq!(lines_end(text, 10), 13);
    assert_eq!(bytes_end(13, 5), 5);
    assert_eq!(bytes_end(13, 50), 13);
}

#[test]
fn counting_lines() {
    assert_eq!(count_lines(b""), 0);
    assert_eq!(count_lines(b"\n"), 1);
    assert_eq!(count_lines(b"a"), 1);
    assert_eq!(count_lines(b"a\nb"), 2);
    assert_eq!(count_lines(b"a\nb\n"), 2);
    assert_eq!(line_offset(b"a\n\nb", 2), 3);
}
