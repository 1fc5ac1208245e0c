use textutils::wc::{count, FileInfo};

#[test]
fn test_count() {
    let text = "I don't want the world. I just want your half.\r\n";
    let info = count(text);
    let expected = FileInfo {
        num_lines: 1,
        num_words: 10,
        num_chars: 48,
        num_bytes: 48,
    };
    assert_eq!(info, expected);
}

#[test]
fn count_empty_and_multibyte() {
    assert_eq!(
        count(""),
        FileInfo { num_lines: 0, num_words: 0, num_bytes: 0, num_chars: 0 }
    );
    assert_eq!(
        count("ábc  d\n\tx"),
        FileInfo { num_lines: 2, num_words: 3, num_bytes: 10, num_chars: 9 }
    );
}
