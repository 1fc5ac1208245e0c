use textutils::fortune::read_next_fortune;

fn lines(v: &[&str]) -> Vec<String> {
    v.iter().map(|s| s.to_string()).collect()
}

#[test]
fn fortunes_between_separators() {
    let ls = lines(&["Q. One?\n", "A. Two.\n", "%\n", "Three.  \n", "%\n"]);
    let (f, next) = read_next_fortune(&ls, 0);
    assert_eq!(f, Some("Q. One?\nA. Two.".to_string()));
    assert_eq!(next, 3);
    let (f, next) = read_next_fortune(&ls, next);
    assert_eq!(f, Some("Three.".to_string()));
    assert_eq!(next, 5);
    let (f, next) = read_next_fortune(&ls, next);
    assert_eq!(f, None);
    assert_eq!(next, 5);
}

#[test]
fn fortune_without_final_separator() {
    let ls = lines(&["%\n", "Last one\n"]);
    let (f, next) = read_next_fortune(&ls, 0);
    assert_eq!(f, Some("".to_string()));
    assert_eq!(next, 1);
    let (f, next) = read_next_fortune(&ls, next);
    assert_eq!(f, Some("Last one".to_string()));
    assert_eq!(next, 2);
}
