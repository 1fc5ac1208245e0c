use regex::{Regex, RegexBuilder};
use textutils::cat::line_numbers;
use textutils::comm::{merge_lines, output_line, Line};
use textutils::find::{depth_matches, name_matches, type_matches, EntryType};
use textutils::fortune::{fortunes_of, pick_fortune, Fortune};
use textutils::grep::{find_lines, select_lines};
use textutils::uniq::uniq_lines;
use textutils::wc::{info_line, FileInfo};

fn strings(v: &[&str]) -> Vec<String> {
    v.iter().map(|s| s.to_string()).collect()
}

#[test]
fn test_pick_fortune() {
    let fortunes = &[
        Fortune {
            source: "fortunes".to_string(),
            text: "You cannot achieve the impossible without \
                          attempting the absurd."
                .to_string(),
        },
        Fortune {
            source: "fortunes".to_string(),
            text: "Assumption is the mother of all screw-ups.".to_string(),
        },
        Fortune {
            source: "fortunes".to_string(),
            text: "Neckties strangle clear thinking.".to_string(),
        },
    ];
    assert_eq!(
        pick_fortune(fortunes, Some(1)).unwrap(),
        "Neckties strangle clear thinking.".to_string()
    );
}

#[test]
fn no_fortune_from_none() {
    assert_eq!(pick_fortune(&[], Some(1)), None);
    assert_eq!(pick_fortune(&[], None), None);
}

#[test]
fn test_find_lines() {
    let text = strings(&["Lorem\n", "Ipsum\r\n", "DOLOR"]);

    let re1 = Regex::new("or").unwrap();
    let matches = find_lines(&text, &re1, false);
    assert_eq!(matches.len(), 1);

    let matches = find_lines(&text, &re1, true);
    assert_eq!(matches.len(), 2);

    let re2 = RegexBuilder::new("or").case_insensitive(true).build().unwrap();

    let matches = find_lines(&text, &re2, false);
    assert_eq!(matches.len(), 2);

    let matches = find_lines(&text, &re2, true);
    assert_eq!(matches.len(), 1);
}

#[test]
fn selecting_lines_by_flag() {
    let text = strings(&["a\n", "b\n", "c\n"]);
    assert_eq!(select_lines(&text, &[true, false, true], false), strings(&["a\n", "c\n"]));
    assert_eq!(select_lines(&text, &[true, false, true], true), strings(&["b\n"]));
}

#[test]
fn uniq_groups_adjacent_lines() {
    let lines = strings(&["a\n", "a\n", "b\n", "a\n"]);
    assert_eq!(
        uniq_lines(&lines),
        vec![(2, "a\n".to_string()), (1, "b\n".to_string()), (1, "a\n".to_string())]
    );
    // A last line without its newline still joins the group before it.
    let lines = strings(&["x\n", "x"]);
    assert_eq!(uniq_lines(&lines), vec![(2, "x\n".to_string())]);
    assert_eq!(uniq_lines(&[]), vec![]);
    assert_eq!(uniq_lines(&strings(&["z"])), vec![(1, "z".to_string())]);
}

#[test]
fn cat_numbering() {
    let blank = [false, true, false];
    assert_eq!(line_numbers(&blank, true, false), vec![Some(1), Some(2), Some(3)]);
    assert_eq!(line_numbers(&blank, false, true), vec![Some(1), None, Some(2)]);
    assert_eq!(line_numbers(&blank, false, false), vec![None, None, None]);
}

#[test]
fn comm_columns() {
    let d = "\t";
    let one = Line::File1("a".to_string());
    let two = Line::File2("b".to_string());
    let both = Line::Both("c".to_string());
    assert_eq!(output_line(&one, true, true, true, d), Some("a".to_string()));
    assert_eq!(output_line(&two, true, true, true, d), Some("\tb".to_string()));
    assert_eq!(output_line(&both, true, true, true, d), Some("\t\tc".to_string()));
    assert_eq!(output_line(&both, false, true, true, d), Some("\tc".to_string()));
    assert_eq!(output_line(&both, false, false, true, d), Some("c".to_string()));
    assert_eq!(output_line(&two, false, true, true, d), Some("b".to_string()));
    assert_eq!(output_line(&one, false, true, true, d), None);
}

#[test]
fn wc_report_line() {
    let info = FileInfo { num_lines: 1, num_words: 10, num_bytes: 48, num_chars: 48 };
    assert_eq!(
        info_line(&info, true, true, true, false, "fox.txt"),
        "       1      10      48 fox.txt"
    );
    assert_eq!(info_line(&info, true, false, false, true, "-"), "       1      48");
}

#[test]
fn find_filters() {
    let all = [EntryType::File, EntryType::Dir, EntryType::Link];
    assert!(type_matches(&all, true, false, false));
    assert!(type_matches(&[], false, false, false));
    assert!(!type_matches(&[EntryType::File], true, false, false));
    assert!(type_matches(&[EntryType::Link], false, false, true));
    assert!(depth_matches(None, 9));
    assert!(depth_matches(Some(1), 1));
    assert!(!depth_matches(Some(1), 2));
}

#[test]
fn comm_merge() {
    let a = strings(&["a", "b", "d"]);
    let b = strings(&["B", "c", "d", "e"]);
    assert_eq!(
        merge_lines(&a, &b, false),
        vec![
            Line::File2("B".to_string()),
            Line::File1("a".to_string()),
            Line::File1("b".to_string()),
            Line::File2("c".to_string()),
            Line::Both("d".to_string()),
            Line::File2("e".to_string()),
        ]
    );
    assert_eq!(
        merge_lines(&a, &b, true),
        vec![
            Line::File1("a".to_string()),
            Line::Both("b".to_string()),
            Line::File2("c".to_string()),
            Line::Both("d".to_string()),
            Line::File2("e".to_string()),
        ]
    );
    assert_eq!(merge_lines(&[], &[], false), vec![]);
}

#[test]
fn fortunes_of_a_file() {
    let lines = strings(&["%\n", "One\n", "%\n", "  \n", "%\n", "Two\n", "lines\n"]);
    let fortunes = fortunes_of(&lines, "jokes");
    let texts: Vec<&str> = fortunes.iter().map(|f| f.text.as_str()).collect();
    assert_eq!(texts, vec!["One", "Two\nlines"]);
    assert!(fortunes.iter().all(|f| f.source == "jokes"));
}

#[test]
fn name_filter() {
    let names = vec![Regex::new("^a").unwrap(), Regex::new("z$").unwrap()];
    assert!(name_matches(&names, "abc"));
    assert!(name_matches(&names, "quiz"));
    assert!(!name_matches(&names, "bcd"));
    assert!(name_matches(&[], "anything"));
}
