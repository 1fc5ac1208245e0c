use textutils::cal::{format_month, format_year, last_day_in_month, month_layout, Date};

#[test]
fn test_format_month() {
    let today = Date { year: 0, month: 1, day: 1 };
    let leap_february = vec![
        "   February 2020      ",
        "Su Mo Tu We Th Fr Sa  ",
        "                   1  ",
        " 2  3  4  5  6  7  8  ",
        " 9 10 11 12 13 14 15  ",
        "16 17 18 19 20 21 22  ",
        "23 24 25 26 27 28 29  ",
        "                      ",
    ];
    assert_eq!(format_month(2020, 2, true, today), leap_february);
    let may = vec![
        "        May           ",
        "Su Mo Tu We Th Fr Sa  ",
        "                1  2  ",
        " 3  4  5  6  7  8  9  ",
        "10 11 12 13 14 15 16  ",
        "17 18 19 20 21 22 23  ",
        "24 25 26 27 28 29 30  ",
        "31                    ",
    ];
    assert_eq!(format_month(2020, 5, false, today), may);
    let april_hl = vec![
        "     April 2021       ",
        "Su Mo Tu We Th Fr Sa  ",
        "             1  2  3  ",
        " 4  5  6 \u{1b}[7m 7\u{1b}[0m  8  9 10  ",
        "11 12 13 14 15 16 17  ",
        "18 19 20 21 22 23 24  ",
        "25 26 27 28 29 30     ",
        "                      ",
    ];
    let today = Date { year: 2021, month: 4, day: 7 };
    assert_eq!(format_month(2021, 4, true, today), april_hl);
    let april_hl = vec![
        "     April 2021       ",
        "Su Mo Tu We Th Fr Sa  ",
        "             1 \u{1b}[7m 2\u{1b}[0m  3  ",
        " 4  5  6  7  8  9 10  ",
        "11 12 13 14 15 16 17  ",
        "18 19 20 21 22 23 24  ",
        "25 26 27 28 29 30     ",
        "                      ",
    ];
    let today = Date { year: 2021, month: 4, day: 2 };
    assert_eq!(format_month(2021, 4, true, today), april_hl);
}

#[test]
fn test_last_day_in_month() {
    assert_eq!(last_day_in_month(2020, 1), 31);
    assert_eq!(last_day_in_month(2020, 2), 29);
    assert_eq!(last_day_in_month(2020, 4), 30);
}

#[test]
fn month_lengths_and_leap_years() {
    assert_eq!(last_day_in_month(2021, 2), 28);
    assert_eq!(last_day_in_month(1900, 2), 28);
    assert_eq!(last_day_in_month(2000, 2), 29);
    assert_eq!(last_day_in_month(2021, 12), 31);
    assert_eq!(last_day_in_month(2021, 11), 30);
}

#[test]
fn layout_of_a_month_from_its_weekday() {
    // A 28-day month starting on a Sunday fills four weeks exactly.
    let today = Date { year: 1, month: 1, day: 1 };
    let lines = month_layout(2015, 2, true, today, 0, 28);
    assert_eq!(lines.len(), 8);
    assert_eq!(lines[0], "   February 2015      ");
    assert_eq!(lines[2], " 1  2  3  4  5  6  7  ");
    assert_eq!(lines[5], "22 23 24 25 26 27 28  ");
    assert_eq!(lines[6], "                      ");
    assert_eq!(lines[7], "                      ");
}

#[test]
fn year_layout() {
    let today = Date { year: 1, month: 1, day: 1 };
    let lines = format_year(2020, today);
    assert_eq!(lines.len(), 1 + 4 * 8 + 3);
    assert_eq!(lines[0], format!("{:>32}", 2020));
    assert_eq!(
        lines[1],
        format!("{:^20}  {:^20}  {:^20}  ", "January", "February", "March")
    );
    assert_eq!(lines[9], "");
    assert_eq!(lines[10], format!("{:^20}  {:^20}  {:^20}  ", "April", "May", "June"));
    assert_eq!(lines[lines.len() - 1].len(), 66);
}
