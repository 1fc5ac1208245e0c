use textutils::ls::{format_mode, format_output, EntryInfo};

#[test]
fn test_format_mode() {
    assert_eq!(format_mode(0o755), "rwxr-xr-x");
    assert_eq!(format_mode(0o421), "r---w---x");
}

#[test]
fn format_mode_ignores_high_bits() {
    assert_eq!(format_mode(0o100644), "rw-r--r--");
    assert_eq!(format_mode(0), "---------");
    assert_eq!(format_mode(0o777), "rwxrwxrwx");
}

fn entry(is_dir: bool, mode: u32, size: u64, path: &str) -> EntryInfo {
    EntryInfo {
        is_dir,
        mode,
        nlink: 1,
        user: "user".to_string(),
        group: "staff".to_string(),
        size,
        modified: " 1 Jan 10:00".to_string(),
        path: path.to_string(),
    }
}

#[test]
fn long_listing_rows() {
    let out = format_output(&[entry(false, 0o100644, 193, "tests/inputs/bustle.txt")]);
    assert_eq!(out, "-rw-r--r--  1 user  staff  193  1 Jan 10:00 tests/inputs/bustle.txt\n");

    let out = format_output(&[
        entry(true, 0o40755, 4096, "tests/inputs/dir"),
        entry(false, 0o100644, 0, "tests/inputs/empty.txt"),
    ]);
    let lines: Vec<&str> = out.split('\n').filter(|s| !s.is_empty()).collect();
    assert_eq!(lines.len(), 2);
    let dir: Vec<&str> = lines[0].split_whitespace().collect();
    assert_eq!(dir[0], "drwxr-xr-x");
    assert_eq!(*dir.last().unwrap(), "tests/inputs/dir");
    let empty: Vec<&str> = lines[1].split_whitespace().collect();
    assert_eq!(empty[0], "-rw-r--r--");
    assert_eq!(empty[4], "0");
}
