use beholder_core::matching::{find_matches, find_matches_windows, names_equal, process_matches, process_matches_windows};
use beholder_core::model::AddMode;
use beholder_core::procfs::{normalize_cmdline, normalize_comm, parse_starttime, parse_u32};
use beholder_core::targets::TargetError;

const STAT: &str = "4242 (my (odd) proc) S 1 4242 4242 0 -1 4194560 1500 0 0 0 12 3 0 0 20 0 1 0 987654 10000000 300 18446744073709551615 1 1 0 0 0 0 0 0 0 0 0 0 17 2 0 0 0 0 0";

#[test]
fn parse_starttime_reads_field_22() {
    assert_eq!(parse_starttime(STAT), Some(987654));
}

#[test]
fn parse_starttime_short_or_bad() {
    assert_eq!(parse_starttime("1 (x) S 1 2 3"), None);
    assert_eq!(parse_starttime("no paren here"), None);
    let bad = "1 (x) S 1 1 1 0 -1 0 0 0 0 0 0 0 0 0 20 0 1 0 12a4 0";
    assert_eq!(parse_starttime(bad), None);
    let plus = "1 (x) S 1 1 1 0 -1 0 0 0 0 0 0 0 0 0 20 0 1 0 +77 0";
    assert_eq!(parse_starttime(plus), Some(77));
}

#[test]
fn parse_u32_like_std() {
    assert_eq!(parse_u32("1234"), Some(1234));
    assert_eq!(parse_u32("+7"), Some(7));
    assert_eq!(parse_u32("4294967295"), Some(u32::MAX));
    assert_eq!(parse_u32("4294967296"), None);
    assert_eq!(parse_u32(""), None);
    assert_eq!(parse_u32("+"), None);
    assert_eq!(parse_u32("-1"), None);
    assert_eq!(parse_u32("self"), None);
    for s in ["0", "17", "+3", "99999999999", " 1", "1 "] {
        assert_eq!(parse_u32(s), s.parse::<u32>().ok());
    }
}

#[test]
fn normalize_proc_text() {
    assert_eq!(normalize_comm("bash\n"), "bash");
    assert_eq!(normalize_comm("  \t\n"), "");
    assert_eq!(normalize_cmdline("python3\0-m\0http.server\0"), "python3 -m http.server");
    assert_eq!(normalize_cmdline(""), "");
    let raw = "\0 a\0b \0";
    assert_eq!(normalize_cmdline(raw), raw.replace('\0', " ").trim());
}

#[test]
fn linux_matching_rules() {
    assert!(process_matches(AddMode::Exact, "bash", "bash", "/bin/bash"));
    assert!(!process_matches(AddMode::Exact, "bas", "bash", "/bin/bash"));
    assert!(!process_matches(AddMode::Exact, "Bash", "bash", "/bin/bash"));
    assert!(process_matches(AddMode::Substring, "http.server", "python3", "python3 -m http.server 8000"));
    assert!(!process_matches(AddMode::Substring, "HTTP", "python3", "python3 -m http.server"));
    assert!(!process_matches(AddMode::Pid, "1", "1", "1"));
    let long = "averyveryverylongprogramname --flag value";
    assert!(process_matches(AddMode::Substring, "value", "averyveryverylo", long));
}

#[test]
fn windows_matching_rules() {
    assert!(names_equal("Notepad.exe", "notepad"));
    assert!(names_equal("NOTEPAD.EXE", "notepad.exe"));
    assert!(names_equal("notepad", "NOTEPAD"));
    assert!(!names_equal("notepad.exe", "note"));
    assert!(process_matches_windows(AddMode::Substring, "SERVER", "python.exe", "python -m http.server"));
    assert!(!process_matches_windows(AddMode::Substring, "", "python.exe", ""));
    assert!(process_matches_windows(AddMode::Exact, "PYTHON", "python.exe", "x"));
}

#[test]
fn find_matches_filters_and_counts() {
    let entries: Vec<(u32, Result<(String, String, u64), TargetError>)> = vec![
        (1, Ok(("bash".to_string(), "/bin/bash".to_string(), 10))),
        (2, Err(TargetError::PermissionDenied(2))),
        (3, Ok(("zsh".to_string(), "/bin/zsh".to_string(), 11))),
        (4, Err(TargetError::PidNotFound(4))),
        (5, Ok(("bash".to_string(), "bash -c x".to_string(), 12))),
        (6, Err(TargetError::PermissionDenied(6))),
    ];
    let r = find_matches("bash", AddMode::Exact, &entries);
    assert_eq!(r.permission_denied_count, 2);
    let pids: Vec<u32> = r.matches.iter().map(|m| m.0).collect();
    assert_eq!(pids, vec![1, 5]);
    let r = find_matches("/bin/", AddMode::Substring, &entries);
    let pids: Vec<u32> = r.matches.iter().map(|m| m.0).collect();
    assert_eq!(pids, vec![1, 3]);
    assert_eq!(r.matches[1].1, "zsh");
    assert_eq!(r.matches[1].3, 11);
}

#[test]
fn find_matches_windows_filters() {
    let entries = vec![
        (1, "Code.exe".to_string(), "code --x".to_string(), 1),
        (2, "cmd.exe".to_string(), "".to_string(), 2),
        (3, "code.EXE".to_string(), "C:\\code.exe".to_string(), 3),
    ];
    let r = find_matches_windows("code", AddMode::Exact, &entries);
    let pids: Vec<u32> = r.matches.iter().map(|m| m.0).collect();
    assert_eq!(pids, vec![1, 3]);
    assert_eq!(r.permission_denied_count, 0);
}
