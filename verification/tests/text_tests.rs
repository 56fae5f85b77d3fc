use monitor::process::count_killed;
use monitor::text::{i32_to_decimal, str_contains, u32_to_decimal, u64_to_decimal, count_occurrences};

#[test]
fn decimal_rendering() {
    assert_eq!(u64_to_decimal(0), "0");
    assert_eq!(u64_to_decimal(7), "7");
    assert_eq!(u64_to_decimal(10), "10");
    assert_eq!(u64_to_decimal(1234567890), "1234567890");
    assert_eq!(u64_to_decimal(u64::MAX), u64::MAX.to_string());
    assert_eq!(u32_to_decimal(u32::MAX), "4294967295");
    assert_eq!(i32_to_decimal(-1), "-1");
    assert_eq!(i32_to_decimal(0), "0");
    assert_eq!(i32_to_decimal(i32::MIN), "-2147483648");
    assert_eq!(i32_to_decimal(i32::MAX), "2147483647");
}

#[test]
fn substring_search() {
    assert!(str_contains("pci\\root\\mttvdd&0", "root\\mttvdd"));
    assert!(!str_contains("root\\mttvd", "root\\mttvdd"));
    assert!(str_contains("abc", ""));
    assert!(str_contains("", ""));
    assert!(!str_contains("", "a"));
}

#[test]
fn occurrences_do_not_overlap() {
    assert_eq!(count_occurrences(b"aaaa", b"aa"), 2);
    assert_eq!(count_occurrences(b"aaa", b"aa"), 1);
    assert_eq!(count_occurrences(b"", b"a"), 0);
    assert_eq!(count_occurrences(b"abcabc", b"abc"), 2);
}

#[test]
fn killed_processes_are_counted() {
    let out = b"SUCCESS: The process \"ffmpeg.exe\" with PID 10 has been terminated.\r\n\
SUCCESS: The process \"ffmpeg.exe\" with PID 12 has been terminated.\r\n";
    assert_eq!(count_killed(out), 2);
    assert_eq!(count_killed(b"ERROR: The process \"ffmpeg.exe\" not found."), 0);
    assert_eq!(count_killed(b"SUCCESSUCCESS"), 1);
    assert_eq!(count_killed(b"\xff\xfeSUCCESS\xc3"), 1);
}
