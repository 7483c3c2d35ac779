use serialservice::driver_type_finder::{
    get_devnum, parse_driver_line, read_drivers_from_table, DriverTypeFinderImpl, FindError,
    ParsedLine, DRIVERS_FILE_PATH,
};

const REAL_DRIVERS_FILE_CONTENTS: &str = "
/dev/tty             /dev/tty        5       0 system:/dev/tty
/dev/console         /dev/console    5       1 system:console
/dev/ptmx            /dev/ptmx       5       2 system
acm                  /dev/ttyACM   166 0-255 serial
g_serial             /dev/ttyGS    235       7 serial
ttynull              /dev/ttynull  240       0 console
serial               /dev/ttyS       4 64-95 serial
pty_slave            /dev/pts      136 0-1048575 pty:slave
pty_master           /dev/ptm      128 0-1048575 pty:master
";

#[test]
fn test_find_in_real_file_existing() {
    let mut finder = DriverTypeFinderImpl::new_from_file(String::from("drivers"));
    let result = finder.find_by_devnum(4, 95, Some(REAL_DRIVERS_FILE_CONTENTS)).unwrap();
    assert_eq!(result, "serial");
}

#[test]
fn test_find_in_real_file_missing() {
    let mut finder = DriverTypeFinderImpl::new_from_file(String::from("drivers"));
    let result = finder.find_by_devnum(4, 96, Some(REAL_DRIVERS_FILE_CONTENTS));
    assert!(result.is_err());
}

#[test]
fn test_read_with_wrong_of_fields() {
    let mut finder = DriverTypeFinderImpl::new_from_file(String::from("drivers"));
    let result = finder.find_by_devnum(5, 0, Some("/dev/tty /dev/tty 5 0"));
    assert!(result.is_err());
}

#[test]
fn test_read_with_wrong_format() {
    let mut finder = DriverTypeFinderImpl::new_from_file(String::from("drivers"));
    let result = finder.find_by_devnum(166, 255, Some("acm /dev/ttyACM 166 00-FF serial"));
    assert!(result.is_err());
}

#[test]
fn first_matching_entry_wins() {
    let table = "a /dev/a 5 0-10 first\nb /dev/b 5 5-10 second\n";
    let mut finder = DriverTypeFinderImpl::new_from_file(String::from("drivers"));
    assert_eq!(finder.find_by_devnum(5, 7, Some(table)).unwrap(), "first");
}

#[test]
fn second_miss_is_not_found() {
    let mut finder = DriverTypeFinderImpl::new_from_file(String::from("drivers"));
    let result = finder.find_by_devnum(200, 0, Some(REAL_DRIVERS_FILE_CONTENTS));
    assert!(matches!(result, Err(FindError::NotFound)));
}

#[test]
fn unreadable_table_is_io_error_and_clears_cache() {
    let mut finder = DriverTypeFinderImpl::new_from_file(String::from("drivers"));
    assert_eq!(finder.find_by_devnum(4, 95, Some(REAL_DRIVERS_FILE_CONTENTS)).unwrap(), "serial");
    // A miss with an unreadable table fails with Io and discards the cache.
    let result = finder.find_by_devnum(200, 0, None);
    assert!(matches!(result, Err(FindError::Io)));
    // The previously cached entry is gone: a lookup it used to satisfy now
    // needs the table again.
    assert!(matches!(finder.find_by_devnum(4, 95, None), Err(FindError::Io)));
}

#[test]
fn malformed_reload_reports_offending_line() {
    match read_drivers_from_table("ok /dev/ok 5 0 system\nbad line\n") {
        Err(FindError::Malformed { line }) => assert_eq!(line, "bad line"),
        _ => panic!("expected a malformed-table error"),
    }
    // The lookup that triggered such a reload sees a plain miss, and the
    // partial table is not installed: nothing is found afterwards either.
    let mut finder = DriverTypeFinderImpl::new_from_file(String::from("drivers"));
    let result = finder.find_by_devnum(5, 0, Some("ok /dev/ok 5 0 system\nbad line\n"));
    assert!(matches!(result, Err(FindError::NotFound)));
    assert!(matches!(finder.find_by_devnum(5, 0, None), Err(FindError::Io)));
}

#[test]
fn cache_hit_needs_no_table() {
    let mut finder = DriverTypeFinderImpl::new_from_file(String::from("drivers"));
    assert_eq!(finder.find_by_devnum(4, 64, Some(REAL_DRIVERS_FILE_CONTENTS)).unwrap(), "serial");
    // The entry is cached now: the same lookup succeeds without any table.
    assert_eq!(finder.find_by_devnum(4, 64, None).unwrap(), "serial");
}

#[test]
fn parse_line_splits_colon_tag() {
    match parse_driver_line("pty_slave /dev/pts 136 0-1048575 pty:slave") {
        ParsedLine::Entry(e) => {
            assert_eq!(e.major, 136);
            assert_eq!(e.minor_lo, 0);
            assert_eq!(e.minor_hi, 1048575);
            assert_eq!(e.driver_type, "pty");
        },
        _ => panic!("expected an entry"),
    }
}

#[test]
fn parse_line_single_minor_is_degenerate_range() {
    match parse_driver_line("g_serial /dev/ttyGS 235 7 serial") {
        ParsedLine::Entry(e) => {
            assert_eq!((e.minor_lo, e.minor_hi), (7, 7));
            assert_eq!(e.driver_type, "serial");
        },
        _ => panic!("expected an entry"),
    }
}

#[test]
fn blank_and_whitespace_lines_are_skipped() {
    let entries = read_drivers_from_table("\n   \n\t\nacm /dev/ttyACM 166 0-255 serial\n\n").unwrap();
    assert_eq!(entries.len(), 1);
    assert_eq!(entries[0].major, 166);
}

#[test]
fn carriage_returns_are_field_separators_too() {
    let entries = read_drivers_from_table("acm /dev/ttyACM 166 0-255 serial\r\n").unwrap();
    assert_eq!(entries.len(), 1);
    assert_eq!(entries[0].driver_type, "serial");
}

#[test]
fn read_rejects_non_decimal_major() {
    assert!(read_drivers_from_table("acm /dev/ttyACM x66 0-255 serial").is_err());
}

#[test]
fn get_devnum_unpacks_rdev() {
    // major 166, minor 0: the acm device class.
    assert_eq!(get_devnum(166u64 << 8), (166, 0));
    // major 4, minor 80: a classic ttyS node.
    assert_eq!(get_devnum((4u64 << 8) | 80), (4, 80));
    // minor bits above 8 live at bit 20.
    assert_eq!(get_devnum((5u64 << 8) | 3 | (1u64 << 20)), (5, 259));
}

#[test]
fn default_finder_reads_the_system_table_path() {
    let finder = DriverTypeFinderImpl::new();
    assert_eq!(finder.drivers_file_path().as_str(), DRIVERS_FILE_PATH);
    assert!(matches!(finder.find_in_cache(4, 64), Err(FindError::NotFound)));
}
