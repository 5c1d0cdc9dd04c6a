use railway_rs::procstat::{statm_rss_bytes, utime_plus_stime};

#[test]
fn cpu_ticks_are_read_after_the_command_name() {
    // pid (comm with spaces) state ppid ... utime=14th, stime=15th field overall.
    let stat = "1234 (my proc) S 1 2 3 4 5 6 7 8 9 10 250 50 0 0 20 0 1";
    assert_eq!(utime_plus_stime(stat), Some(300));
    assert_eq!(utime_plus_stime("1234 no paren 1 2 3"), None);
    assert_eq!(utime_plus_stime("1 (x) S 1 2"), None);
    assert_eq!(utime_plus_stime("1 (x) S 1 2 3 4 5 6 7 8 9 10 x 50"), None);
}

#[test]
fn resident_memory_is_the_second_statm_field_in_pages() {
    assert_eq!(statm_rss_bytes("1000 250 30 1 0 80 0"), Some(250 * 4096));
    assert_eq!(statm_rss_bytes("1000"), None);
    assert_eq!(statm_rss_bytes("1000 x"), None);
}
