use railway_rs::dates::{
    date_compact, date_iso, is_valid_date, normalize_ntes_date, normalize_pnr_date, today_ist_at, today_ist_ntes_at,
};

#[test]
fn date_compact_normalizes_human_formats() {
    assert_eq!(date_compact("2026-08-20"), "20260820");
    assert_eq!(date_compact("20-08-2026"), "20260820");
    assert_eq!(date_compact("20/08/2026"), "20260820");
    assert_eq!(date_compact("20260820"), "20260820");
    assert_eq!(date_compact("not-a-date"), "not-a-date");
}

#[test]
fn normalize_date_compact_normalizes_human_formats() {
    assert_eq!(date_compact("2026-08-20"), "20260820");
    assert_eq!(date_compact("20-08-2026"), "20260820");
    assert_eq!(date_compact("20/08/2026"), "20260820");
    assert_eq!(date_compact("20260820"), "20260820");
    assert_eq!(date_iso("20260820"), "2026-08-20");
    assert_eq!(date_iso("20-08-2026"), "2026-08-20");
    assert_eq!(date_iso("2026-08-20"), "2026-08-20");
    assert_eq!(date_compact("not-a-date"), "not-a-date");
}

#[test]
fn dates_are_trimmed_before_reading() {
    assert_eq!(date_compact("  2026-08-20 "), "20260820");
    assert_eq!(date_iso(" nope "), "nope");
    assert!(is_valid_date("31/12/2025"));
    assert!(!is_valid_date("2025-02-30"));
}

#[test]
fn ntes_dates_become_iso() {
    assert_eq!(normalize_ntes_date("14-Aug-2026"), "2026-08-14");
    assert_eq!(normalize_ntes_date("20260814"), "2026-08-14");
    assert_eq!(normalize_ntes_date("2026-08-14"), "2026-08-14");
    assert_eq!(normalize_ntes_date("soon"), "soon");
}

#[test]
fn pnr_dates_become_iso() {
    assert_eq!(normalize_pnr_date("2026-08-14"), "2026-08-14");
    assert_eq!(normalize_pnr_date("14-08-2026"), "2026-08-14");
    assert_eq!(normalize_pnr_date("08/14/2026"), "2026-08-14");
    assert_eq!(normalize_pnr_date("Aug 14, 2026 10:30:00 AM"), "2026-08-14");
    assert_eq!(normalize_pnr_date("Aug 14, 2026"), "2026-08-14");
    assert_eq!(normalize_pnr_date(" later "), "later");
}

#[test]
fn india_date_runs_five_and_a_half_hours_ahead() {
    // 2015-05-15 00:00:00 UTC
    assert_eq!(today_ist_at(1431648000), Some("2015-05-15".to_string()));
    assert_eq!(today_ist_ntes_at(1431648000), Some("15-May-2015".to_string()));
    // 2015-05-14 18:30:00 UTC is already midnight in India
    assert_eq!(today_ist_at(1431628200), Some("2015-05-15".to_string()));
    // one second earlier it is still the 14th
    assert_eq!(today_ist_at(1431628199), Some("2015-05-14".to_string()));
    assert_eq!(today_ist_ntes_at(1431628199), Some("14-May-2015".to_string()));
}

#[test]
fn unrepresentable_instant_has_no_date() {
    assert_eq!(today_ist_at(i64::MAX), None);
    assert_eq!(today_ist_ntes_at(i64::MAX - 100), None);
}

#[test]
fn early_years_keep_four_digits() {
    assert_eq!(date_compact("0005-03-04"), "00050304");
    assert_eq!(date_iso("00050304"), "0005-03-04");
    let c = date_compact("14-08-2026");
    assert_eq!(c.len(), 8);
    assert!(c.chars().all(|ch| ch.is_ascii_digit()));
}
