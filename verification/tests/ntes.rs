use railway_rs::ntes::{badge_minutes, extract_csrf, hhmm, is_real_time};

#[test]
fn csrf_extraction_handles_hidden_input() {
    let body = "<input type='hidden' name='-zr1hgfgigick1786620354' value='-1ageb3318ns5329777005'>";
    assert_eq!(
        extract_csrf(body).unwrap(),
        ("-zr1hgfgigick1786620354".to_string(), "-1ageb3318ns5329777005".to_string())
    );
    let body = "<input type=\"hidden\" name=\"csrfToken\" value=\"dce6e4e056319e36dac78a98842e5432\">";
    assert_eq!(
        extract_csrf(body).unwrap(),
        ("csrfToken".to_string(), "dce6e4e056319e36dac78a98842e5432".to_string())
    );
    assert_eq!(extract_csrf("Request Rejected"), None);
}

#[test]
fn train_status_badge_minutes_parses_spellings() {
    assert_eq!(badge_minutes("On Time"), 0);
    assert_eq!(badge_minutes("3 Min"), 3);
    assert_eq!(badge_minutes("41 Mins."), 41);
    assert_eq!(badge_minutes("1 Hr 26 Min"), 86);
    assert_eq!(badge_minutes("02:10"), 130);
    assert_eq!(badge_minutes(""), 0);
}

#[test]
fn badge_of_hours_only_and_of_nonsense() {
    assert_eq!(badge_minutes("2 Hrs"), 120);
    assert_eq!(badge_minutes("late"), 0);
    assert_eq!(badge_minutes("  ON TIME  "), 0);
}

#[test]
fn first_clock_time_of_a_text() {
    assert_eq!(hhmm("Arr 9:05, Dep 09:10"), "9:05");
    assert_eq!(hhmm("none"), "");
}

#[test]
fn estimated_times_are_not_real() {
    assert!(is_real_time(" 10:05 "));
    assert!(!is_real_time("10:05*"));
    assert!(!is_real_time("  "));
    assert!(!is_real_time("1005"));
}

use railway_rs::ntes::{exception_kind, parse_train_exceptions};

#[test]
fn train_exceptions_parses_calendar() {
    let html = r##"<html><title>Exceptional Trains Details</title><body>
        <h4>04138 - BJU GWL SPL</h4>
        BARAUNI JN - GWALIOR JN.<br/>
        Days of Run : <b>Wed,Sun</b>
        <table><tr><th colspan="7"><font size="5pt">Aug-2026</font></th></tr>
        <tr>
        <td class="w3-tooltip" style="padding: 10px;">
        <font color="#bfbfbf" size="4pt"><b>&nbsp;</b></font>
        </td>
        <td class="w3-tooltip" style="padding: 10px;">
        <font color="#bfbfbf" size="4pt"><b>10</b></font>
        </td>
        <td class="w3-tooltip" style="padding: 10px;">
        <font color="green" size="4pt"><b>12</b></font>
        </td>
        <td class="w3-tooltip" style="padding: 10px;">
        <span style="position:absolute;left:0;bottom:40px" class="w3-text w3-tag w3-red w3-round-xlarge">[Train is Cancelled]</span>
        <b> <font color="white" size="4pt" style="background: red;border-radius: 50%;padding: 5px;">16</font></b>
        </td>
        <td class="w3-tooltip" style="padding: 10px;">
        <span style="position:absolute;left:0;bottom:40px" class="w3-text w3-tag w3-orange w3-round-xlarge">[Train is Scheduled to Run on Diverted Route]</span>
        <b> <font color="white" size="4pt" style="background: orange;border-radius: 50%;padding: 5px;">19</font></b>
        </td>
        </tr>
        </table></body></html>"##;
    let data = parse_train_exceptions(html, "04138").unwrap();
    assert!(!data.no_data);
    assert_eq!(data.number, "04138");
    assert_eq!(data.name, "BJU GWL SPL");
    assert_eq!(data.source, "BARAUNI JN");
    assert_eq!(data.destination, "GWALIOR JN");
    assert_eq!(data.days_of_run, vec!["Wed".to_string(), "Sun".to_string()]);
    assert_eq!(data.exceptions.len(), 2);
    assert_eq!(data.exceptions[0].date, "2026-08-16");
    assert_eq!(data.exceptions[0].kind, "cancelled");
    assert_eq!(data.exceptions[0].note, "Train is Cancelled");
    assert_eq!(data.exceptions[1].date, "2026-08-19");
    assert_eq!(data.exceptions[1].kind, "diverted");
}

#[test]
fn train_exceptions_colour_pair_fallback() {
    let html = r##"<h4>12951 - TEST EXP</h4>
        SRC JN - DST JN<br/>
        Days of Run : <b>Mon</b>
        <table><tr><th><font size="5pt">Sep-2026</font></th></tr>
        <tr>
        <td class="w3-tooltip" style="padding: 10px;">
        <b> <font color="yellow" size="4pt" style="background: red;border-radius: 50%;padding: 5px;">3</font></b>
        </td>
        <td class="w3-tooltip" style="padding: 10px;">
        <b> <font color="white" size="4pt" style="background: blue;border-radius: 50%;padding: 5px;">4</font></b>
        </td>
        </tr></table>"##;
    let data = parse_train_exceptions(html, "12951").unwrap();
    assert_eq!(data.exceptions.len(), 2);
    assert_eq!(data.exceptions[0].date, "2026-09-03");
    assert_eq!(data.exceptions[0].kind, "new_destination");
    assert_eq!(data.exceptions[1].date, "2026-09-04");
    assert_eq!(data.exceptions[1].kind, "rescheduled");
}

#[test]
fn train_exceptions_nodata_page() {
    let html = r##"<html><title>Exceptional Trains Details</title><body>
        <div class="w3-panel w3-round w3-red"><h4>No Exceptional Details found for train 12951 !!!</h4></div>
        </body></html>"##;
    let data = parse_train_exceptions(html, "12951").unwrap();
    assert!(data.no_data);
    assert_eq!(data.number, "12951");
    assert!(data.exceptions.is_empty());
}

#[test]
fn exception_page_without_calendar_is_none() {
    assert!(parse_train_exceptions("<table><tr><th>No data</th></tr></table>", "12951").is_none());
    let no_month = "<h4>12951 - X</h4> A - B<br/> Days of Run : <b>Mon</b>";
    assert!(parse_train_exceptions(no_month, "12951").is_none());
}

#[test]
fn exception_kinds_from_notes_and_colours() {
    assert_eq!(
        exception_kind(r#"<span class="w3-tag">[Train is Rescheduled from Source]</span>"#),
        Some(("rescheduled", "Train is Rescheduled from Source"))
    );
    assert_eq!(exception_kind(r#"<span class="w3-tag">[Something else]</span>"#), None);
    assert_eq!(
        exception_kind(r#"<font color="green" style="background: yellow;">7</font>"#),
        Some(("new_source", "Train is Scheduled to Start from New Source"))
    );
    assert_eq!(exception_kind(r#"<font color="green"><b>12</b></font>"#), None);
}
