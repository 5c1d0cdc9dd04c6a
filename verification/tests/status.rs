use railway_rs::ntes::status::{parse_train_status, train_status};

fn spot_block(
    code: &str,
    name: &str,
    arr_s: &str,
    arr_a: &str,
    badge: &str,
    dep_s: &str,
    dep_a: &str,
    pf: &str,
    km: &str,
    src: bool,
    dstn: bool,
) -> String {
    let color = if badge.eq_ignore_ascii_case("on time") {
        "green"
    } else {
        "red"
    };
    let src_m = if src {
        r#"<font size="2"><b>&nbsp;SRC&nbsp;&nbsp;</b></font>"#
    } else {
        ""
    };
    let dstn_m = if dstn {
        r#"<b>&nbsp;DSTN&nbsp;&nbsp;</b>"#
    } else {
        ""
    };
    format!(
        r#"<div class=" w3-card-2" style="width:100%;">
<div class="w3-container" style="float:left;width:100px;text-align:right;">
  <b><font size="1">{arr_s}</font></b><br>
  <font size="1" color="{color}" ><b>{arr_a}</b><br><span class="w3-round w3-{color}" style="padding: 1px 4px;">{badge}</span></font><br>
  {src_m}
</div>
<div class="w3-container" style="float:left;width:100px;text-align:center;">
  <div class="w3-bar-block" style="width:100%; background-image:url('track_gray.png');"><i class="fa fa-circle" style="color:teal;"></i></div>
</div>
<div class="w3-container" style="float:right;flex:1;padding-left:0px;padding-right:0px;display:flex;">
  <div class="w3-container" style="float:left;flex:1;">
<span><font size="1"><b>{name}</b><br> <div class="w3-container" style="flex:1;padding:0px;display:inline-block;width:100%;text-align: center;"> <div style="float:left;padding: 0px;"><b>{code} <span class="w3-round w3-orange" style="padding: 1px 4px;">PF {pf}*</span></b></div>
<div style="float:right;padding: 0px;"><b>{km}</b> KMs</div>
<button class="btn" type="button">Coach Position</button>
<div class="w3-modal"><div style="float:left;text-align:left;"><b>ENG</b> Locomotive</div><div style="float:left;text-align:left;"><b>D1</b> AC Chair Car</div></div>
</div>
  </div>
</div>
<div class="w3-container" style="float:right;text-align:right;">
  <span><b><font size="1" >{dep_s}</font></b></span><br>
  <span><font size="1" color="{color}" ><b>{dep_a}</b><br><span class="w3-round w3-{color}" style="padding: 1px 4px;">{badge}</span></font></span>
  {dstn_m}
</div>
</div>"#,
    )
}

/// The 12055-style popup: an upcoming not-started run (15-Aug) followed by
/// the active run (14-Aug) mid-way between GHAZIABAD and MEERUT CITY.
fn running_popup() -> String {
    let upcoming = |d: &str| {
        [
            spot_block(
                "NDLS",
                "NEW DELHI",
                "",
                "",
                "On Time",
                &format!("15:20 {d}"),
                &format!("15:20 {d}"),
                "9",
                "0",
                true,
                false,
            ),
            spot_block(
                "GZB",
                "GHAZIABAD",
                &format!("15:53 {d}"),
                "",
                "On Time",
                &format!("15:55 {d}"),
                "",
                "1",
                "26",
                false,
                false,
            ),
            spot_block(
                "MTC",
                "MEERUT CITY",
                &format!("16:32 {d}"),
                "",
                "On Time",
                &format!("16:34 {d}"),
                "",
                "3",
                "74",
                false,
                false,
            ),
            spot_block(
                "MOZ",
                "MUZAFFARNAGAR",
                &format!("17:12 {d}"),
                "",
                "On Time",
                &format!("17:14 {d}"),
                "",
                "1",
                "129",
                false,
                false,
            ),
            spot_block(
                "DBD",
                "DEOBAND",
                &format!("17:32 {d}"),
                "",
                "On Time",
                &format!("17:34 {d}"),
                "",
                "2",
                "158",
                false,
                false,
            ),
            spot_block(
                "TPZ",
                "TAPRI",
                &format!("18:09 {d}"),
                "",
                "On Time",
                &format!("18:11 {d}"),
                "",
                "1",
                "206",
                false,
                false,
            ),
            spot_block(
                "RK",
                "ROORKEE",
                &format!("18:43 {d}"),
                "",
                "On Time",
                &format!("18:45 {d}"),
                "",
                "1",
                "233",
                false,
                false,
            ),
            spot_block(
                "HW",
                "HARIDWAR JN",
                &format!("19:27 {d}"),
                "",
                "On Time",
                &format!("19:32 {d}"),
                "",
                "1",
                "274",
                false,
                false,
            ),
            spot_block(
                "DDN",
                "DEHRADOON",
                &format!("21:05 {d}"),
                "",
                "On Time",
                "",
                "",
                "3",
                "324",
                false,
                true,
            ),
        ]
        .join("\n")
    };
    let running = |d: &str| {
        [
            spot_block(
                "NDLS",
                "NEW DELHI",
                "",
                "",
                "On Time",
                &format!("15:20 {d}"),
                &format!("15:20 {d}"),
                "9",
                "0",
                true,
                false,
            ),
            spot_block(
                "GZB",
                "GHAZIABAD",
                &format!("15:53 {d}"),
                &format!("15:56 {d}"),
                "3 Min",
                &format!("15:55 {d}"),
                &format!("15:58 {d}"),
                "1",
                "26",
                false,
                false,
            ),
            spot_block(
                "MTC",
                "MEERUT CITY",
                &format!("16:32 {d}"),
                "",
                "On Time",
                &format!("16:34 {d}"),
                "",
                "3",
                "74",
                false,
                false,
            ),
            spot_block(
                "MOZ",
                "MUZAFFARNAGAR",
                &format!("17:12 {d}"),
                "",
                "On Time",
                &format!("17:14 {d}"),
                "",
                "1",
                "129",
                false,
                false,
            ),
            spot_block(
                "DBD",
                "DEOBAND",
                &format!("17:32 {d}"),
                "",
                "On Time",
                &format!("17:34 {d}"),
                "",
                "2",
                "158",
                false,
                false,
            ),
            spot_block(
                "TPZ",
                "TAPRI",
                &format!("18:09 {d}"),
                "",
                "On Time",
                &format!("18:11 {d}"),
                "",
                "1",
                "206",
                false,
                false,
            ),
            spot_block(
                "RK",
                "ROORKEE",
                &format!("18:43 {d}"),
                "",
                "On Time",
                &format!("18:45 {d}"),
                "",
                "1",
                "233",
                false,
                false,
            ),
            spot_block(
                "HW",
                "HARIDWAR JN",
                &format!("19:27 {d}"),
                "",
                "On Time",
                &format!("19:32 {d}"),
                "",
                "1",
                "274",
                false,
                false,
            ),
            spot_block(
                "DDN",
                "DEHRADOON",
                &format!("21:05 {d}"),
                "",
                "On Time",
                "",
                "",
                "3",
                "324",
                false,
                true,
            ),
        ]
        .join("\n")
    };
    format!(
        "<html><h3>12055 DDN JANSHTBDI</h3>\
         <div class=\"tab-pane \" id=\"train15-aug-2026\">\
         <h5>NEW DELHI (NDLS) - DEHRADOON (DDN)</h5>\
         <div class=\"w3-container\" style=\"width:100%;\"><h6 class =\"text-secondary\"><b>Yet to start from its source</b></h6></div>\
         <div class=\" w3-card-2 w3-sand\" style=\"width:100%;\"><div style=\"width:100%;\"><font size=\"2\" color=\"green\"><b>Yet to start from its source</b></font></div></div>\
         {up15}\
         </div>\
         <div class=\"tab-pane active\" id=\"train14-aug-2026\">\
         <h5>NEW DELHI (NDLS) - DEHRADOON (DDN)</h5>\
         <div class=\"w3-container\" style=\"width:100%;\"><h6 class =\"text-primary\"><b>Departed from GHAZIABAD(GZB) at 15:58 14-Aug (Delay: 00:03)</b></h6></div>\
         <div class=\" w3-card-2 w3-sand\" style=\"width:100%;\"><div style=\"width:100%;\" id=\"currPos14-aug-2026\"><font size=\"2\" color=\"green\"><b>Departed from GHAZIABAD(GZB) at 15:58 14-Aug</b></font></div></div>\
         {run14}\
         </div></html>",
        up15 = upcoming("15-Aug"),
        run14 = running("14-Aug"),
    )
}
#[test]
fn train_status_parses_running_run() {
    let norm = parse_train_status(&running_popup()).unwrap();
    assert_eq!(norm.train_number, "12055");
    assert_eq!(norm.train_name, "DDN JANSHTBDI");
    assert_eq!(norm.source_stn_name, "NEW DELHI");
    assert_eq!(norm.dest_stn_name, "DEHRADOON");
    assert_eq!(norm.train_start_date, "14-Aug-2026");
    assert_eq!(norm.next_station_code, "MTC");
    assert_eq!(norm.next_station_name, "MEERUT CITY");
    assert_eq!(norm.platform_number, "3");
    assert_eq!(norm.at_src, false);
    assert_eq!(norm.at_dstn, false);
    assert_eq!(norm.data_source, "NTES");

    let instances = &norm.instances;
    assert_eq!(instances.len(), 2);
    assert_eq!(instances[0].start_date, "15-Aug-2026");
    assert_eq!(instances[0].position, "Yet to start from its source");
    assert_eq!(instances[0].at_src, true, "upcoming run sits at its origin");
    assert_eq!(instances[0].next_station_code, "NDLS", "upcoming run's next station is the source");
    let up_stops = &instances[0].stops;
    assert_eq!(up_stops.len(), 9, "every instance carries its own timeline");
    assert_eq!(up_stops[1].code, "GZB");
    assert_eq!(up_stops[1].actual_arrival, "", "not started -> no actual");
    assert_eq!(instances[1].start_date, "14-Aug-2026");
    assert!(instances[1].position.contains("Departed from GHAZIABAD(GZB)"));
    let run_stops = &instances[1].stops;
    assert_eq!(run_stops[1].actual_arrival, "15:56");
    assert_eq!(run_stops[1].delay_minutes, 3);

    let stops = &norm.stops;
    assert_eq!(stops.len(), 9);
    // The source's arrival falls back to its departure, as on the live
    // station board.
    assert_eq!(stops[0].scheduled_arrival, "15:20");
    assert_eq!(stops[0].actual_arrival, "15:20");
    assert_eq!(stops[0].delay_minutes, 0);
    assert_eq!(stops[1].code, "GZB");
    assert_eq!(stops[1].scheduled_arrival, "15:53");
    assert_eq!(stops[1].actual_arrival, "15:56");
    assert_eq!(stops[1].delay_minutes, 3);
    assert_eq!(stops[1].platform, "1");
    assert_eq!(stops[2].actual_arrival, "", "not yet reached -> no actual");
    assert_eq!(stops[8].code, "DDN");
    assert_eq!(stops[8].scheduled_arrival, "21:05");
}

#[test]
fn train_status_marks_not_started_train_at_source() {
    let popup = format!(
        "<h3>22478 VANDE BHARAT EXP</h3>\
         <div class=\"tab-pane active\" id=\"train15-aug-2026\">\
         <h5>SHRI MATA VAISHNO DEVI KATRA (SVDK) - NEW DELHI (NDLS)</h5>\
         <h6 class =\"text-secondary\"><b>Yet to start from its source</b></h6>\
         <div class=\" w3-card-2 w3-sand\" style=\"width:100%;\"><div style=\"width:100%;\" id=\"currPos15-aug-2026\"><font size=\"2\"><b>Yet to start from its source</b></font></div></div>\
         {stops}\
         </div>",
        stops = [
            spot_block("SVDK", "SHRI MATA VAISHNO DEVI KATRA", "", "", "On Time", "05:45 15-Aug", "", "1", "0", true, false),
            spot_block("MCTM", "MARTYR CAPTAIN TUSHAR MAHAJAN", "06:14 15-Aug", "", "On Time", "06:16 15-Aug", "", "3", "19", false, false),
            spot_block("JAT", "JAMMUTAVI", "07:10 15-Aug", "", "On Time", "07:12 15-Aug", "", "1", "59", false, false),
            spot_block("NDLS", "NEW DELHI", "14:00 15-Aug", "", "On Time", "", "", "3", "597", false, true),
        ]
        .join("\n")
    );
    let norm = parse_train_status(&popup).unwrap();
    assert_eq!(norm.train_start_date, "15-Aug-2026");
    assert_eq!(norm.at_src, true);
    assert_eq!(norm.at_dstn, false);
    // The next-station widget points at the origin until the train moves.
    assert_eq!(norm.next_station_code, "SVDK");
    assert_eq!(norm.platform_number, "1");
    for stop in &norm.stops {
        assert_eq!(stop.actual_arrival, "");
    }
}

#[test]
fn train_status_completed_run_is_at_destination() {
    let popup = format!(
        "<h3>12055 DDN JANSHTBDI</h3>\
         <div class=\"tab-pane active\" id=\"train13-aug-2026\">\
         <h5>NEW DELHI (NDLS) - DEHRADOON (DDN)</h5>\
         <h6 class =\"text-success\"><b>Arrived at DEHRADOON(DDN) at 21:23 13-Aug (Delay: 00:18)</b></h6>\
         {stops}\
         </div>",
        stops = [
            spot_block("NDLS", "NEW DELHI", "", "", "On Time", "15:20 13-Aug", "15:20 13-Aug", "9", "0", true, false),
            spot_block("GZB", "GHAZIABAD", "15:53 13-Aug", "15:53 13-Aug", "On Time", "15:55 13-Aug", "15:55 13-Aug", "1", "26", false, false),
            spot_block("DDN", "DEHRADOON", "21:05 13-Aug", "21:23 13-Aug", "18 Min", "", "", "3", "324", false, true),
        ]
        .join("\n")
    );
    let norm = parse_train_status(&popup).unwrap();
    assert_eq!(norm.at_src, false);
    assert_eq!(norm.at_dstn, true);
    assert_eq!(norm.train_start_date, "13-Aug-2026");
    let stops = &norm.stops;
    assert_eq!(stops[2].actual_arrival, "21:23");
    assert_eq!(stops[2].delay_minutes, 18);
}

#[test]
fn train_status_parses_older_completed_run_instance() {
    let run13 = [
        spot_block("NDLS", "NEW DELHI", "", "", "On Time", "15:20 13-Aug", "15:20 13-Aug", "9", "0", true, false),
        spot_block("GZB", "GHAZIABAD", "15:53 13-Aug", "15:53 13-Aug", "On Time", "15:55 13-Aug", "15:55 13-Aug", "1", "26", false, false),
        spot_block("DDN", "DEHRADOON", "21:05 13-Aug", "21:23 13-Aug", "18 Min", "", "", "3", "324", false, true),
    ]
    .join("\n");
    let run12 = [
        spot_block("NDLS", "NEW DELHI", "", "", "On Time", "15:20 12-Aug", "15:20 12-Aug", "9", "0", true, false),
        spot_block("GZB", "GHAZIABAD", "15:53 12-Aug", "15:56 12-Aug", "3 Min", "15:55 12-Aug", "15:58 12-Aug", "1", "26", false, false),
        spot_block("MTC", "MEERUT CITY", "16:32 12-Aug", "", "On Time", "16:34 12-Aug", "", "3", "74", false, false),
        spot_block("DDN", "DEHRADOON", "21:05 12-Aug", "", "On Time", "", "", "3", "324", false, true),
    ]
    .join("\n");
    let popup = format!(
        "<html><h3>12055 DDN JANSHTBDI</h3>\
         <div class=\"tab-pane active\" id=\"train13-aug-2026\">\
         <h5>NEW DELHI (NDLS) - DEHRADOON (DDN)</h5>\
         <h6 class =\"text-success\"><b>Arrived at DEHRADOON(DDN) at 21:23 13-Aug (Delay: 00:18)</b></h6>\
         {run13}\
         </div>\
         <div class=\"tab-pane \" id=\"train12-aug-2026\">\
         <h5>NEW DELHI (NDLS) - DEHRADOON (DDN)</h5>\
         <h6 class =\"text-primary\"><b>Departed from GHAZIABAD(GZB) at 15:58 12-Aug (Delay: 00:03)</b></h6>\
         {run12}\
         </div></html>"
    );
    let norm = parse_train_status(&popup).unwrap();
    let instances = &norm.instances;
    assert_eq!(instances[0].start_date, "13-Aug-2026");
    assert_eq!(instances[0].at_dstn, true, "completed run is at destination");
    assert_eq!(instances[0].stops[2].actual_arrival, "21:23");
    assert_eq!(instances[0].stops[2].delay_minutes, 18);
    assert_eq!(instances[1].start_date, "12-Aug-2026");
    assert_eq!(instances[1].at_src, false);
    assert_eq!(instances[1].next_station_code, "MTC");
    assert_eq!(instances[1].stops[1].actual_arrival, "15:56");
}

#[test]
fn train_status_shell_without_panes_is_none() {
    assert!(parse_train_status(
        "<html><h3>Spot Your Train</h3>\
         <div class='tab-pane container fade ' id='s1'><h3>&nbsp;</h3></div>"
    )
    .is_none());
}

#[test]
fn journey_basis_parses_showruncstn_page() {
    // ShowRunCStn tab ids carry a trailing "1" (`train17-aug-20261`).
    let popup = format!(
        "<html><h3>12055 DDN JANSHTBDI</h3>\
         <div class=\"tab-pane active\" id=\"train17-aug-20261\">\
         <h5>NEW DELHI (NDLS) - DEHRADOON (DDN)</h5>\
         <h6 class =\"text-primary\"><b>Departed from GHAZIABAD(GZB) at 15:58 17-Aug (Delay: 00:03)</b></h6>\
         {stops}\
         </div></html>",
        stops = [
            spot_block("NDLS", "NEW DELHI", "", "", "On Time", "15:20 17-Aug", "15:20 17-Aug", "9", "0", true, false),
            spot_block("GZB", "GHAZIABAD", "15:53 17-Aug", "15:56 17-Aug", "3 Min", "15:55 17-Aug", "15:58 17-Aug", "1", "26", false, false),
            spot_block("MTC", "MEERUT CITY", "16:32 17-Aug", "", "On Time", "16:34 17-Aug", "", "3", "74", false, false),
            spot_block("DDN", "DEHRADOON", "21:05 17-Aug", "", "On Time", "", "", "3", "324", false, true),
        ]
        .join("\n")
    );
    let norm = parse_train_status(&popup).unwrap();
    assert_eq!(norm.train_number, "12055");
    assert_eq!(norm.train_name, "DDN JANSHTBDI");
    assert_eq!(norm.train_start_date, "17-Aug-2026");
    assert_eq!(norm.source_stn_name, "NEW DELHI");
    assert_eq!(norm.dest_stn_name, "DEHRADOON");
    assert_eq!(norm.at_src, false);
    assert_eq!(norm.at_dstn, false);
    assert_eq!(norm.next_station_code, "MTC");
    let stops = &norm.stops;
    assert_eq!(stops.len(), 4);
    assert_eq!(stops[1].code, "GZB");
    assert_eq!(stops[1].actual_arrival, "15:56");
    assert_eq!(stops[1].delay_minutes, 3);
}

#[test]
fn header_without_a_run_tab_reads_as_nothing() {
    assert!(train_status("<h3>12055 DDN JANSHTBDI</h3><p>no runs</p>").is_none());
    let norm = train_status(&running_popup()).unwrap();
    assert_eq!(norm.next_station_code, "MTC");
}

#[test]
fn header_without_run_tab_reads_as_none() {
    assert!(parse_train_status("<h3>12055 DDN JANSHTBDI</h3>").is_none());
}

#[test]
fn every_stop_name_is_clean_and_platform_starless() {
    let norm = parse_train_status(&running_popup()).unwrap();
    assert!(!norm.stops.is_empty());
    for s in &norm.stops {
        assert!(!s.name.is_empty());
        assert!(!s.name.contains('<') && !s.name.contains('>'));
        assert_eq!(s.name, s.name.trim());
        assert!(!s.name.contains("  "));
        assert!(!s.platform.contains('*'));
    }
}
