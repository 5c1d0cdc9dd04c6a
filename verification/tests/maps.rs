use railway_rs::ntes::maps::{js_array, parse_journey_stations, parse_train_route_map, parse_train_spot_map};

#[test]
fn journey_stations_parses_option_list() {
    let html = r#"<input type="text" name="trainNo" id="trainNo" size="6" value="12055">
        <select  name="jStation" class="form-control"  id="jStation" onchange="onJourneyStationInput();">
          <option value="">---Select---</option>
          <option title="DAILY#DAILY" value="NDLS#false#1" >NEW DELHI - NDLS</option>
          <option title="MON,WED#TUE,THU" value="ABC#true#5" >SOME PLACE - ABC</option>
          <option title="DAILY#DAILY" value="DDN#false#53" >DEHRADOON - DDN</option>
        </select>"#;
    let data = parse_journey_stations(html).unwrap();
    assert_eq!(data.train_no, "12055");
    let list = &data.list;
    assert_eq!(list.len(), 3, "placeholder option without a title is skipped");
    assert_eq!(list[0].code, "NDLS");
    assert_eq!(list[0].name, "NEW DELHI");
    assert_eq!(list[0].seq, 1, "seq is a number");
    assert_eq!(list[0].day_change, false);
    assert_eq!(list[0].arrival_days, "DAILY");
    assert_eq!(list[0].departure_days, "DAILY");
    assert_eq!(list[1].code, "ABC");
    assert_eq!(list[1].name, "SOME PLACE");
    assert_eq!(list[1].seq, 5);
    assert_eq!(list[1].day_change, true);
    assert_eq!(list[1].arrival_days, "MON,WED");
    assert_eq!(list[1].departure_days, "TUE,THU");
    assert_eq!(list[2].code, "DDN");
    assert_eq!(list[2].name, "DEHRADOON");
}

#[test]
fn journey_stations_shell_is_none() {
    let shell = "<table><tr><th>No data</th></tr></table>";
    assert!(parse_journey_stations(shell).is_none());
}

#[test]
fn odd_option_values_fall_back() {
    let html = r#"<input name="trainNo" value="12055">
        <select name="jStation"><option title="DAILY" value="XYZ#maybe#x" >PLAIN NAME</option></select>"#;
    let data = parse_journey_stations(html).unwrap();
    let s = &data.list[0];
    assert_eq!(s.code, "XYZ");
    assert_eq!(s.name, "PLAIN NAME");
    assert_eq!(s.seq, 0);
    assert_eq!(s.day_change, false);
    assert_eq!(s.arrival_days, "");
    assert_eq!(s.departure_days, "");
}

#[test]
fn train_route_map_parses_js_blocks() {
    let html = r##"
var myStns = ["NDLS","GZB","MTC","DDN"];
var myStnsF = ["NDLS","CSB","TKJ","GZB","MTC","DDN"];
var myStnNames = ["NEW DELHI","GHAZIABAD","MEERUT CITY","DEHRADOON"];
var train=["12055","DDN JANSHTBDI","NEW DELHI","DEHRADOON","NDLS","DDN",""];
var runInfo = ["#15:20#1#0#Daily#Daily","15:53#15:55#1#26#Daily#Daily","16:32#16:34#1#73#Daily#Daily","21:05##1#305#Daily#Daily"];
"##;
    let data = parse_train_route_map(html).unwrap();
    assert_eq!(data.train.train_no, "12055");
    assert_eq!(data.train.train_name, "DDN JANSHTBDI");
    assert_eq!(data.train.source, "NEW DELHI");
    assert_eq!(data.train.destination, "DEHRADOON");
    assert_eq!(data.train.source_code, "NDLS");
    assert_eq!(data.train.dest_code, "DDN");
    assert_eq!(data.train.start_date, "");
    let route = &data.route;
    assert_eq!(route.len(), 4);
    assert_eq!(route[0].code, "NDLS");
    assert_eq!(route[0].name, "NEW DELHI");
    assert_eq!(route[0].arrival, "");
    assert_eq!(route[0].departure, "15:20");
    assert_eq!(route[0].day, "1");
    assert_eq!(route[0].distance, "0");
    assert_eq!(route[0].days_of_run, "Daily");
    assert_eq!(route[3].code, "DDN");
    assert_eq!(route[3].name, "DEHRADOON");
    assert_eq!(route[3].arrival, "21:05");
    assert_eq!(route[3].departure, "");
    let track = &data.track;
    assert_eq!(track.len(), 6);
    assert_eq!(track[0], "NDLS");
    assert_eq!(track[1], "CSB");
    assert_eq!(track[3], "GZB");
}

#[test]
fn train_route_map_shell_is_none() {
    assert!(parse_train_route_map("<html><body>No data</body></html>").is_none());
}

#[test]
fn train_spot_map_parses_spot_js_blocks() {
    let html = r##"
var myStns = ["NDLS","GZB","DDN"];
var cStn = ["NDLS","--","--"];
var jStn = ["NDLS","New Delhi","","","<span class=blueS11L>Source</span>","17-Aug-2026 15:20","17-Aug-2026 15:20","On Time","9"];
var train=["12055","DDN JANSHTBDI","New Delhi","Dehradoon","NDLS","DDN","17-Aug-2026"];
var runInfo = ["Source|#17-Aug-2026 15:20|On Time","17-Aug-2026 15:53|On Time#17-Aug-2026 15:55|On Time","17-Aug-2026 21:05|On Time#Destination|"];
"##;
    let data = parse_train_spot_map(html).unwrap();
    assert_eq!(data.train.train_no, "12055");
    assert_eq!(data.train.train_name, "DDN JANSHTBDI");
    assert_eq!(data.train.source, "New Delhi");
    assert_eq!(data.train.destination, "Dehradoon");
    assert_eq!(data.train.source_code, "NDLS");
    assert_eq!(data.train.dest_code, "DDN");
    assert_eq!(data.train.start_date, "17-Aug-2026");
    assert_eq!(data.current_station, "NDLS");
    assert_eq!(data.journey.code, "NDLS");
    assert_eq!(data.journey.name, "New Delhi");
    assert_eq!(data.journey.label, "Source", "label HTML tags stripped");
    assert_eq!(data.journey.expected_arrival, "17-Aug-2026 15:20");
    assert_eq!(data.journey.actual_arrival, "17-Aug-2026 15:20");
    assert_eq!(data.journey.delay_status, "On Time");
    assert_eq!(data.journey.platform, "9");
    let status = &data.status;
    assert_eq!(status.len(), 3);
    assert_eq!(status[0].code, "NDLS");
    assert_eq!(status[0].expected_arrival, "", "Source marker is blanked");
    assert_eq!(status[0].expected_departure, "17-Aug-2026 15:20");
    assert_eq!(status[0].arrival_delay, "");
    assert_eq!(status[0].departure_delay, "On Time");
    assert_eq!(status[1].code, "GZB");
    assert_eq!(status[1].expected_arrival, "17-Aug-2026 15:53");
    assert_eq!(status[1].expected_departure, "17-Aug-2026 15:55");
    assert_eq!(status[1].arrival_delay, "On Time");
    assert_eq!(status[1].departure_delay, "On Time");
    assert_eq!(status[2].code, "DDN");
    assert_eq!(status[2].expected_arrival, "17-Aug-2026 21:05");
    assert_eq!(status[2].expected_departure, "", "Destination marker is blanked");
    assert_eq!(status[2].arrival_delay, "On Time");
    assert_eq!(status[2].departure_delay, "");
}

#[test]
fn train_spot_map_shell_is_none() {
    assert!(parse_train_spot_map("<html><body>No data</body></html>").is_none());
}

#[test]
fn js_arrays_keep_placeholders_and_drop_quotes() {
    assert_eq!(js_array(r#" ["A", "",  "B" ] "#), vec!["A".to_string(), "".to_string(), "B".to_string()]);
    assert_eq!(js_array("[ ]"), Vec::<String>::new());
    assert_eq!(js_array(r#"""x"""#), vec!["x".to_string()]);
}
