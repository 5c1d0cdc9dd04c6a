use railway_rs::ntes::boards::{
    between_patterns_ok, delay_patterns_ok, heritage_patterns_ok, live_patterns_ok, parcel_patterns_ok,
    timetable_patterns_ok,
};
use railway_rs::ntes::exception_patterns_ok;
use railway_rs::ntes::maps::{journey_patterns_ok, route_map_patterns_ok, spot_map_patterns_ok};
use railway_rs::ntes::status::status_patterns_ok;

#[test]
fn every_parser_pattern_compiles() {
    assert!(exception_patterns_ok());
    assert!(journey_patterns_ok());
    assert!(route_map_patterns_ok());
    assert!(spot_map_patterns_ok());
    assert!(live_patterns_ok());
    assert!(between_patterns_ok());
    assert!(timetable_patterns_ok());
    assert!(delay_patterns_ok());
    assert!(parcel_patterns_ok());
    assert!(heritage_patterns_ok());
    assert!(status_patterns_ok());
}
