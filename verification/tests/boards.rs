use railway_rs::ntes::boards::{
    parse_average_delay, parse_heritage, parse_live_station, parse_parcel, parse_station_timetable,
    parse_trains_between,
};
use railway_rs::ntes::parse_train_exceptions;

#[test]
fn live_station_row_parses_times_delay_and_platform() {
    let row = r#"<tr><td nowrap>1</td>
        <td align=left nowrap><b>04071</b>&nbsp;|<b> SOU NDLS SPL</b><br>
        <font size="2">(SOU-NDLS)&nbsp;TRAIN ON DEMAND</font><br>
        <span class="w3-round w3-blue w3-tiny" style="padding:1px 4px;font-size:8pt;cursor: pointer;" onclick="onTrainStatus('04071',document.getElementsByName('frmSTN')[0],'13-Aug-2026')">See Train Status >></span>
        &nbsp;
        <span class="w3-round w3-orange w3-tiny" style="padding:1px 4px;font-size:8pt;cursor: pointer;" onclick="showTrainServiceSchedule('04071','13-Aug-2026',document.getElementsByName('frmSTN')[0])">Train Schedule >></span>
        </td>
        <td nowrap width="130px">
            <font color="red">15:00</font><br>
            <span class="w3-round w3-red w3-tiny" style="padding: 1px 4px;">41 Mins.</span><br>
            <font size="1">&nbsp;14:19</font>
        </td>
        <td nowrap width="130px">
            <font color="red">15:01*</font><br>
            <span class="w3-round w3-red w3-tiny" style="padding: 1px 4px;">40 Mins.</span><br>
            <font size="1">&nbsp;14:21</font>
        </td>
        <td width="80px"><b>1</b><br><button>Coach Position</button></td></tr>"#;
    let trains = parse_live_station(row).unwrap();
    let t = &trains[0];
    assert_eq!(t.train_no, "04071");
    assert_eq!(t.train_name, "SOU NDLS SPL");
    assert_eq!(t.scheduled_time, "14:19");
    assert_eq!(t.expected_time, "15:00");
    assert_eq!(t.delay_arr, true);
    assert_eq!(t.platform_no, "1");
}

#[test]
fn live_station_on_time_and_source_trains() {
    let row = r#"<tr><td nowrap>1</td>
        <td align=left nowrap><b>12951</b>&nbsp;|<b> MUMBAI RAJDHANI</b><br>
        <span onclick="onTrainStatus('12951',document.getElementsByName('frmSTN')[0],'13-Aug-2026')">See Train Status >></span>
        </td>
        <td nowrap width="130px">
            <font color="green">09:15</font><br>
            <span class="w3-round w3-green w3-tiny">On Time</span><br>
            <font size="1">&nbsp;09:15</font>
        </td>
        <td nowrap width="130px"><font size="2">Source</font></td>
        <td width="80px"><b>1</b></td></tr>
        <tr><td nowrap>2</td>
        <td align=left nowrap><b>12301</b>&nbsp;|<b> RAJDHANI EXP</b><br>
        <span onclick="onTrainStatus('12301',document.getElementsByName('frmSTN')[0],'13-Aug-2026')">See Train Status >></span>
        </td>
        <td nowrap width="130px"><font size="2">Destination</font></td>
        <td nowrap width="130px">
            <font color="green">10:00</font><br>
            <font size="1">&nbsp;10:00</font>
        </td>
        <td width="80px"><b>2</b></td></tr>"#;
    let trains = parse_live_station(row).unwrap();
    assert_eq!(trains.len(), 2);
    assert_eq!(trains[0].expected_time, "09:15");
    assert_eq!(trains[0].delay_arr, false);
    // A train that starts here: its arrival cell has no times, so the
    // departure cell is read.
    assert_eq!(trains[1].expected_time, "10:00");
    assert_eq!(trains[1].delay_arr, false);
    assert_eq!(trains[1].platform_no, "2");
}

#[test]
fn trains_between_row_parses_times_and_runs() {
    let row = r#"<tr class="w3-round">
        <td colspan=3>
        <span><b>12904</b>&nbsp;&nbsp;GOLDEN TEMPLE M</span><br>
        <span>Daily | Superfast</span>
        <div style="float: right;padding:4px;border:0px;margin-top:-30px;text-align:right;"><img onclick="showTrainServiceSchedule('12904','14-Aug-2026',document.getElementsByName('frmTBS')[0]);" /><br>
        <span class="w3-round" style="padding-top:10px;padding-left:10px;"><span class="w3-round w3-blue" style="padding: 0px 3px;font-size:9pt;cursor: pointer;" onclick="onTrainStatus('12904',document.getElementsByName('frmTBS')[0],'')">See Train Status >></span></span></div>
        <div style="display: flex; justify-content: space-between; align-items: center; width: 100%; border-top: 1px solid #eee; text-align: center; padding: 2px 0;">
        <span style="text-align: left;width: 25%;"><b>04:00</b><br>Hazrat Nizamuddin Jn<br>NZM</span>
        <div style="text-align: center; width: 50%;">--19:55 Hrs.--<br>&nbsp;&nbsp;</div>
        <span style="text-align: right; width: 25%;"><b>23:55</b><br>Bandra Terminus<br><b>BDTS</b></span>
        </div>
        </td>
        </tr>
        <tr class="w3-round">
        <td colspan=3>
        <span><b>22654</b>&nbsp;&nbsp;NZM TVC SF EXP</span><br>
        <span>Mon,Sat | Superfast</span>
        <span class="w3-round w3-blue" style="padding: 0px 3px;font-size:9pt;cursor: pointer;" onclick="onTrainStatus('22654',document.getElementsByName('frmTBS')[0],'')">See Train Status >></span>
        <span style="text-align: left;width: 25%;"><b>17:00</b><br>Hazrat Nizamuddin Jn<br>NZM</span>
        <span style="text-align: right; width: 25%;"><b>11:40</b><br>Kochuveli<br><b>KCVL</b></span>
        </td>
        </tr>"#;
    let trains = parse_trains_between(row).unwrap();
    assert_eq!(trains.len(), 2);
    assert_eq!(trains[0].train_no, "12904");
    assert_eq!(trains[0].train_name, "GOLDEN TEMPLE M");
    assert_eq!(trains[0].dep_time, "04:00");
    assert_eq!(trains[0].arr_time, "23:55");
    for (d, day) in ["Mon", "Tue", "Wed", "Thu", "Fri", "Sat", "Sun"].iter().enumerate() {
        assert_eq!(trains[0].run_days[d], true, "{day} runs");
    }
    assert_eq!(trains[1].dep_time, "17:00");
    assert_eq!(trains[1].arr_time, "11:40");
    assert_eq!(trains[1].run_days[0], true);
    assert_eq!(trains[1].run_days[1], false);
    assert_eq!(trains[1].run_days[2], false);
    assert_eq!(trains[1].run_days[4], false);
    assert_eq!(trains[1].run_days[5], true);
    assert_eq!(trains[1].run_days[6], false);
}

#[test]
fn space_separated_run_days_in_any_case() {
    let row = r#"<tr><span><b>11011</b>&nbsp;&nbsp;TEST EXP</span><br>
        <span>tue  WED | Mail</span> See Train Status
        <span><b>06:10</b><br>Somewhere<br>SMW</span></tr>"#;
    let trains = parse_trains_between(row).unwrap();
    assert_eq!(trains[0].run_days, vec![false, true, true, false, false, false, false]);
    assert_eq!(trains[0].dep_time, "06:10");
    assert_eq!(trains[0].arr_time, "");
}

#[test]
fn shell_page_without_rows_parses_to_none() {
    assert!(parse_live_station("<table><tr><th>No data</th></tr></table>").is_none());
    assert!(parse_trains_between("<table><tr><th>No data</th></tr></table>").is_none());
    assert!(parse_train_exceptions("<table><tr><th>No data</th></tr></table>", "12951").is_none());
}

#[test]
fn station_timetable_parses_summary_and_rows() {
    let html = r##"<table>
        <tr><th colspan="9" align="left"><font size="2" color="#006AD5" face="verdana"><b>326  Trains scheduled at NDLS - NEW DELHI</b></font></th></tr>
        <tr class=" w3-round">
          <td colspan=3 ...>
            <span ><b>22403</b>&nbsp;&nbsp;PDY NDLS SF EXP</span>
            <br><span >Pondicherry (PDY) - New Delhi (NDLS)</span>
            <br><span >Superfast | 1A,2A,3A,SL,GEN,PWD</span>
            <div style="float: right;padding:5px;border:0px;margin-top:-30px;"><img alt="See Schedule" height="20" width="20" src="images/calendar_black.png" onclick="showTrainServiceSchedule('22403','15-Aug-2026',document.getElementsByName('frmTAS')[0]);" style="cursor:pointer;background: #eee;"/></div>
            <div style="display: flex; justify-content: space-between; align-items: center; width: 100%; border-top: 1px solid #eee; text-align: center; padding: 5px 2px;">
              <span style="text-align: left;width: 25%;">Arr.	: <b>00:20</b></span>
              <div style="text-align: center; width: 50%;">- Fri -</div>
              <span style="text-align: right; width: 25%;">Dep.: <b>DSTN</b></span>
            </div>
          </td>
        </tr>
        </table>"##;
    let data = parse_station_timetable(html, "No Specific Date").unwrap();
    assert_eq!(data.station, "NDLS");
    assert_eq!(data.station_name, "NEW DELHI");
    assert_eq!(data.date, "No Specific Date");
    assert_eq!(data.total, 326);
    let list = &data.list;
    assert_eq!(list.len(), 1);
    assert_eq!(list[0].train_no, "22403");
    assert_eq!(list[0].train_name, "PDY NDLS SF EXP");
    assert_eq!(list[0].route, "Pondicherry (PDY) - New Delhi (NDLS)");
    assert_eq!(list[0].train_type, "Superfast");
    assert_eq!(list[0].classes, "1A,2A,3A,SL,GEN,PWD");
    assert_eq!(list[0].arrival, "00:20");
    assert_eq!(list[0].departure, "DSTN");
    assert_eq!(list[0].days, "- Fri -");
}

#[test]
fn station_timetable_parses_daily_run_and_source_departure() {
    let html = r##"<table>
        <tr><th colspan="9" align="left"><font size="2" color="#006AD5" face="verdana"><b>2  Trains scheduled at GZB - GHAZIABAD</b></font></th></tr>
        <tr class=" w3-round">
          <td colspan=3>
            <span ><b>12055</b>&nbsp;&nbsp;DDN JANSHTBDI</span>
            <br><span >New Delhi (NDLS) - Ghaziabad (GZB)</span>
            <br><span >JAN SHATABDI | CC,EC</span>
            <div style="float: right;padding:5px;border:0px;margin-top:-30px;"><img alt="See Schedule" height="20" width="20" src="images/calendar_black.png" onclick="showTrainServiceSchedule('12055','15-Aug-2026',document.getElementsByName('frmTAS')[0]);" style="cursor:pointer;background: #eee;"/></div>
            <div style="display: flex; justify-content: space-between; align-items: center; width: 100%; border-top: 1px solid #eee; text-align: center; padding: 5px 2px;">
              <span style="text-align: left;width: 25%;">Arr.	: <b>SRC</b></span>
              <div style="text-align: center; width: 50%;">- Daily -</div>
              <span style="text-align: right; width: 25%;">Dep.: <b>15:55</b></span>
            </div>
          </td>
        </tr>
        </table>"##;
    let data = parse_station_timetable(html, "15-Aug-2026").unwrap();
    assert_eq!(data.date, "15-Aug-2026");
    assert_eq!(data.total, 2);
    let train = &data.list[0];
    assert_eq!(train.train_no, "12055");
    assert_eq!(train.arrival, "SRC");
    assert_eq!(train.departure, "15:55");
    assert_eq!(train.days, "- Daily -");
    assert_eq!(train.train_type, "JAN SHATABDI");
    assert_eq!(train.classes, "CC,EC");
}

#[test]
fn average_delay_parses_header_and_rows() {
    let html = r#"<table class="table table-bordered table-condensed table-striped" >
          <tbody>
            <tr><td class="w3-blue" align="left" style="border-bottom:1px solid #cccccc;border-right:none;"colspan="2"><span >12055 DDN JANSHTBDI</span></TD></tr>
            <tr>
              <td align="left" style="border-bottom:none;border-right:none;"><span class="bluehead">Days of Run: &nbsp;</span>Daily</TD>
              <td align="right" style="border-bottom:none;"><span class="bluehead">Type: &nbsp;</span><span>JAN SHATABDI</span></TD>
            </tr>
          </tbody>
        </table>
        <table class="table table-bordered table-condensed table-striped">
          <tbody>
            <tr valign="top" height="20">
              <td><font style="font-size:small large; font-weight: bold">Sr.</font></td>
              <td><font style="font-size:small large; font-weight: bold">Station</font></td>
              <td><font style="font-size:small large; font-weight: bold">Code</font></td>
              <td><font style="font-size:small large; font-weight: bold">Avg. Arr. Delay</font></td>
              <td><font style="font-size:small large; font-weight: bold">Avg. Dep. Delay</font></td>
            </tr>
            <tr><td><font style="font-size:small large;">1</font></td><td align="left"><font style="font-size:small large;">NEW DELHI</font></td><td><font style="font-size:small large;">NDLS</font></td><td></td><td><font style="font-size:small large;  color: green">On Time</font></td></tr>
            <tr><td><font style="font-size:small large;">2</font></td><td align="left"><font style="font-size:small large;">GHAZIABAD</font></td><td><font style="font-size:small large;">GZB</font></td><td><font style="font-size:small large;  color: red">00:14</font></td><td><font style="font-size:small large;  color: red">00:15</font></td></tr>
          </tbody>
        </table>"#;
    let data = parse_average_delay(html).unwrap();
    assert_eq!(data.train_no, "12055");
    assert_eq!(data.train_name, "DDN JANSHTBDI");
    assert_eq!(data.days_of_run, "Daily");
    assert_eq!(data.train_type, "JAN SHATABDI");
    let list = &data.list;
    assert_eq!(list.len(), 2);
    assert_eq!(list[0].sr, "1");
    assert_eq!(list[0].name, "NEW DELHI");
    assert_eq!(list[0].code, "NDLS");
    assert_eq!(list[0].arrival_delay, "", "empty arrival cell -> empty delay");
    assert_eq!(list[0].departure_delay, "On Time");
    assert_eq!(list[1].sr, "2");
    assert_eq!(list[1].name, "GHAZIABAD");
    assert_eq!(list[1].code, "GZB");
    assert_eq!(list[1].arrival_delay, "00:14");
    assert_eq!(list[1].departure_delay, "00:15");
}

#[test]
fn heritage_parses_summary_and_rows() {
    let html = r#"<table>
        <tr><td colspan="9" align="left" style="padding-left: 20px;"><font class="bluehead"><b>43 All Heritage Trains</b></font></td></tr>
        <tr class=" w3-round" style="margin-left: 5dp;margin-right: 5dp;">
          <td style="width: 30px;" align="center">1.</td>
          <td  colspan=3 style="border-radius: 25px 25px 25px 25px;margin-top: 10px;padding-bottom: 0px;border-bottom:5px solid #eee;"><span style="padding-left: 10px;"><b>52457</b>&nbsp;&nbsp;KLK SML EXP</span><br><span style="padding-left: 10px;">Daily | Passenger</span>
          <div style="float: right;padding:4px;border:0px;margin-top:-20px;margin-right:10px;"><img alt="See Schedule" height="20" width="20" src="images/calendar_black.png" style="background: #eee;cursor: pointer;" onclick="showTrainServiceSchedule('52457','15-Aug-2026',document.getElementsByName('frmTBSH')[0]);" /></div>
          <div style="width: 100%;height:1px;background-color:#E9ECEE;"></div>
          <table style="width: 100%;margin: 0px;padding-left:10px;padding-right:10px;">
            <tr style="padding: 0px;">
              <td width="35%" style="padding-left: 10px;"><b>03:30</b><br>KALKA<br><b>KLK</b></td>
              <td align="center" width="30%">--05:20 Hrs.--</td>
              <td align="right" width="35%" style="padding-right: 10px;"><b>08:50</b><br>SHIMLA<br><b>SML</b></td>
            </tr>
          </table>
          </td>
        </tr>
        </table>"#;
    let data = parse_heritage(html).unwrap();
    assert_eq!(data.selection, "All Heritage Trains");
    assert_eq!(data.total, 43);
    let list = &data.list;
    assert_eq!(list.len(), 1);
    assert_eq!(list[0].train_no, "52457");
    assert_eq!(list[0].train_name, "KLK SML EXP");
    assert_eq!(list[0].runs, "Daily");
    assert_eq!(list[0].train_type, "Passenger");
    assert_eq!(list[0].src_time, "03:30");
    assert_eq!(list[0].src_station, "KALKA");
    assert_eq!(list[0].src_code, "KLK");
    assert_eq!(list[0].duration, "05:20");
    assert_eq!(list[0].dst_time, "08:50");
    assert_eq!(list[0].dst_station, "SHIMLA");
    assert_eq!(list[0].dst_code, "SML");
}

#[test]
fn parcel_special_parses_rows() {
    let html = r#"<table>
        <tr><th style="text-align: center;" colspan="6">All Parcel Special Trains</th></tr>
        <tr class="active">
        <td  align="center" valign="middle" style="width: 60px;" nowrap><b>1</b></td>
        <td style="text-align: left;indent:8px; margin-top:5px;"><button type="button" class="custom-btn" style="height: 30px;padding-left: 10px;padding-right: 10px;padding-bottom: 5px;padding-top: 5px;" onClick="javascript:onTrainInputByFindP('00111','15-Aug-2026')"><b>00111</b></button> &nbsp;<b> BIRD-SGTY RAPID CARGO </b>&nbsp;&nbsp; <span class="w3-round w3-blue w3-tiny w3-round" style="padding:2px 5px;font-size:8pt;cursor: pointer;" onclick="javascript:onTrainInputByFindP('00111','15-Aug-2026')">See Train Status >></span>
        <div style="float: right;padding:4px;border:1px solid #E9ECEE;"><img alt="See Schedule" height="20" width="20" src="images/calendar_black.png" onclick="showTrainServiceScheduleSpot('00111','15-Aug-2026',845513,document.frmTBS);" style="cursor:pointer;background: #eee;" />
        </div>
        <br/>BHIVANDI ROAD - SANKRAIL GOODS TERMINAL
        <br/> Validity : <b>25-Jul-2026</b> To <b>31-Dec-2099</b>
        <div style="width: 100%;height:1px;background-color:#E9ECEE;"></div>
        Days of Run : <b>Sat</b>
        <br/>
        <b>BIRD - 22:30</b>
        |<b>SGTY - 15:15</b>
        |Travel Time:&nbsp;<b>40:45 Hrs.</b>
        <br/></td>
        </tr>
        </table>"#;
    let list = parse_parcel(html).unwrap();
    assert_eq!(list.len(), 1);
    assert_eq!(list[0].train_no, "00111");
    assert_eq!(list[0].train_name, "BIRD-SGTY RAPID CARGO");
    assert_eq!(list[0].route, "BHIVANDI ROAD - SANKRAIL GOODS TERMINAL");
    assert_eq!(list[0].validity_from, "25-Jul-2026");
    assert_eq!(list[0].validity_to, "31-Dec-2099");
    assert_eq!(list[0].days_of_run, "Sat");
    assert_eq!(list[0].src_code, "BIRD");
    assert_eq!(list[0].src_time, "22:30");
    assert_eq!(list[0].dst_code, "SGTY");
    assert_eq!(list[0].dst_time, "15:15");
    assert_eq!(list[0].travel_time, "40:45");
}

#[test]
fn new_parsers_reject_shell_pages() {
    let shell = "<table><tr><th>No data</th></tr></table>";
    assert!(parse_station_timetable(shell, "No Specific Date").is_none());
    assert!(parse_average_delay(shell).is_none());
    assert!(parse_heritage(shell).is_none());
    assert!(parse_parcel(shell).is_none());
}
