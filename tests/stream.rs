use weather_csv::record::{DecodeError, Reading, Time};
use weather_csv::stream::{process, process_rows, Failure, Progress};

const ROW: &str = "2013-01-01 00:00:00,Clear,rain,10.5,9.0,0.8,5.0,180.0,10.0,0.0,1015.25,Mostly clear";

#[test]
fn one_record_run() {
    let input = format!("header\n{ROW}");
    let report = process(&input);
    let records = report.outcome.unwrap();
    assert_eq!(records.len(), 1);
    let w = &records[0];
    assert_eq!(w.formatted_date, Time { year: 2013, month: 1, date: 1, hour: 0 });
    assert_eq!(w.summary, "Clear");
    assert_eq!(w.temperature.parse::<f32>().unwrap(), 10.5);
    assert_eq!(w.humidity.parse::<f32>().unwrap(), 0.8);
    assert_eq!(w.pressure.parse::<f32>().unwrap(), 1015.25);
    assert_eq!(w.daily_summary, "Mostly clear");
    assert_eq!(
        report.progress,
        vec![Progress { done: 1, total: 2 }, Progress { done: 2, total: 2 }]
    );
}

#[test]
fn extra_column_stops_run() {
    let input = format!("header\n{ROW},extra\n{ROW}\n");
    let report = process(&input);
    assert_eq!(
        report.outcome,
        Err(Failure { row: 1, error: DecodeError::UnexpectedColumn(12, "extra".to_string()) })
    );
    assert_eq!(report.progress.len(), 2);
}

#[test]
fn unreadable_temperature_stops_run() {
    let row = ROW.replace(",10.5,", ",N/A,");
    let report = process(&format!("header\n{row}\n"));
    match report.outcome {
        Err(Failure { row: 1, error: DecodeError::FieldParse(kind, text) }) => {
            assert_eq!(kind.name(), "temperature");
            assert_eq!(text, "N/A");
        }
        other => panic!("unexpected outcome {other:?}"),
    }
}

#[test]
fn rows_keep_their_order() {
    let rows: Vec<String> = (0..5)
        .map(|h| ROW.replace("2013-01-01 00", &format!("2013-01-01 0{h}")))
        .collect();
    let input = format!("header\n{}\n", rows.join("\n"));
    let records = process(&input).outcome.unwrap();
    let hours: Vec<u32> = records.iter().map(|w| w.formatted_date.hour).collect();
    assert_eq!(hours, vec![0, 1, 2, 3, 4]);
}

#[test]
fn progress_counts_lines() {
    let input = format!("header\n{ROW}\n{ROW}\n{ROW}\n");
    let report = process(&input);
    assert!(report.outcome.is_ok());
    let tenths: Vec<u128> = report.progress.iter().map(|p| p.tenths_of_percent()).collect();
    assert_eq!(tenths, vec![250, 500, 750, 1000]);
}

#[test]
fn tenths_round_to_nearest() {
    assert_eq!(Progress { done: 1, total: 3 }.tenths_of_percent(), 333);
    assert_eq!(Progress { done: 2, total: 3 }.tenths_of_percent(), 667);
    assert_eq!(Progress { done: 1, total: 2000 }.tenths_of_percent(), 1);
    assert_eq!(Progress { done: 0, total: 7 }.tenths_of_percent(), 0);
    assert_eq!(Progress { done: usize::MAX, total: usize::MAX }.tenths_of_percent(), 1000);
}

#[test]
fn empty_input_gives_nothing() {
    let report = process("");
    assert_eq!(report.outcome, Ok(Vec::new()));
    assert!(report.progress.is_empty());
}

#[test]
fn header_alone_gives_no_records() {
    let report = process("a,b,c\n");
    assert_eq!(report.outcome, Ok(Vec::new()));
    assert_eq!(report.progress, vec![Progress { done: 1, total: 1 }]);
}

#[test]
fn wide_header_stops_run() {
    let report = process("0,1,2,3,4,5,6,7,8,9,10,11,12\n");
    assert_eq!(
        report.outcome,
        Err(Failure { row: 0, error: DecodeError::UnexpectedColumn(12, "12".to_string()) })
    );
    assert_eq!(report.progress.len(), 1);
}

#[test]
fn malformed_row_stops_run() {
    let input = format!("header\n{ROW}\na\"b,c\n{ROW}\n");
    let report = process(&input);
    assert_eq!(report.outcome, Err(Failure { row: 2, error: DecodeError::MalformedRow }));
    assert_eq!(report.progress.len(), 3);
}

#[test]
fn quoted_column_loses_its_quotes() {
    let row = ROW.replace("Mostly clear", "\"Clear, then cloudy\"");
    let records = process(&format!("header\n{row}\n")).outcome.unwrap();
    assert_eq!(records[0].daily_summary, "Clear, then cloudy");
}

#[test]
fn table_rows_are_decoded_in_order() {
    let header = Some(vec!["h".to_string()]);
    let data: Vec<String> = ROW.split(',').map(|c| c.to_string()).collect();
    let mut second = data.clone();
    second[0] = "2014-02-03 04:00".to_string();
    let report = process_rows(&vec![header, Some(data), Some(second)], 3);
    let records = report.outcome.unwrap();
    assert_eq!(records[1].formatted_date, Time { year: 2014, month: 2, date: 3, hour: 4 });
    assert_eq!(report.progress[2], Progress { done: 3, total: 3 });
}

#[test]
fn missing_table_row_is_malformed() {
    let report = process_rows(&vec![Some(vec!["h".to_string()]), None], 2);
    assert_eq!(report.outcome, Err(Failure { row: 1, error: DecodeError::MalformedRow }));
    assert_eq!(report.progress, vec![Progress { done: 1, total: 2 }, Progress { done: 2, total: 2 }]);
}

#[test]
fn bad_humidity_named() {
    let row = ROW.replace(",0.8,", ",high,");
    let report = process(&format!("header\n{row}\n"));
    assert_eq!(
        report.outcome,
        Err(Failure { row: 1, error: DecodeError::FieldParse(Reading::Humidity, "high".to_string()) })
    );
}

#[test]
fn lone_quote_is_read_without_panic() {
    let report = process("\"");
    assert_eq!(report.outcome, Ok(Vec::new()));
    assert_eq!(report.progress, vec![Progress { done: 1, total: 1 }]);
    let report = process("a,\"");
    assert_eq!(report.outcome, Ok(Vec::new()));
}

#[test]
fn unclosed_quote_on_wide_character_is_read_without_panic() {
    let report = process("\"é");
    assert_eq!(report.outcome, Ok(Vec::new()));
    let report = process(&format!("header\n{ROW}\n\"é"));
    assert_eq!(
        report.outcome,
        Err(Failure { row: 2, error: DecodeError::TimestampParse("é".to_string()) })
    );
    assert_eq!(report.progress.len(), 3);
}

#[test]
fn stray_return_after_quote_stops_run() {
    let report = process("header\n\"ab\"\ré,x\nmore\n");
    assert_eq!(report.outcome, Err(Failure { row: 1, error: DecodeError::MalformedRow }));
    assert!(report.progress.is_empty());
}

#[test]
fn quoted_column_before_crlf_is_read() {
    let row = ROW.replace("Mostly clear", "\"Mostly clear\"");
    let report = process(&format!("header\r\n{row}\r\n"));
    let records = report.outcome.unwrap();
    assert_eq!(records[0].daily_summary, "Mostly clear");
    assert_eq!(report.progress.len(), 2);
}

#[test]
fn final_line_feed_is_optional() {
    let with = process(&format!("header\n{ROW}\n"));
    let without = process(&format!("header\n{ROW}"));
    assert_eq!(with, without);
}
