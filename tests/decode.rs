use weather_csv::record::{decode_row, DecodeError, RawCSVData, Reading, Time, WeatherData};
use weather_csv::text::{count_lines, is_decimal_text};

fn columns(parts: &[&str]) -> Vec<String> {
    parts.iter().map(|p| p.to_string()).collect()
}

fn good_row() -> Vec<String> {
    columns(&[
        "2013-01-01 00:00:00",
        "Clear",
        "rain",
        "10.5",
        "9.0",
        "0.8",
        "5.0",
        "180.0",
        "10.0",
        "0.0",
        "1015.25",
        "Mostly clear",
    ])
}

#[test]
fn time_reads_fixed_places() {
    let t = Time::time_from_string("2006-04-01 13:00:00.000 +0200".to_string()).unwrap();
    assert_eq!(t, Time { year: 2006, month: 4, date: 1, hour: 13 });
}

#[test]
fn time_keeps_no_calendar_rule() {
    let t = Time::time_from_string("0000-99-45 77".to_string()).unwrap();
    assert_eq!(t, Time { year: 0, month: 99, date: 45, hour: 77 });
}

#[test]
fn time_too_short_fails() {
    let r = Time::time_from_string("2013-01-01 0".to_string());
    assert_eq!(r, Err(DecodeError::TimestampParse("2013-01-01 0".to_string())));
}

#[test]
fn time_with_letters_fails() {
    let r = Time::time_from_string("2013-0a-01 00:00".to_string());
    assert_eq!(r, Err(DecodeError::TimestampParse("2013-0a-01 00:00".to_string())));
}

#[test]
fn time_with_sign_fails() {
    let r = Time::time_from_string("+013-01-01 00:00".to_string());
    assert!(matches!(r, Err(DecodeError::TimestampParse(_))));
}

#[test]
fn decimal_notation() {
    for good in ["10.5", "-3", "+0.25", "5.", ".5", "1e3", "2.5E-4", "inf", "-Infinity", "NaN"] {
        assert!(is_decimal_text(good), "{good}");
    }
    for bad in ["", "N/A", ".", "1.2.3", "1e", "e5", " 1", "1 ", "infinit", "--1", "1e+"] {
        assert!(!is_decimal_text(bad), "{bad}");
    }
}

#[test]
fn decimal_notation_agrees_with_float_parsing() {
    for text in ["10.5", "1015.25", "-0.0", "7e2", "abc", "1,5", "0x10", "nan"] {
        assert_eq!(is_decimal_text(text), text.parse::<f32>().is_ok(), "{text}");
    }
}

#[test]
fn lines_are_counted() {
    assert_eq!(count_lines(""), 0);
    assert_eq!(count_lines("a"), 1);
    assert_eq!(count_lines("a\n"), 1);
    assert_eq!(count_lines("a\nb"), 2);
    assert_eq!(count_lines("a\r\nb\r\n"), 2);
    assert_eq!(count_lines("\n\n"), 2);
}

#[test]
fn raw_row_starts_empty() {
    let raw = RawCSVData::new();
    assert_eq!(raw.formatted_date, "");
    assert_eq!(raw.daily_summary, "");
}

#[test]
fn raw_row_places_columns_in_order() {
    let mut raw = RawCSVData::new();
    assert_eq!(raw.from_row(&good_row()), Ok(()));
    assert_eq!(raw.formatted_date, "2013-01-01 00:00:00");
    assert_eq!(raw.precip_kind, "rain");
    assert_eq!(raw.cloud_cover, "0.0");
    assert_eq!(raw.daily_summary, "Mostly clear");
}

#[test]
fn raw_row_with_few_columns_keeps_the_rest() {
    let mut raw = RawCSVData::new();
    assert_eq!(raw.from_row(&columns(&["2013-01-01 00", "Fog"])), Ok(()));
    assert_eq!(raw.summary, "Fog");
    assert_eq!(raw.temperature, "");
}

#[test]
fn raw_row_refuses_thirteenth_column() {
    let mut raw = RawCSVData::new();
    let mut cols = good_row();
    cols.push("extra".to_string());
    let r = raw.from_row(&cols);
    assert_eq!(r, Err(DecodeError::UnexpectedColumn(12, "extra".to_string())));
    assert_eq!(raw.formatted_date, "");
}

#[test]
fn record_from_raw() {
    let mut raw = RawCSVData::new();
    raw.from_row(&good_row()).unwrap();
    let w = WeatherData::from_raw(raw).unwrap();
    assert_eq!(w.formatted_date, Time { year: 2013, month: 1, date: 1, hour: 0 });
    assert_eq!(w.summary, "Clear");
    assert_eq!(w.temperature.parse::<f32>().unwrap(), 10.5);
    assert_eq!(w.humidity.parse::<f32>().unwrap(), 0.8);
    assert_eq!(w.pressure.parse::<f32>().unwrap(), 1015.25);
}

#[test]
fn well_formed_row_round_trips() {
    let w = decode_row(&good_row()).unwrap();
    let readings = [
        &w.temperature,
        &w.apparent_temperature,
        &w.humidity,
        &w.wind_speed,
        &w.wind_bearing,
        &w.visibility,
        &w.cloud_cover,
        &w.pressure,
    ];
    let expected = [10.5f32, 9.0, 0.8, 5.0, 180.0, 10.0, 0.0, 1015.25];
    for (text, value) in readings.iter().zip(expected.iter()) {
        let parsed = text.parse::<f32>().unwrap();
        assert_eq!(parsed, *value);
        assert_eq!(format!("{parsed}").parse::<f32>().unwrap(), parsed);
    }
    let mut again = vec!["2013-01-01 00:00:00".to_string()];
    again.extend([
        w.summary.clone(),
        w.precip_kind.clone(),
        w.temperature.clone(),
        w.apparent_temperature.clone(),
        w.humidity.clone(),
        w.wind_speed.clone(),
        w.wind_bearing.clone(),
        w.visibility.clone(),
        w.cloud_cover.clone(),
        w.pressure.clone(),
        w.daily_summary.clone(),
    ]);
    assert_eq!(decode_row(&again), Ok(w));
}

#[test]
fn short_timestamp_row_fails() {
    let mut cols = good_row();
    cols[0] = "2013-01-01".to_string();
    assert_eq!(decode_row(&cols), Err(DecodeError::TimestampParse("2013-01-01".to_string())));
    assert_eq!(decode_row(&Vec::new()), Err(DecodeError::TimestampParse(String::new())));
}

#[test]
fn bad_reading_is_named() {
    let kinds = [
        Reading::Temperature,
        Reading::ApparentTemperature,
        Reading::Humidity,
        Reading::WindSpeed,
        Reading::WindBearing,
        Reading::Visibility,
        Reading::CloudCover,
        Reading::Pressure,
    ];
    for (i, kind) in kinds.iter().enumerate() {
        let mut cols = good_row();
        cols[3 + i] = "N/A".to_string();
        assert_eq!(decode_row(&cols), Err(DecodeError::FieldParse(*kind, "N/A".to_string())));
    }
}

#[test]
fn first_bad_reading_is_reported() {
    let mut cols = good_row();
    cols[5] = "wet".to_string();
    cols[9] = "?".to_string();
    assert_eq!(decode_row(&cols), Err(DecodeError::FieldParse(Reading::Humidity, "wet".to_string())));
}

#[test]
fn missing_reading_column_fails() {
    let cols = columns(&["2013-01-01 00:00:00", "Clear", "rain", "10.5"]);
    assert_eq!(
        decode_row(&cols),
        Err(DecodeError::FieldParse(Reading::ApparentTemperature, String::new()))
    );
}

#[test]
fn thirteen_or_more_columns_fail() {
    let mut cols = good_row();
    cols.push("x".to_string());
    cols.push("y".to_string());
    assert_eq!(decode_row(&cols), Err(DecodeError::UnexpectedColumn(12, "x".to_string())));
}

#[test]
fn reading_names() {
    assert_eq!(Reading::Temperature.name(), "temperature");
    assert_eq!(Reading::CloudCover.name(), "cloud_cover");
    assert_eq!(Reading::Pressure.name(), "pressure");
}
