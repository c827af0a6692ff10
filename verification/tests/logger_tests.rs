use json_main::logger::{logger_dt_format, Level, Logger};

#[test]
fn the_timestamp_is_written_as_the_description_asks() {
    assert_eq!(
        logger_dt_format(),
        "[year padding:zero]-[month padding:zero]-[day padding:zero] [hour padding:zero]:[minute padding:zero]:[second padding:zero].[subsecond digits:6]"
    );
    assert_eq!(
        Logger::formatted_dt(0),
        Some(String::from("1970-01-01 00:00:00.000000"))
    );
    assert_eq!(
        Logger::formatted_dt(1_546_300_800_123_456_789),
        Some(String::from("2019-01-01 00:00:00.123456"))
    );
    assert_eq!(
        Logger::formatted_dt(-1_000),
        Some(String::from("1969-12-31 23:59:59.999999"))
    );
    assert_eq!(Logger::formatted_dt(i128::MAX), None);
}

#[test]
fn a_line_has_stamp_label_and_content() {
    assert_eq!(Logger::line("now", Level::Info, "started"), "now INFO  'started'");
    assert_eq!(Logger::line("now", Level::Warn, ""), "now WARN  ''");
    assert_eq!(Logger::line("", Level::Debug, "x"), " DEBUG 'x'");
    assert_eq!(
        Logger::entry(0, Level::Error, "failed"),
        Some(String::from("1970-01-01 00:00:00.000000 ERROR 'failed'"))
    );
    assert_eq!(Logger::entry(i128::MIN, Level::Info, "never"), None);
}
