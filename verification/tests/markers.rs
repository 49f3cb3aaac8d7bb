use workout_tracker::dates::{read_date, CalendarDate};
use workout_tracker::markers::{
    analytics_query, period, read_analytics_query, read_period, valid_color, AnalyticsQuery, MetricType,
    Period, QueryFault,
};
use workout_tracker::text::{same_text, starts_with_char};

fn day(year: i32, month: u32, day: u32) -> CalendarDate {
    CalendarDate { year, month, day }
}

#[test]
fn metric_names_are_read_in_any_case() {
    assert_eq!(MetricType::from_str("average"), Ok(MetricType::Average));
    assert_eq!(MetricType::from_str("sum"), Ok(MetricType::Sum));
    assert_eq!(MetricType::from_str("AVERAGE"), Ok(MetricType::Average));
    assert_eq!(MetricType::from_str("Sum"), Ok(MetricType::Sum));
    assert_eq!(MetricType::from_str("sUm"), Ok(MetricType::Sum));
}

#[test]
fn other_metric_names_are_refused() {
    let message = "Invalid metric type. Must be 'average' or 'sum'".to_string();
    assert_eq!(MetricType::from_str("median"), Err(message.clone()));
    assert_eq!(MetricType::from_str(""), Err(message.clone()));
    assert_eq!(MetricType::from_str(" sum"), Err(message.clone()));
    assert_eq!(MetricType::from_str("sum "), Err(message.clone()));
    assert_eq!(MetricType::from_str("summ"), Err(message));
}

#[test]
fn lowercase_names_are_matched_exactly() {
    assert_eq!(MetricType::from_lowercase("average"), Some(MetricType::Average));
    assert_eq!(MetricType::from_lowercase("sum"), Some(MetricType::Sum));
    assert_eq!(MetricType::from_lowercase("SUM"), None);
    assert_eq!(MetricType::from_lowercase("Average"), None);
}

#[test]
fn metric_names_are_written_in_lowercase() {
    assert_eq!(MetricType::Average.name(), "average");
    assert_eq!(MetricType::Sum.name(), "sum");
    assert_eq!(MetricType::from_str(MetricType::Sum.name()), Ok(MetricType::Sum));
}

#[test]
fn colors_are_a_hash_and_six_more_bytes() {
    assert!(valid_color("#FF0000"));
    assert!(valid_color("#abcdef"));
    assert!(valid_color("#zzzzzz"));
    assert!(!valid_color("FF0000"));
    assert!(!valid_color("#FF000"));
    assert!(!valid_color("#FF00000"));
    assert!(!valid_color(""));
    assert!(!valid_color("#"));
    assert!(!valid_color("FF0000#"));
    // the length is counted in bytes: four characters of seven bytes in all
    assert!(valid_color("#ééé"));
    assert!(!valid_color("#éééééé"));
}

#[test]
fn texts_are_compared_character_by_character() {
    assert!(same_text("", ""));
    assert!(same_text("abc", "abc"));
    assert!(!same_text("abc", "abd"));
    assert!(!same_text("abc", "ab"));
    assert!(!same_text("é", "e"));
    assert!(starts_with_char("#1", '#'));
    assert!(!starts_with_char("1#", '#'));
    assert!(!starts_with_char("", '#'));
}

#[test]
fn dates_are_read_from_year_month_day() {
    assert_eq!(read_date("2024-02-29"), Some(day(2024, 2, 29)));
    assert_eq!(read_date("2023-12-31"), Some(day(2023, 12, 31)));
    assert_eq!(read_date("1999-01-01"), Some(day(1999, 1, 1)));
}

#[test]
fn days_that_do_not_exist_are_not_read() {
    assert_eq!(read_date("2023-02-29"), None);
    assert_eq!(read_date("2023-13-01"), None);
    assert_eq!(read_date("2023-00-10"), None);
    assert_eq!(read_date("2023-04-31"), None);
    assert_eq!(read_date("2023/04/30"), None);
    assert_eq!(read_date("30-04-2023x"), None);
    assert_eq!(read_date(""), None);
    assert_eq!(read_date("yesterday"), None);
    assert_eq!(read_date("2023-04-30T10:00:00"), None);
}

#[test]
fn a_period_needs_both_dates() {
    let a = day(2024, 1, 1);
    let b = day(2024, 1, 31);
    assert_eq!(period(Some(a), Some(b)), Ok(Period { from: a, to: b }));
    assert_eq!(period(None, Some(b)), Err(QueryFault::From));
    assert_eq!(period(Some(a), None), Err(QueryFault::To));
    assert_eq!(period(None, None), Err(QueryFault::From));
    // the dates are taken as given, in whatever order they lie
    assert_eq!(period(Some(b), Some(a)), Ok(Period { from: b, to: a }));
}

#[test]
fn an_analytics_query_needs_period_and_metric() {
    let a = day(2024, 1, 1);
    let b = day(2024, 1, 31);
    assert_eq!(
        analytics_query(Some(a), Some(b), Some(MetricType::Sum)),
        Ok(AnalyticsQuery { period: Period { from: a, to: b }, metric: MetricType::Sum })
    );
    assert_eq!(analytics_query(Some(a), Some(b), None), Err(QueryFault::Metric));
    assert_eq!(analytics_query(None, Some(b), None), Err(QueryFault::From));
    assert_eq!(analytics_query(Some(a), None, None), Err(QueryFault::To));
}

#[test]
fn query_parameters_are_read_in_order() {
    assert_eq!(
        read_analytics_query(Some("2024-01-01"), Some("2024-01-31"), Some("Average")),
        Ok(AnalyticsQuery {
            period: Period { from: day(2024, 1, 1), to: day(2024, 1, 31) },
            metric: MetricType::Average,
        })
    );
    assert_eq!(read_analytics_query(None, Some("2024-01-31"), Some("sum")), Err(QueryFault::From));
    assert_eq!(read_analytics_query(Some("2024-01-32"), Some("nope"), Some("nope")), Err(QueryFault::From));
    assert_eq!(read_analytics_query(Some("2024-01-01"), Some("nope"), Some("nope")), Err(QueryFault::To));
    assert_eq!(read_analytics_query(Some("2024-01-01"), None, Some("sum")), Err(QueryFault::To));
    assert_eq!(
        read_analytics_query(Some("2024-01-01"), Some("2024-01-31"), Some("mean")),
        Err(QueryFault::Metric)
    );
    assert_eq!(read_analytics_query(Some("2024-01-01"), Some("2024-01-31"), None), Err(QueryFault::Metric));
    assert_eq!(
        read_period(Some("2024-03-01"), Some("2024-03-02")),
        Ok(Period { from: day(2024, 3, 1), to: day(2024, 3, 2) })
    );
    assert_eq!(read_period(Some("2024-03-01"), None), Err(QueryFault::To));
    assert_eq!(read_period(None, None), Err(QueryFault::From));
}

#[test]
fn query_faults_name_the_parameter() {
    assert_eq!(QueryFault::From.message(), "Invalid or missing 'from' date. Format: YYYY-MM-DD");
    assert_eq!(QueryFault::To.message(), "Invalid or missing 'to' date. Format: YYYY-MM-DD");
    assert_eq!(
        QueryFault::Metric.message(),
        "Invalid or missing 'metric' parameter. Must be 'average' or 'sum'"
    );
}
