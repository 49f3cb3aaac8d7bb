use crate::dates::{date_of, read_date, CalendarDate};
use crate::text::{lowercase_of, same_text, starts_with_char, to_lowercase};
use vstd::prelude::*;
use vstd::string::StringSliceAdditionalSpecFns;

verus! {

/// How the values of a marker are summed up over a period.
#[derive(Clone, Copy, Debug, PartialEq, Eq, Structural)]
pub enum MetricType {
    Average,
    Sum,
}

impl MetricType {
    /// The name a client uses for the metric.
    pub open spec fn label(self) -> Seq<char> {
        match self {
            MetricType::Average => "average"@,
            MetricType::Sum => "sum"@,
        }
    }

    /// The metric a lowercase name stands for.
    pub open spec fn named(lowered: Seq<char>) -> Option<MetricType> {
        if lowered == "average"@ {
            Some(MetricType::Average)
        } else if lowered == "sum"@ {
            Some(MetricType::Sum)
        } else {
            None
        }
    }

    /// The name a client uses for the metric.
    pub fn name(&self) -> (text: &'static str)
        ensures
            text@ == self.label(),
    {
        match self {
            MetricType::Average => "average",
            MetricType::Sum => "sum",
        }
    }

    /// The metric a lowercase name stands for.
    pub fn from_lowercase(lowered: &str) -> (metric: Option<MetricType>)
        ensures
            metric == Self::named(lowered@),
    {
        if same_text(lowered, "average") {
            Some(MetricType::Average)
        } else if same_text(lowered, "sum") {
            Some(MetricType::Sum)
        } else {
            None
        }
    }

    /// The metric a name stands for, whatever the case of its letters.
    pub fn from_str(s: &str) -> (r: Result<MetricType, String>)
        ensures
            match r {
                Ok(metric) => Self::named(lowercase_of(s@)) == Some(metric),
                Err(message) => Self::named(lowercase_of(s@)) is None && message@
                    == "Invalid metric type. Must be 'average' or 'sum'"@,
            },
    {
        let lowered = to_lowercase(s);
        match Self::from_lowercase(lowered.as_str()) {
            Some(metric) => Ok(metric),
            None => Err("Invalid metric type. Must be 'average' or 'sum'".to_owned()),
        }
    }
}

/// A marker's color is written as `#` and six more bytes.
pub open spec fn is_hex_color(color: &str) -> bool {
    &&& color@.len() > 0
    &&& color@[0] == '#'
    &&& color.spec_bytes().len() == 7
}

/// Whether a marker's color has the accepted form, such as `#FF0000`.
pub fn valid_color(color: &str) -> (valid: bool)
    ensures
        valid == is_hex_color(color),
{
    starts_with_char(color, '#') && color.as_bytes().len() == 7
}

/// The parameter of a marker query that is missing or cannot be read.
#[derive(Clone, Copy, Debug, PartialEq, Eq, Structural)]
pub enum QueryFault {
    From,
    To,
    Metric,
}

impl QueryFault {
    /// What the client is told.
    pub open spec fn text(self) -> Seq<char> {
        match self {
            QueryFault::From => "Invalid or missing 'from' date. Format: YYYY-MM-DD"@,
            QueryFault::To => "Invalid or missing 'to' date. Format: YYYY-MM-DD"@,
            QueryFault::Metric => "Invalid or missing 'metric' parameter. Must be 'average' or 'sum'"@,
        }
    }

    /// What the client is told.
    pub fn message(&self) -> (text: &'static str)
        ensures
            text@ == self.text(),
    {
        match self {
            QueryFault::From => "Invalid or missing 'from' date. Format: YYYY-MM-DD",
            QueryFault::To => "Invalid or missing 'to' date. Format: YYYY-MM-DD",
            QueryFault::Metric => "Invalid or missing 'metric' parameter. Must be 'average' or 'sum'",
        }
    }
}

/// The days a marker's timeline is asked for, both ends included.
#[derive(Clone, Copy, Debug, PartialEq, Eq, Structural)]
pub struct Period {
    pub from: CalendarDate,
    pub to: CalendarDate,
}

/// A request for one figure over a marker's values in a period.
#[derive(Clone, Copy, Debug, PartialEq, Eq, Structural)]
pub struct AnalyticsQuery {
    pub period: Period,
    pub metric: MetricType,
}

/// The period two read dates give: the `from` date is judged first, then
/// the `to` date.
pub open spec fn period_of(from: Option<CalendarDate>, to: Option<CalendarDate>) -> Result<
    Period,
    QueryFault,
> {
    match (from, to) {
        (None, _) => Err(QueryFault::From),
        (Some(_), None) => Err(QueryFault::To),
        (Some(from), Some(to)) => Ok(Period { from, to }),
    }
}

/// The analytics request three read parameters give: the period is judged
/// first, then the metric.
pub open spec fn analytics_of(
    from: Option<CalendarDate>,
    to: Option<CalendarDate>,
    metric: Option<MetricType>,
) -> Result<AnalyticsQuery, QueryFault> {
    match period_of(from, to) {
        Err(fault) => Err(fault),
        Ok(period) => match metric {
            None => Err(QueryFault::Metric),
            Some(metric) => Ok(AnalyticsQuery { period, metric }),
        },
    }
}

/// The period two read dates give.
pub fn period(from: Option<CalendarDate>, to: Option<CalendarDate>) -> (r: Result<Period, QueryFault>)
    ensures
        r == period_of(from, to),
{
    match from {
        None => Err(QueryFault::From),
        Some(from) => match to {
            None => Err(QueryFault::To),
            Some(to) => Ok(Period { from, to }),
        },
    }
}

/// The analytics request three read parameters give.
pub fn analytics_query(
    from: Option<CalendarDate>,
    to: Option<CalendarDate>,
    metric: Option<MetricType>,
) -> (r: Result<AnalyticsQuery, QueryFault>)
    ensures
        r == analytics_of(from, to, metric),
{
    match period(from, to) {
        Err(fault) => Err(fault),
        Ok(period) => match metric {
            None => Err(QueryFault::Metric),
            Some(metric) => Ok(AnalyticsQuery { period, metric }),
        },
    }
}

/// The date a parameter gives, if it is there and can be read.
pub open spec fn date_given(text: Option<&str>) -> Option<CalendarDate> {
    match text {
        Some(text) => date_of(text@),
        None => None,
    }
}

/// The metric a parameter gives, if it is there and names one.
pub open spec fn metric_given(text: Option<&str>) -> Option<MetricType> {
    match text {
        Some(text) => MetricType::named(lowercase_of(text@)),
        None => None,
    }
}

/// Reads the `from` and `to` parameters of a timeline request.
pub fn read_period(from: Option<&str>, to: Option<&str>) -> (r: Result<Period, QueryFault>)
    ensures
        r == period_of(date_given(from), date_given(to)),
{
    let from = match from {
        Some(text) => read_date(text),
        None => None,
    };
    let to = match to {
        Some(text) => read_date(text),
        None => None,
    };
    period(from, to)
}

/// Reads the `from`, `to` and `metric` parameters of an analytics request.
pub fn read_analytics_query(from: Option<&str>, to: Option<&str>, metric: Option<&str>) -> (r:
    Result<AnalyticsQuery, QueryFault>)
    ensures
        r == analytics_of(date_given(from), date_given(to), metric_given(metric)),
{
    let from = match from {
        Some(text) => read_date(text),
        None => None,
    };
    let to = match to {
        Some(text) => read_date(text),
        None => None,
    };
    let metric = match metric {
        Some(text) => match MetricType::from_str(text) {
            Ok(metric) => Some(metric),
            Err(_) => None,
        },
        None => None,
    };
    analytics_query(from, to, metric)
}

} // verus!
