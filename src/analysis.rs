//! Data of the log-analysis endpoints: ranking of source IPs by traffic or
//! request count, and the sampling frequency of time series.

use vstd::prelude::*;

use crate::text::text_eq;

verus! {

/// The metric that a ranking or a diagnosis clause is about.
#[derive(Debug, Clone, Copy, PartialEq, Eq, Structural)]
pub enum FilterType {
    ReqCount,
    Traffic,
}

/// Sampling frequency of a time series.
#[derive(Debug, Clone, Copy, PartialEq, Eq, Structural)]
pub enum Freq {
    FiveMin,
    OneHour,
    OneDay,
}

impl Freq {
    /// The frequency that `value` names (`5min`, `1hour` or `1day`), if any.
    pub fn from_text(value: &str) -> (r: Option<Freq>)
        ensures
            r == freq_of(value@),
    {
        if text_eq(value, "1day") {
            Some(Freq::OneDay)
        } else if text_eq(value, "1hour") {
            Some(Freq::OneHour)
        } else if text_eq(value, "5min") {
            Some(Freq::FiveMin)
        } else {
            None
        }
    }

    /// The name of the frequency as the analysis endpoints spell it.
    pub fn as_str(&self) -> (r: &'static str)
        ensures
            freq_of(r@) == Some(*self),
    {
        proof {
            reveal_strlit("5min");
            reveal_strlit("1hour");
            reveal_strlit("1day");
            assert("5min"@[0] != "1day"@[0]);
            assert("5min"@.len() != "1hour"@.len());
            assert("1hour"@.len() != "1day"@.len());
        }
        match self {
            Freq::FiveMin => "5min",
            Freq::OneHour => "1hour",
            Freq::OneDay => "1day",
        }
    }
}

/// The frequency that a name denotes.
pub open spec fn freq_of(s: Seq<char>) -> Option<Freq> {
    if s == "1day"@ {
        Some(Freq::OneDay)
    } else if s == "1hour"@ {
        Some(Freq::OneHour)
    } else if s == "5min"@ {
        Some(Freq::FiveMin)
    } else {
        None
    }
}

/// Ranked source IPs with their request counts or traffic, index by index.
pub struct TopIpData {
    pub ips: Option<Vec<String>>,
    pub count: Option<Vec<i64>>,
    pub traffic: Option<Vec<i64>>,
}

/// Response of the top-IP endpoints.
pub struct TopIpResponse {
    pub code: i32,
    pub error: String,
    pub data: Option<TopIpData>,
}

/// Request body of the top-IP and top-URL endpoints.
pub struct TopParam {
    pub domains: Vec<String>,
    pub region: String,
    pub start_date: String,
    pub end_date: String,
}

} // verus!
