use vstd::prelude::*;

use crate::text::{lower_of, lowercase, text_eq};

verus! {

/// Classification attached to, or derived from, status reports.
#[derive(PartialEq, Eq, Structural, Clone, Copy, Debug, Hash)]
pub enum ReportStatus {
    /// Transponder or repeater heard.
    Blue,
    /// Telemetry or beacon only.
    Yellow,
    /// Conflicting reports (derived, never reported directly).
    Orange,
    /// No signal.
    Red,
    /// Crew voice active.
    Purple,
    /// Unknown status (derived: no data).
    Grey,
}

/// The four tags that an observer may attach to a report.
pub open spec fn is_raw_status(s: ReportStatus) -> bool {
    s == ReportStatus::Blue || s == ReportStatus::Yellow || s == ReportStatus::Red
        || s == ReportStatus::Purple
}

pub open spec fn status_text(s: ReportStatus) -> Seq<char> {
    match s {
        ReportStatus::Blue => "Transponder/Repeater active"@,
        ReportStatus::Yellow => "Telemetry/Beacon only"@,
        ReportStatus::Orange => "Conflicting reports"@,
        ReportStatus::Red => "No signal"@,
        ReportStatus::Purple => "ISS Crew (Voice) Active"@,
        ReportStatus::Grey => "Unknown status"@,
    }
}

pub open spec fn report_format_text(s: ReportStatus) -> Seq<char> {
    match s {
        ReportStatus::Blue => "Heard"@,
        ReportStatus::Yellow => "Telemetry Only"@,
        ReportStatus::Red => "Not Heard"@,
        ReportStatus::Purple => "Crew Active"@,
        _ => "Unknown status"@,
    }
}

pub open spec fn chinese_text(s: ReportStatus) -> Seq<char> {
    match s {
        ReportStatus::Blue => "转发器已开机"@,
        ReportStatus::Yellow => "只有遥测/信标"@,
        ReportStatus::Orange => "冲突报告"@,
        ReportStatus::Red => "无信号"@,
        ReportStatus::Purple => "乘组语音活动"@,
        ReportStatus::Grey => "未知状态"@,
    }
}

pub open spec fn color_hex(s: ReportStatus) -> Seq<char> {
    match s {
        ReportStatus::Blue => "#4297f3ff"@,
        ReportStatus::Yellow => "#f3cd36ff"@,
        ReportStatus::Orange => "#f97316"@,
        ReportStatus::Red => "#ed3f3fff"@,
        ReportStatus::Purple => "#946af5ff"@,
        ReportStatus::Grey => "#6b7280"@,
    }
}

/// The status that a lower-case report word stands for (the words of the
/// report format, and "conflicting reports"); anything else is unknown.
pub open spec fn status_of_word(w: Seq<char>) -> ReportStatus {
    if w == "heard"@ {
        ReportStatus::Blue
    } else if w == "telemetry only"@ {
        ReportStatus::Yellow
    } else if w == "conflicting reports"@ {
        ReportStatus::Orange
    } else if w == "not heard"@ {
        ReportStatus::Red
    } else if w == "crew active"@ {
        ReportStatus::Purple
    } else {
        ReportStatus::Grey
    }
}

/// The status that a lower-case colour keyword names; anything else is unknown.
pub open spec fn status_of_keyword(w: Seq<char>) -> ReportStatus {
    if w == "blue"@ || w == "b"@ || w == "蓝"@ {
        ReportStatus::Blue
    } else if w == "yellow"@ || w == "y"@ || w == "黄"@ {
        ReportStatus::Yellow
    } else if w == "orange"@ || w == "o"@ || w == "橙"@ {
        ReportStatus::Orange
    } else if w == "red"@ || w == "r"@ || w == "红"@ {
        ReportStatus::Red
    } else if w == "purple"@ || w == "p"@ || w == "紫"@ {
        ReportStatus::Purple
    } else {
        ReportStatus::Grey
    }
}

impl ReportStatus {
    pub fn to_string(&self) -> (r: String)
        ensures
            r@ == status_text(*self),
    {
        match self {
            ReportStatus::Blue => "Transponder/Repeater active".to_string(),
            ReportStatus::Yellow => "Telemetry/Beacon only".to_string(),
            ReportStatus::Orange => "Conflicting reports".to_string(),
            ReportStatus::Red => "No signal".to_string(),
            ReportStatus::Purple => "ISS Crew (Voice) Active".to_string(),
            ReportStatus::Grey => "Unknown status".to_string(),
        }
    }

    /// The word used for this status in submitted and fetched reports.
    pub fn to_string_report_format(&self) -> (r: String)
        ensures
            r@ == report_format_text(*self),
    {
        match self {
            ReportStatus::Blue => "Heard".to_string(),
            ReportStatus::Yellow => "Telemetry Only".to_string(),
            ReportStatus::Red => "Not Heard".to_string(),
            ReportStatus::Purple => "Crew Active".to_string(),
            _ => "Unknown status".to_string(),
        }
    }

    pub fn to_chinese_string(&self) -> (r: String)
        ensures
            r@ == chinese_text(*self),
    {
        match self {
            ReportStatus::Blue => "转发器已开机".to_string(),
            ReportStatus::Yellow => "只有遥测/信标".to_string(),
            ReportStatus::Orange => "冲突报告".to_string(),
            ReportStatus::Red => "无信号".to_string(),
            ReportStatus::Purple => "乘组语音活动".to_string(),
            ReportStatus::Grey => "未知状态".to_string(),
        }
    }

    /// Reads a status from a word that is already lower case.
    pub fn from_lowercase(w: &str) -> (r: ReportStatus)
        ensures
            r == status_of_word(w@),
    {
        if text_eq(w, "heard") {
            ReportStatus::Blue
        } else if text_eq(w, "telemetry only") {
            ReportStatus::Yellow
        } else if text_eq(w, "conflicting reports") {
            ReportStatus::Orange
        } else if text_eq(w, "not heard") {
            ReportStatus::Red
        } else if text_eq(w, "crew active") {
            ReportStatus::Purple
        } else {
            ReportStatus::Grey
        }
    }

    /// Reads a status from a report word, ignoring case.
    pub fn from_string(s: &str) -> (r: ReportStatus)
        ensures
            r == status_of_word(lower_of(s@)),
    {
        let w = lowercase(s);
        ReportStatus::from_lowercase(w.as_str())
    }

    pub fn to_color_hex(&self) -> (r: &'static str)
        ensures
            r@ == color_hex(*self),
    {
        match self {
            ReportStatus::Blue => "#4297f3ff",
            ReportStatus::Yellow => "#f3cd36ff",
            ReportStatus::Orange => "#f97316",
            ReportStatus::Red => "#ed3f3fff",
            ReportStatus::Purple => "#946af5ff",
            ReportStatus::Grey => "#6b7280",
        }
    }

    /// The colour of the status that a report word names, ignoring case.
    pub fn string_to_color_hex(status: &str) -> (r: &'static str)
        ensures
            r@ == color_hex(status_of_word(lower_of(status@))),
    {
        let s = ReportStatus::from_string(status);
        s.to_color_hex()
    }

    /// Reads a status from a colour keyword that is already lower case.
    pub fn from_keyword(w: &str) -> (r: ReportStatus)
        ensures
            r == status_of_keyword(w@),
    {
        if text_eq(w, "blue") || text_eq(w, "b") || text_eq(w, "蓝") {
            ReportStatus::Blue
        } else if text_eq(w, "yellow") || text_eq(w, "y") || text_eq(w, "黄") {
            ReportStatus::Yellow
        } else if text_eq(w, "orange") || text_eq(w, "o") || text_eq(w, "橙") {
            ReportStatus::Orange
        } else if text_eq(w, "red") || text_eq(w, "r") || text_eq(w, "红") {
            ReportStatus::Red
        } else if text_eq(w, "purple") || text_eq(w, "p") || text_eq(w, "紫") {
            ReportStatus::Purple
        } else {
            ReportStatus::Grey
        }
    }

    /// Reads a status from a colour keyword ("blue", "b", ...), ignoring case;
    /// an unknown keyword gives `Grey`.
    pub fn status_mapper(status: &str) -> (r: ReportStatus)
        ensures
            r == status_of_keyword(lower_of(status@)),
    {
        let w = lowercase(status);
        ReportStatus::from_keyword(w.as_str())
    }
}

} // verus!
