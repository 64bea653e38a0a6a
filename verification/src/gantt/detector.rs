//! Gantt chart detector.
use vstd::prelude::*;

use crate::diagram::Detector;
use crate::text::{chars_of, contains, contains_exec, lower, starts_with, starts_with_exec, to_lower, trim, trim_chars};

verus! {

pub struct GanttDetector;

/// The input, trimmed and lower-cased, starts with `gantt`.
pub open spec fn gantt_header(input: Seq<char>) -> bool {
    starts_with(lower(trim(input)), "gantt"@)
}

/// `detect`: a non-empty trimmed input that starts with `gantt` (or
/// `ganttchart`), whatever the case.
pub open spec fn gantt_detect(input: Seq<char>) -> bool {
    trim(input).len() > 0 && (gantt_header(input) || starts_with(
        lower(trim(input)),
        "ganttchart"@,
    ))
}

/// `confidence`: 950 for a Gantt header with a section and a colon, 800 for
/// a bare Gantt header, 0 otherwise.
pub open spec fn gantt_confidence(input: Seq<char>) -> u32 {
    let low = lower(trim(input));
    if trim(input).len() == 0 {
        0
    } else if starts_with(low, "gantt"@) || starts_with(low, "ganttchart"@) {
        if contains(low, "section"@) && contains(low, ":"@) {
            950
        } else {
            800
        }
    } else {
        0
    }
}

impl GanttDetector {
    pub fn new() -> (d: GanttDetector) {
        GanttDetector
    }
}

impl Default for GanttDetector {
    fn default() -> (d: GanttDetector) {
        GanttDetector
    }
}

impl Detector for GanttDetector {
    open spec fn spec_detect(&self, input: Seq<char>) -> bool {
        gantt_detect(input)
    }

    open spec fn spec_confidence(&self, input: Seq<char>) -> u32 {
        gantt_confidence(input)
    }

    fn detect(&self, input: &str) -> (r: bool) {
        let t = trim_chars(&chars_of(input));
        if t.len() == 0 {
            return false;
        }
        let low = to_lower(&t);
        starts_with_exec(&low, &chars_of("gantt")) || starts_with_exec(&low, &chars_of("ganttchart"))
    }

    fn confidence(&self, input: &str) -> (r: u32) {
        let t = trim_chars(&chars_of(input));
        if t.len() == 0 {
            return 0;
        }
        let low = to_lower(&t);
        if starts_with_exec(&low, &chars_of("gantt")) || starts_with_exec(&low, &chars_of("ganttchart")) {
            if contains_exec(&low, &chars_of("section")) && contains_exec(&low, &chars_of(":")) {
                return 950;
            }
            return 800;
        }
        0
    }

    fn diagram_type(&self) -> (r: &'static str)
        ensures
            r@ == "gantt"@,
    {
        "gantt"
    }

    fn patterns(&self) -> (r: Vec<&'static str>)
        ensures
            r@.len() == 4,
            r@[0]@ == "gantt"@,
            r@[1]@ == "ganttChart"@,
            r@[2]@ == "section"@,
            r@[3]@ == "dateFormat"@,
    {
        let mut v: Vec<&'static str> = Vec::new();
        v.push("gantt");
        v.push("ganttChart");
        v.push("section");
        v.push("dateFormat");
        v
    }
}

/// A detected input has confidence of at least 800, and an undetected one 0.
pub proof fn lemma_gantt_detect_confidence(input: Seq<char>)
    ensures
        gantt_detect(input) ==> gantt_confidence(input) >= 800,
        !gantt_detect(input) ==> gantt_confidence(input) == 0,
{
}

} // verus!
