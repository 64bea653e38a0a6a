//! Quadrant chart detector.
use vstd::prelude::*;

use crate::diagram::Detector;
use crate::text::{chars_of, contains, contains_exec, lower, starts_with, starts_with_exec, to_lower, trim, trim_chars};

verus! {

pub struct QuadrantChartDetector;

/// The trimmed, lower-cased input names a quadrant chart somewhere.
pub open spec fn quadrant_keyword(low: Seq<char>) -> bool {
    contains(low, "quadrantchart"@) || contains(low, "quadrant chart"@)
}

/// `detect`: the trimmed input is not empty and mentions `quadrantChart` or
/// `quadrant chart`, whatever the case.
pub open spec fn quadrant_detect(input: Seq<char>) -> bool {
    trim(input).len() > 0 && quadrant_keyword(lower(trim(input)))
}

/// `confidence`, in thousandths: 950 when the trimmed, lower-cased input
/// starts with a quadrant-chart keyword, 800 when it mentions one, 600 when it
/// has both axes and a quadrant label, 0 otherwise.
pub open spec fn quadrant_confidence(input: Seq<char>) -> u32 {
    let low = lower(trim(input));
    if trim(input).len() == 0 {
        0
    } else if starts_with(low, "quadrantchart"@) || starts_with(low, "quadrant chart"@) {
        950
    } else if quadrant_keyword(low) {
        800
    } else if contains(low, "x-axis"@) && contains(low, "y-axis"@) && contains(low, "quadrant-"@) {
        600
    } else {
        0
    }
}

impl QuadrantChartDetector {
    pub fn new() -> (d: QuadrantChartDetector) {
        QuadrantChartDetector
    }
}

impl Default for QuadrantChartDetector {
    fn default() -> (d: QuadrantChartDetector) {
        QuadrantChartDetector
    }
}

impl Detector for QuadrantChartDetector {
    open spec fn spec_detect(&self, input: Seq<char>) -> bool {
        quadrant_detect(input)
    }

    open spec fn spec_confidence(&self, input: Seq<char>) -> u32 {
        quadrant_confidence(input)
    }

    fn detect(&self, input: &str) -> (r: bool) {
        let t = trim_chars(&chars_of(input));
        if t.len() == 0 {
            return false;
        }
        let low = to_lower(&t);
        contains_exec(&low, &chars_of("quadrantchart")) || contains_exec(&low, &chars_of("quadrant chart"))
    }

    fn confidence(&self, input: &str) -> (r: u32) {
        let t = trim_chars(&chars_of(input));
        if t.len() == 0 {
            return 0;
        }
        let low = to_lower(&t);
        if starts_with_exec(&low, &chars_of("quadrantchart")) || starts_with_exec(&low, &chars_of("quadrant chart")) {
            return 950;
        }
        if contains_exec(&low, &chars_of("quadrantchart")) || contains_exec(&low, &chars_of("quadrant chart")) {
            return 800;
        }
        let has_axes = contains_exec(&low, &chars_of("x-axis")) && contains_exec(&low, &chars_of("y-axis"));
        let has_quadrants = contains_exec(&low, &chars_of("quadrant-"));
        if has_axes && has_quadrants {
            return 600;
        }
        0
    }

    fn diagram_type(&self) -> (r: &'static str)
        ensures
            r@ == "quadrantchart"@,
    {
        "quadrantchart"
    }

    fn patterns(&self) -> (r: Vec<&'static str>)
        ensures
            r@.len() == 8,
            r@[0]@ == "quadrantChart"@,
            r@[1]@ == "quadrant chart"@,
            r@[2]@ == "x-axis"@,
            r@[3]@ == "y-axis"@,
            r@[4]@ == "quadrant-1"@,
            r@[5]@ == "quadrant-2"@,
            r@[6]@ == "quadrant-3"@,
            r@[7]@ == "quadrant-4"@,
    {
        let mut v: Vec<&'static str> = Vec::new();
        v.push("quadrantChart");
        v.push("quadrant chart");
        v.push("x-axis");
        v.push("y-axis");
        v.push("quadrant-1");
        v.push("quadrant-2");
        v.push("quadrant-3");
        v.push("quadrant-4");
        v
    }
}

/// A prefix is an occurrence.
pub proof fn lemma_starts_with_contains(s: Seq<char>, p: Seq<char>)
    requires
        starts_with(s, p),
    ensures
        contains(s, p),
{
    assert(crate::text::occurs_at(s, p, 0));
}

/// An input is detected exactly when its confidence is at least 800; the
/// confidence of any input is 0, 600, 800 or 950.
pub proof fn lemma_quadrant_detect_confidence(input: Seq<char>)
    ensures
        quadrant_detect(input) <==> quadrant_confidence(input) >= 800,
        quadrant_confidence(input) == 0 || quadrant_confidence(input) == 600
            || quadrant_confidence(input) == 800 || quadrant_confidence(input) == 950,
{
    let low = lower(trim(input));
    if starts_with(low, "quadrantchart"@) {
        lemma_starts_with_contains(low, "quadrantchart"@);
    }
    if starts_with(low, "quadrant chart"@) {
        lemma_starts_with_contains(low, "quadrant chart"@);
    }
}

} // verus!
