//! What every diagram plugin shares: the detector interface and the errors.
use vstd::prelude::*;

use crate::text::{append_all, chars_of, string_of};

verus! {

/// Recognises one kind of diagram in input text.
///
/// Confidence is given in thousandths: 1000 is certain, 0 is "not this kind".
pub trait Detector {
    /// Whether the input is this kind of diagram.
    spec fn spec_detect(&self, input: Seq<char>) -> bool;

    /// How confident the detector is, in thousandths.
    spec fn spec_confidence(&self, input: Seq<char>) -> u32;

    fn detect(&self, input: &str) -> (r: bool)
        ensures
            r == self.spec_detect(input@),
    ;

    fn confidence(&self, input: &str) -> (r: u32)
        ensures
            r == self.spec_confidence(input@),
    ;

    /// The diagram type this detector recognises.
    fn diagram_type(&self) -> &'static str;

    /// Keywords typical of this kind of diagram.
    fn patterns(&self) -> Vec<&'static str>;
}

/// What is wrong with a line that could not be parsed.
#[derive(Debug, Clone, Copy, PartialEq, Eq)]
pub enum LineFault {
    /// An `x-axis` line without `-->` or `->` between its two ends.
    XAxisFormat,
    /// A `y-axis` line without `-->` or `->` between its two ends.
    YAxisFormat,
}

/// The message of a line fault.
pub open spec fn fault_message(f: LineFault) -> Seq<char> {
    match f {
        LineFault::XAxisFormat => "Invalid x-axis format, expected 'x-axis <low> --> <high>'"@,
        LineFault::YAxisFormat => "Invalid y-axis format, expected 'y-axis <low> --> <high>'"@,
    }
}

impl LineFault {
    /// The message of the fault.
    pub fn message(&self) -> (s: String)
        ensures
            s@ == fault_message(*self),
    {
        match self {
            LineFault::XAxisFormat => "Invalid x-axis format, expected 'x-axis <low> --> <high>'".to_owned(),
            LineFault::YAxisFormat => "Invalid y-axis format, expected 'y-axis <low> --> <high>'".to_owned(),
        }
    }
}

/// Errors of the diagram pipeline.
#[derive(Debug, PartialEq, Eq)]
pub enum DiagramError {
    /// No registered detector is confident about the input.
    NoDetector,
    /// A detector named a diagram type that has no pipeline.
    UnsupportedDiagramType(String),
    /// The orchestrator lacks a parser or renderer; the field names it.
    MissingPlugin(String),
    /// A Gantt chart must start with `gantt`.
    NotGantt,
    /// A quadrant chart must start with `quadrantChart`.
    NotQuadrantChart,
    /// A line of the input could not be parsed; the fields hold the line
    /// and what is wrong with it.
    InvalidLine(String, LineFault),
    /// A size or a day number does not fit the integer type that holds it.
    Overflow,
}

/// The message of an error.
pub open spec fn error_message(e: DiagramError) -> Seq<char> {
    match e {
        DiagramError::NoDetector => "No suitable detector found for input"@,
        DiagramError::UnsupportedDiagramType(t) => "Unsupported diagram type: "@ + t@,
        DiagramError::MissingPlugin(what) => "No "@ + what@ + " available"@,
        DiagramError::NotGantt => "Input does not start with 'gantt'"@,
        DiagramError::NotQuadrantChart => "Input does not start with 'quadrantChart'"@,
        DiagramError::InvalidLine(line, _) => "Failed to parse line: "@ + line@,
        DiagramError::Overflow => "Number too large for the diagram"@,
    }
}

impl DiagramError {
    /// The message of the error.
    pub fn to_string(&self) -> (s: String)
        ensures
            s@ == error_message(*self),
    {
        match self {
            DiagramError::NoDetector => "No suitable detector found for input".to_owned(),
            DiagramError::UnsupportedDiagramType(t) => {
                let mut v = chars_of("Unsupported diagram type: ");
                append_all(&mut v, &chars_of(t.as_str()));
                string_of(&v)
            },
            DiagramError::MissingPlugin(what) => {
                let mut v = chars_of("No ");
                append_all(&mut v, &chars_of(what.as_str()));
                append_all(&mut v, &chars_of(" available"));
                string_of(&v)
            },
            DiagramError::NotGantt => "Input does not start with 'gantt'".to_owned(),
            DiagramError::NotQuadrantChart => "Input does not start with 'quadrantChart'".to_owned(),
            DiagramError::InvalidLine(line, _) => {
                let mut v = chars_of("Failed to parse line: ");
                append_all(&mut v, &chars_of(line.as_str()));
                string_of(&v)
            },
            DiagramError::Overflow => "Number too large for the diagram".to_owned(),
        }
    }

    /// What caused the error, for an error that has a cause: the fault of a
    /// line that could not be parsed.
    pub fn cause(&self) -> (r: Option<LineFault>)
        ensures
            r == match *self {
                DiagramError::InvalidLine(_, f) => Some(f),
                _ => None::<LineFault>,
            },
    {
        match self {
            DiagramError::InvalidLine(_, f) => Some(*f),
            _ => None,
        }
    }

    /// The message with its cause after it (`{:#}` of an error chain), such
    /// as `Failed to parse line: <line>: Invalid x-axis format, ...`.
    pub fn chain_message(&self) -> (s: String)
        ensures
            s@ == match *self {
                DiagramError::InvalidLine(_, f) => error_message(*self) + ": "@ + fault_message(f),
                _ => error_message(*self),
            },
    {
        match self {
            DiagramError::InvalidLine(_, f) => {
                let mut v = chars_of(self.to_string().as_str());
                append_all(&mut v, &chars_of(": "));
                append_all(&mut v, &chars_of(f.message().as_str()));
                string_of(&v)
            },
            _ => self.to_string(),
        }
    }
}

} // verus!
