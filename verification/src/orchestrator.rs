//! Runs input through the diagram plugins: detection, then the pipeline of
//! the detected type.
use vstd::prelude::*;

use crate::diagram::{Detector, DiagramError};
use crate::gantt::detector::GanttDetector;
use crate::quadrantchart::detector::QuadrantChartDetector;
use crate::quadrantchart::database::QuadrantChartDatabase;
use crate::quadrantchart::parser::QuadrantChartParser;
use crate::quadrantchart::renderer::QuadrantChartRenderer;
use crate::quadrantchart::database::empty_chart;
use crate::quadrantchart::parser::{line_fault, quadrant_header, read_chart, QuadrantRead};
use crate::text::{chars_of, eq_chars, string_of};

verus! {

/// The detectors this library has.
pub enum DiagramDetector {
    Gantt(GanttDetector),
    QuadrantChart(QuadrantChartDetector),
}

impl Detector for DiagramDetector {
    open spec fn spec_detect(&self, input: Seq<char>) -> bool {
        match self {
            DiagramDetector::Gantt(d) => d.spec_detect(input),
            DiagramDetector::QuadrantChart(d) => d.spec_detect(input),
        }
    }

    open spec fn spec_confidence(&self, input: Seq<char>) -> u32 {
        match self {
            DiagramDetector::Gantt(d) => d.spec_confidence(input),
            DiagramDetector::QuadrantChart(d) => d.spec_confidence(input),
        }
    }

    fn detect(&self, input: &str) -> (r: bool) {
        match self {
            DiagramDetector::Gantt(d) => d.detect(input),
            DiagramDetector::QuadrantChart(d) => d.detect(input),
        }
    }

    fn confidence(&self, input: &str) -> (r: u32) {
        match self {
            DiagramDetector::Gantt(d) => d.confidence(input),
            DiagramDetector::QuadrantChart(d) => d.confidence(input),
        }
    }

    fn diagram_type(&self) -> (r: &'static str)
        ensures
            r@ == match self {
                DiagramDetector::Gantt(_) => "gantt"@,
                DiagramDetector::QuadrantChart(_) => "quadrantchart"@,
            },
    {
        match self {
            DiagramDetector::Gantt(d) => d.diagram_type(),
            DiagramDetector::QuadrantChart(d) => d.diagram_type(),
        }
    }

    fn patterns(&self) -> (r: Vec<&'static str>)
        ensures
            match self {
                DiagramDetector::Gantt(_) => r@.len() == 4 && r@[0]@ == "gantt"@ && r@[1]@ == "ganttChart"@
                    && r@[2]@ == "section"@ && r@[3]@ == "dateFormat"@,
                DiagramDetector::QuadrantChart(_) => r@.len() == 8 && r@[0]@ == "quadrantChart"@ && r@[1]@
                    == "quadrant chart"@ && r@[2]@ == "x-axis"@ && r@[3]@ == "y-axis"@ && r@[4]@
                    == "quadrant-1"@ && r@[5]@ == "quadrant-2"@ && r@[6]@ == "quadrant-3"@ && r@[7]@
                    == "quadrant-4"@,
            },
    {
        match self {
            DiagramDetector::Gantt(d) => d.patterns(),
            DiagramDetector::QuadrantChart(d) => d.patterns(),
        }
    }
}

/// Detectors by name, and the plugins of the pipelines.
pub struct Orchestrator {
    detectors: Vec<(String, DiagramDetector)>,
    quadrantchart_parser: Option<QuadrantChartParser>,
    quadrantchart_renderer: Option<QuadrantChartRenderer>,
}

/// The index of the first of the highest confidences above 500, if any.
pub open spec fn best_index(cs: Seq<u32>) -> Option<int>
    decreases cs.len(),
{
    if cs.len() == 0 {
        None
    } else {
        match best_index(cs.drop_last()) {
            None => if cs.last() > 500 {
                Some(cs.len() - 1)
            } else {
                None
            },
            Some(b) => if cs.last() > cs[b] {
                Some(cs.len() - 1)
            } else {
                Some(b)
            },
        }
    }
}

/// What the quadrant chart pipeline gives for `input` once its parser is
/// there: the parser's error, or the chart when the renderer is there too.
pub open spec fn quadrant_outcome(
    has_renderer: bool,
    input: Seq<char>,
    r: Result<QuadrantChartDatabase, DiagramError>,
) -> bool {
    if !quadrant_header(input) {
        r == Err::<QuadrantChartDatabase, DiagramError>(DiagramError::NotQuadrantChart)
    } else {
        match read_chart(input, empty_chart()) {
            QuadrantRead::Failed(_, line) => r matches Err(DiagramError::InvalidLine(l, f)) && l@ == line && f
                == line_fault(line),
            QuadrantRead::Done(st) => if has_renderer {
                r matches Ok(db) && db@ == st
            } else {
                r matches Err(DiagramError::MissingPlugin(w)) && w@ == "quadrant chart renderer"@
            },
        }
    }
}

/// The parser a pipeline of type `t` lacks: this library has no flowchart,
/// git graph, sequence, class or state diagram parser.
pub open spec fn missing_parser(t: Seq<char>) -> Option<Seq<char>> {
    if t == "flowchart"@ {
        Some("flowchart parser"@)
    } else if t == "gitgraph"@ {
        Some("git graph parser"@)
    } else if t == "sequence"@ {
        Some("sequence parser"@)
    } else if t == "class"@ {
        Some("class parser"@)
    } else if t == "state"@ {
        Some("state parser"@)
    } else {
        None
    }
}

/// The detector chosen has a confidence above 500, no detector has a
/// higher one, and every detector before it has a lower one; when none is
/// chosen, no confidence is above 500.
pub proof fn lemma_best_index(cs: Seq<u32>)
    ensures
        match best_index(cs) {
            Some(b) => {
                &&& 0 <= b < cs.len()
                &&& cs[b] > 500
                &&& forall|j: int| 0 <= j < cs.len() ==> cs[j] <= cs[b]
                &&& forall|j: int| 0 <= j < b ==> cs[j] < cs[b]
            },
            None => forall|j: int| 0 <= j < cs.len() ==> cs[j] <= 500,
        },
    decreases cs.len(),
{
    if cs.len() > 0 {
        lemma_best_index(cs.drop_last());
        assert forall|j: int| 0 <= j < cs.len() - 1 implies cs[j] == cs.drop_last()[j] by {}
    }
}

pub open spec fn names_distinct(names: Seq<Seq<char>>) -> bool {
    forall|i: int, j: int| 0 <= i < j < names.len() ==> names[i] != names[j]
}

impl Orchestrator {
    /// The names of the detectors, in the order they were first registered.
    pub closed spec fn detector_names(&self) -> Seq<Seq<char>> {
        self.detectors@.map_values(|d: (String, DiagramDetector)| d.0@)
    }

    /// What each detector says of `input`, in the same order.
    pub closed spec fn confidences(&self, input: Seq<char>) -> Seq<u32> {
        self.detectors@.map_values(|d: (String, DiagramDetector)| d.1.spec_confidence(input))
    }

    /// The detector names are distinct.
    pub open spec fn wf(&self) -> bool {
        names_distinct(self.detector_names())
    }

    /// There is a confidence for each detector name.
    pub proof fn lemma_confidences_len(&self, input: Seq<char>)
        ensures
            self.confidences(input).len() == self.detector_names().len(),
    {
    }

    /// An orchestrator without detectors or plugins.
    pub fn new() -> (o: Orchestrator)
        ensures
            o.wf(),
            o.detector_names().len() == 0,
            forall|input: Seq<char>| #[trigger] o.confidences(input).len() == 0,
            !o.has_quadrant_parser(),
            !o.has_quadrant_renderer(),
    {
        Orchestrator {
            detectors: Vec::new(),
            quadrantchart_parser: None,
            quadrantchart_renderer: None,
        }
    }

    /// Registers `detector` under `name`, in place of any detector of that
    /// name.
    pub fn register_detector(&mut self, name: String, detector: DiagramDetector)
        requires
            old(self).wf(),
        ensures
            final(self).wf(),
            final(self).has_quadrant_parser() == old(self).has_quadrant_parser(),
            final(self).has_quadrant_renderer() == old(self).has_quadrant_renderer(),
            final(self).quadrant_width_hint() == old(self).quadrant_width_hint(),
            ({
                let names = old(self).detector_names();
                if names.contains(name@) {
                    &&& final(self).detector_names() == names
                    &&& forall|input: Seq<char>|
                        #![trigger final(self).confidences(input)]
                        final(self).confidences(input) == old(self).confidences(input).update(
                            names.index_of(name@),
                            detector.spec_confidence(input),
                        )
                } else {
                    &&& final(self).detector_names() == names.push(name@)
                    &&& forall|input: Seq<char>|
                        #![trigger final(self).confidences(input)]
                        final(self).confidences(input) == old(self).confidences(input).push(
                            detector.spec_confidence(input),
                        )
                }
            }),
    {
        let key = chars_of(name.as_str());
        let mut i: usize = 0;
        while i < self.detectors.len()
            invariant
                i <= self.detectors.len(),
                key@ == name@,
                self.wf(),
                *self == *old(self),
                forall|j: int| 0 <= j < i ==> self.detector_names()[j] != name@,
            decreases self.detectors.len() - i,
        {
            if eq_chars(&chars_of(self.detectors[i].0.as_str()), &key) {
                let ghost names = self.detector_names();
                let ghost old_self = *self;
                self.detectors.set(i, (name, detector));
                proof {
                    let j = names.index_of(key@);
                    assert(names[i as int] == key@);
                    assert(0 <= j < names.len() && names[j] == key@);
                    assert(self.detector_names() =~= names);
                    assert forall|input: Seq<char>| #[trigger] self.confidences(input) == old_self.confidences(input).update(
                        i as int,
                        detector.spec_confidence(input),
                    ) by {
                        assert(self.confidences(input) =~= old_self.confidences(input).update(
                            i as int,
                            detector.spec_confidence(input),
                        ));
                    }
                }
                return;
            }
            i = i + 1;
        }
        let ghost names = self.detector_names();
        let ghost old_self = *self;
        self.detectors.push((name, detector));
        proof {
            assert(self.detector_names() =~= names.push(name@));
            assert forall|input: Seq<char>| #[trigger] self.confidences(input) == old_self.confidences(input).push(
                detector.spec_confidence(input),
            ) by {
                assert(self.confidences(input) =~= old_self.confidences(input).push(
                    detector.spec_confidence(input),
                ));
            }
        }
    }

    /// Whether the quadrant chart parser and renderer are there.
    pub closed spec fn has_quadrant_parser(&self) -> bool {
        self.quadrantchart_parser is Some
    }

    pub closed spec fn has_quadrant_renderer(&self) -> bool {
        self.quadrantchart_renderer is Some
    }

    /// The width hint of the quadrant chart renderer, when there is one.
    pub closed spec fn quadrant_width_hint(&self) -> usize {
        match self.quadrantchart_renderer {
            Some(q) => q.spec_width_hint(),
            None => 0,
        }
    }

    /// An orchestrator with every pipeline plugin of this library: the
    /// quadrant chart parser and renderer; no detectors.
    pub fn with_all_plugins() -> (o: Orchestrator)
        ensures
            o.wf(),
            o.detector_names().len() == 0,
            forall|input: Seq<char>| #[trigger] o.confidences(input).len() == 0,
            o.has_quadrant_parser(),
            o.has_quadrant_renderer(),
            o.quadrant_width_hint() == 0,
    {
        Orchestrator {
            detectors: Vec::new(),
            quadrantchart_parser: Some(QuadrantChartParser::new()),
            quadrantchart_renderer: Some(QuadrantChartRenderer::new()),
        }
    }

    /// Registers the detectors this library has under their diagram types:
    /// the quadrant chart detector as `quadrantchart`.
    pub fn register_default_detectors(&mut self) -> (r: &mut Self)
        requires
            old(self).wf(),
        ensures
            r.wf(),
            r.detector_names() == if old(self).detector_names().contains("quadrantchart"@) {
                old(self).detector_names()
            } else {
                old(self).detector_names().push("quadrantchart"@)
            },
            r.has_quadrant_parser() == old(self).has_quadrant_parser(),
            r.has_quadrant_renderer() == old(self).has_quadrant_renderer(),
            r.quadrant_width_hint() == old(self).quadrant_width_hint(),
            *final(self) == *final(r),
    {
        let name = string_of(&chars_of("quadrantchart"));
        self.register_detector(name, DiagramDetector::QuadrantChart(QuadrantChartDetector::new()));
        self
    }

    /// The names of the detectors.
    pub fn get_detectors(&self) -> (r: Vec<String>)
        ensures
            r@.map_values(|s: String| s@) == self.detector_names(),
    {
        let mut r: Vec<String> = Vec::new();
        let mut i: usize = 0;
        while i < self.detectors.len()
            invariant
                i <= self.detectors.len(),
                r@.map_values(|s: String| s@) == self.detector_names().take(i as int),
            decreases self.detectors.len() - i,
        {
            let ghost r0 = r@;
            r.push(string_of(&chars_of(self.detectors[i].0.as_str())));
            assert(r@.map_values(|s: String| s@) =~= r0.map_values(|s: String| s@).push(self.detector_names()[i as int]));
            assert(self.detector_names().take(i + 1) =~= self.detector_names().take(i as int).push(self.detector_names()[i as int]));
            i = i + 1;
        }
        assert(self.detector_names().take(self.detectors.len() as int) =~= self.detector_names());
        r
    }

    /// Whether the flowchart parser, layout and renderer are all there;
    /// this library has no flowchart plugins, so never.
    pub fn has_flowchart_plugins(&self) -> (r: bool)
        ensures
            !r,
    {
        false
    }

    /// The name of the detector most confident about `input`: the first of
    /// the highest confidences above 500 thousandths.
    pub fn detect_diagram_type(&self, input: &str) -> (r: Result<String, DiagramError>)
        ensures
            match best_index(self.confidences(input@)) {
                Some(i) => r matches Ok(name) && name@ == self.detector_names()[i],
                None => r == Err::<String, DiagramError>(DiagramError::NoDetector),
            },
            r matches Ok(name) ==> self.detector_names().contains(name@),
    {
        let ghost cs = self.confidences(input@);
        let mut best: Option<(usize, u32)> = None;
        let mut i: usize = 0;
        while i < self.detectors.len()
            invariant
                i <= self.detectors.len(),
                cs == self.confidences(input@),
                match best_index(cs.take(i as int)) {
                    Some(b) => best matches Some((bi, bc)) && bi == b && bc == cs[b] && b < i,
                    None => best is None,
                },
            decreases self.detectors.len() - i,
        {
            let c = self.detectors[i].1.confidence(input);
            assert(cs.take(i + 1).drop_last() =~= cs.take(i as int));
            assert(c == cs[i as int]);
            if c > 500 {
                match best {
                    Some((_, bc)) => {
                        if c > bc {
                            best = Some((i, c));
                        }
                    },
                    None => {
                        best = Some((i, c));
                    },
                }
            }
            i = i + 1;
        }
        assert(cs.take(self.detectors.len() as int) =~= cs);
        match best {
            Some((bi, _)) => {
                let name = string_of(&chars_of(self.detectors[bi].0.as_str()));
                assert(self.detector_names()[bi as int] == name@);
                Ok(name)
            },
            None => Err(DiagramError::NoDetector),
        }
    }

    /// Parses a quadrant chart with the parser of this orchestrator, and
    /// gives the chart back for plotting when the renderer is there too.
    pub fn process_quadrantchart(&self, input: &str) -> (r: Result<QuadrantChartDatabase, DiagramError>)
        ensures
            !self.has_quadrant_parser() ==> (r matches Err(DiagramError::MissingPlugin(w)) && w@
                == "quadrant chart parser"@),
            self.has_quadrant_parser() ==> quadrant_outcome(self.has_quadrant_renderer(), input@, r),
    {
        let parser = match &self.quadrantchart_parser {
            Some(p) => p,
            None => return Err(DiagramError::MissingPlugin("quadrant chart parser".to_owned())),
        };
        let mut db = QuadrantChartDatabase::new();
        match parser.parse(input, &mut db) {
            Ok(()) => {},
            Err(e) => return Err(e),
        }
        match &self.quadrantchart_renderer {
            Some(_) => Ok(db),
            None => Err(DiagramError::MissingPlugin("quadrant chart renderer".to_owned())),
        }
    }

    fn missing(what: &str) -> (r: DiagramError)
        ensures
            r matches DiagramError::MissingPlugin(w) && w@ == what@,
    {
        DiagramError::MissingPlugin(string_of(&chars_of(what)))
    }

    /// Flowcharts: this library has no flowchart parser.
    pub fn process_flowchart(&self, input: &str) -> (r: Result<String, DiagramError>)
        ensures
            r matches Err(DiagramError::MissingPlugin(w)) && w@ == "flowchart parser"@,
    {
        Err(Self::missing("flowchart parser"))
    }

    /// Git graphs: this library has no git graph parser.
    pub fn process_gitgraph(&self, input: &str) -> (r: Result<String, DiagramError>)
        ensures
            r matches Err(DiagramError::MissingPlugin(w)) && w@ == "git graph parser"@,
    {
        Err(Self::missing("git graph parser"))
    }

    /// Sequence diagrams: this library has no sequence diagram parser.
    pub fn process_sequence(&self, input: &str) -> (r: Result<String, DiagramError>)
        ensures
            r matches Err(DiagramError::MissingPlugin(w)) && w@ == "sequence parser"@,
    {
        Err(Self::missing("sequence parser"))
    }

    /// Class diagrams: this library has no class diagram parser.
    pub fn process_class(&self, input: &str) -> (r: Result<String, DiagramError>)
        ensures
            r matches Err(DiagramError::MissingPlugin(w)) && w@ == "class parser"@,
    {
        Err(Self::missing("class parser"))
    }

    /// State diagrams: this library has no state diagram parser.
    pub fn process_state(&self, input: &str) -> (r: Result<String, DiagramError>)
        ensures
            r matches Err(DiagramError::MissingPlugin(w)) && w@ == "state parser"@,
    {
        Err(Self::missing("state parser"))
    }

    /// Detects the type of `input` and runs its pipeline. A quadrant chart
    /// comes back parsed, for plotting; the other known types lack their
    /// parser here, and any other type is unsupported.
    pub fn process(&self, input: &str) -> (r: Result<QuadrantChartDatabase, DiagramError>)
        ensures
            match best_index(self.confidences(input@)) {
                None => r == Err::<QuadrantChartDatabase, DiagramError>(DiagramError::NoDetector),
                Some(i) => {
                    let t = self.detector_names()[i];
                    match missing_parser(t) {
                        Some(w) => r matches Err(DiagramError::MissingPlugin(m)) && m@ == w,
                        None => if t == "quadrantchart"@ {
                            if self.has_quadrant_parser() {
                                quadrant_outcome(self.has_quadrant_renderer(), input@, r)
                            } else {
                                r matches Err(DiagramError::MissingPlugin(m)) && m@ == "quadrant chart parser"@
                            }
                        } else {
                            r matches Err(DiagramError::UnsupportedDiagramType(u)) && u@ == t
                        },
                    }
                },
            },
    {
        let t = match self.detect_diagram_type(input) {
            Ok(t) => t,
            Err(e) => return Err(e),
        };
        let tv = chars_of(t.as_str());
        if eq_chars(&tv, &chars_of("flowchart")) {
            return Err(Self::missing("flowchart parser"));
        }
        if eq_chars(&tv, &chars_of("gitgraph")) {
            return Err(Self::missing("git graph parser"));
        }
        if eq_chars(&tv, &chars_of("sequence")) {
            return Err(Self::missing("sequence parser"));
        }
        if eq_chars(&tv, &chars_of("class")) {
            return Err(Self::missing("class parser"));
        }
        if eq_chars(&tv, &chars_of("state")) {
            return Err(Self::missing("state parser"));
        }
        if eq_chars(&tv, &chars_of("quadrantchart")) {
            return self.process_quadrantchart(input);
        }
        Err(DiagramError::UnsupportedDiagramType(t))
    }

    /// The quadrant chart renderer, if there is one.
    pub fn quadrantchart_renderer(&self) -> (r: Option<&QuadrantChartRenderer>)
        ensures
            r is Some <==> self.has_quadrant_renderer(),
            r matches Some(q) ==> q.spec_width_hint() == self.quadrant_width_hint(),
    {
        match &self.quadrantchart_renderer {
            Some(q) => Some(q),
            None => None,
        }
    }
}

impl Default for Orchestrator {
    fn default() -> (o: Orchestrator)
        ensures
            o.wf(),
            o.detector_names().len() == 0,
            forall|input: Seq<char>| #[trigger] o.confidences(input).len() == 0,
            !o.has_quadrant_parser(),
            !o.has_quadrant_renderer(),
    {
        Orchestrator::new()
    }
}

} // verus!
