//! Quadrant chart database.
use vstd::prelude::*;

verus! {

/// A labelled point, with its coordinates as they are written in the chart
/// (numbers between 0 and 1 once read).
#[derive(Debug)]
pub struct QuadrantPoint {
    pub label: String,
    pub x_text: String,
    pub y_text: String,
}

/// Quadrant chart database: title, axis labels, the four quadrant labels
/// and the points.
#[derive(Debug)]
pub struct QuadrantChartDatabase {
    pub title: Option<String>,
    pub x_axis_low: String,
    pub x_axis_high: String,
    pub y_axis_low: String,
    pub y_axis_high: String,
    pub quadrant_labels: [String; 4],
    pub points: Vec<QuadrantPoint>,
}

/// A point as text: label, x, y.
pub type PointView = (Seq<char>, Seq<char>, Seq<char>);

/// The content of a quadrant chart database.
pub struct QuadrantView {
    pub title: Option<Seq<char>>,
    pub x_axis_low: Seq<char>,
    pub x_axis_high: Seq<char>,
    pub y_axis_low: Seq<char>,
    pub y_axis_high: Seq<char>,
    pub quadrant_labels: Seq<Seq<char>>,
    pub points: Seq<PointView>,
}

pub open spec fn point_view(p: QuadrantPoint) -> PointView {
    (p.label@, p.x_text@, p.y_text@)
}

impl View for QuadrantChartDatabase {
    type V = QuadrantView;

    open spec fn view(&self) -> QuadrantView {
        QuadrantView {
            title: match self.title {
                Some(t) => Some(t@),
                None => None,
            },
            x_axis_low: self.x_axis_low@,
            x_axis_high: self.x_axis_high@,
            y_axis_low: self.y_axis_low@,
            y_axis_high: self.y_axis_high@,
            quadrant_labels: self.quadrant_labels@.map_values(|l: String| l@),
            points: self.points@.map_values(|p: QuadrantPoint| point_view(p)),
        }
    }
}

/// An empty chart: no title, empty labels, no points.
pub open spec fn empty_chart() -> QuadrantView {
    QuadrantView {
        title: None,
        x_axis_low: Seq::empty(),
        x_axis_high: Seq::empty(),
        y_axis_low: Seq::empty(),
        y_axis_high: Seq::empty(),
        quadrant_labels: seq![Seq::empty(), Seq::empty(), Seq::empty(), Seq::empty()],
        points: Seq::empty(),
    }
}

impl QuadrantChartDatabase {
    /// An empty chart: no title, empty labels, no points.
    pub fn new() -> (db: QuadrantChartDatabase)
        ensures
            db@ == empty_chart(),
    {
        let db = QuadrantChartDatabase {
            title: None,
            x_axis_low: String::new(),
            x_axis_high: String::new(),
            y_axis_low: String::new(),
            y_axis_high: String::new(),
            quadrant_labels: [String::new(), String::new(), String::new(), String::new()],
            points: Vec::new(),
        };
        assert(db@.quadrant_labels =~= seq![Seq::<char>::empty(), Seq::empty(), Seq::empty(), Seq::empty()]);
        assert(db@.points =~= Seq::<super::database::PointView>::empty());
        db
    }
}

impl Default for QuadrantChartDatabase {
    fn default() -> (db: QuadrantChartDatabase)
        ensures
            db@ == empty_chart(),
    {
        QuadrantChartDatabase::new()
    }
}

} // verus!
