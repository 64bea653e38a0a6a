//! Gantt charts: database, detector, parser and renderer.
pub mod database;
pub mod detector;
pub mod parser;
pub mod renderer;

use vstd::prelude::*;

use database::GanttDatabase;
use detector::GanttDetector;
use parser::GanttParser;
use renderer::GanttRenderer;

verus! {

/// The parts of the Gantt chart plugin.
pub struct GanttDiagram;

impl GanttDiagram {
    pub fn detector() -> (d: GanttDetector) {
        GanttDetector::new()
    }

    pub fn create_parser() -> (p: GanttParser) {
        GanttParser::new()
    }

    /// An empty database.
    pub fn create_database() -> (db: GanttDatabase)
        ensures
            db.title is None,
            db.date_format@.len() == 0,
            db.sections@.len() == 0,
            db.min_day == 0,
            db.max_day == 0,
    {
        GanttDatabase::new()
    }

    pub fn create_renderer() -> (r: GanttRenderer) {
        GanttRenderer::new()
    }

    /// The diagram type.
    pub fn name() -> (r: &'static str)
        ensures
            r@ == "gantt"@,
    {
        "gantt"
    }

    pub fn version() -> (r: &'static str)
        ensures
            r@ == "0.1.0"@,
    {
        "0.1.0"
    }
}

} // verus!
