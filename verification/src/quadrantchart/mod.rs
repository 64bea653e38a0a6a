//! Quadrant charts: database, detector, parser and renderer.
pub mod database;
pub mod detector;
pub mod parser;
pub mod renderer;

use vstd::prelude::*;

use database::{empty_chart, QuadrantChartDatabase};
use detector::QuadrantChartDetector;
use parser::QuadrantChartParser;
use renderer::QuadrantChartRenderer;

verus! {

/// The parts of the quadrant chart plugin.
pub struct QuadrantChartDiagram;

impl QuadrantChartDiagram {
    pub fn detector() -> (d: QuadrantChartDetector) {
        QuadrantChartDetector::new()
    }

    pub fn create_parser() -> (p: QuadrantChartParser) {
        QuadrantChartParser::new()
    }

    /// An empty database.
    pub fn create_database() -> (db: QuadrantChartDatabase)
        ensures
            db@ == empty_chart(),
    {
        QuadrantChartDatabase::new()
    }

    /// A renderer that sizes charts from their labels.
    pub fn create_renderer() -> (r: QuadrantChartRenderer)
        ensures
            r.spec_width_hint() == 0,
    {
        QuadrantChartRenderer::new()
    }

    /// The diagram type.
    pub fn name() -> (r: &'static str)
        ensures
            r@ == "quadrantchart"@,
    {
        "quadrantchart"
    }

    pub fn version() -> (r: &'static str)
        ensures
            r@ == "0.1.0"@,
    {
        "0.1.0"
    }
}

} // verus!
