use figurehead::diagram::{DiagramError, Detector, LineFault};
use figurehead::quadrantchart::database::QuadrantChartDatabase;
use figurehead::quadrantchart::detector::QuadrantChartDetector;
use figurehead::quadrantchart::parser::QuadrantChartParser;
use figurehead::quadrantchart::renderer::{
    find_free_row, wrap_text, PlotPoint, QuadrantChartConfig, QuadrantChartRenderer,
};
use figurehead::quadrantchart::QuadrantChartDiagram;
use figurehead::text::is_float_literal;

/// The points of `db` whose coordinates are numbers, clamped to [0, 1] and
/// placed in the chart area of `r`, highest first.
fn plots_of(r: &QuadrantChartRenderer, db: &QuadrantChartDatabase) -> Vec<PlotPoint> {
    let geo = r.geometry(db);
    let mut pts: Vec<(usize, f64, f64)> = Vec::new();
    for (i, p) in db.points.iter().enumerate() {
        if let (Ok(x), Ok(y)) = (p.x_text.parse::<f64>(), p.y_text.parse::<f64>()) {
            pts.push((i, x.clamp(0.0, 1.0), y.clamp(0.0, 1.0)));
        }
    }
    pts.sort_by(|a, b| b.2.partial_cmp(&a.2).unwrap_or(std::cmp::Ordering::Equal));
    pts.iter()
        .map(|&(i, x, y)| PlotPoint {
            point: i,
            col: (x * (geo.ciw.saturating_sub(2)) as f64).round() as usize,
            row: (y * (geo.cih.saturating_sub(2)) as f64).round() as usize,
        })
        .collect()
}

#[test]
fn test_detects_quadrant_chart_keyword() {
    let detector = QuadrantChartDetector::new();
    assert!(detector.detect("quadrantChart"));
    assert!(detector.detect("quadrant chart"));
}

#[test]
fn test_confidence_scoring() {
    let detector = QuadrantChartDetector::new();
    assert!(detector.confidence("quadrantChart\n    title Test") > 900);
}

#[test]
fn test_rejects_other_diagrams() {
    let detector = QuadrantChartDetector::new();
    assert!(!detector.detect("graph TD\n    A --> B"));
    assert!(!detector.detect("sequenceDiagram"));
    assert!(!detector.detect("gitGraph"));
}

#[test]
fn test_parse_basic_quadrant_chart() {
    let input = "quadrantChart\n    title Test\n    x-axis Low E --> High E\n    y-axis Low R --> High R\n    quadrant-1 \"Quick Wins\"\n    quadrant-2 \"Major\"\n    quadrant-3 \"Fill-ins\"\n    quadrant-4 \"Thanks\"\n    \"Point A\": [0.2, 0.8]\n    \"Point B\": [0.7, 0.3]\n";
    let parser = QuadrantChartParser::new();
    let mut db = QuadrantChartDatabase::new();
    parser.parse(input, &mut db).unwrap();

    assert_eq!(db.title.as_deref(), Some("Test"));
    assert_eq!(db.x_axis_low, "Low E");
    assert_eq!(db.x_axis_high, "High E");
    assert_eq!(db.quadrant_labels[0], "Quick Wins");
    assert_eq!(db.points.len(), 2);
}

#[test]
fn test_rejects_non_quadrant_chart() {
    let input = "graph TD\n    A --> B";
    let parser = QuadrantChartParser::new();
    let mut db = QuadrantChartDatabase::new();
    assert!(parser.parse(input, &mut db).is_err());
}

#[test]
fn quadrant_renderer_test_render_basic() {
    let input = "quadrantChart\n    title Risk vs Effort\n    x-axis Low Effort --> High Effort\n    y-axis Low Risk --> High Risk\n    quadrant-1 \"Quick Wins\"\n    quadrant-2 \"Major Projects\"\n    quadrant-3 \"Fill-ins\"\n    quadrant-4 \"Thanks\"\n    \"Item A\": [0.2, 0.8]\n    \"Item B\": [0.7, 0.3]\n";
    let p = QuadrantChartParser::new();
    let mut db = QuadrantChartDatabase::new();
    p.parse(input, &mut db).unwrap();
    let r = QuadrantChartRenderer::new();
    assert!(r.fits(&db));
    let plots = plots_of(&r, &db);
    assert!(r.plots_fit(&db, &r.geometry(&db), &plots));
    let o = r.render(&db, &plots).unwrap();
    assert!(o.contains("Risk vs Effort"));
    assert!(o.contains("Quick Wins"));
    assert!(o.contains('·'));
    assert!(o.contains('┼'));
}

#[test]
fn parse_axis_variants_and_quotes() {
    let input = "QUADRANT CHART\n  x-axis Cheap -> Costly\n  y-axis Slow --> Fast\n  quadrant-2 'Later'\n  quadrant-3 \"\"Odd\"\"\n  'Single': [ 0.5 , 1 ]\n  \"Bad\" [0.1, 0.2]\n  something else\n";
    let parser = QuadrantChartParser::new();
    let mut db = QuadrantChartDatabase::new();
    parser.parse(input, &mut db).unwrap();
    assert_eq!(db.x_axis_low, "Cheap");
    assert_eq!(db.x_axis_high, "Costly");
    assert_eq!(db.y_axis_low, "Slow");
    assert_eq!(db.y_axis_high, "Fast");
    assert_eq!(db.quadrant_labels[1], "Later");
    assert_eq!(db.quadrant_labels[2], "Odd");
    assert_eq!(db.points.len(), 1);
    assert_eq!(db.points[0].label, "Single");
    assert_eq!(db.points[0].x_text, "0.5");
    assert_eq!(db.points[0].y_text, "1");
}

#[test]
fn parse_stops_at_axis_without_arrow() {
    let parser = QuadrantChartParser::new();
    let mut db = QuadrantChartDatabase::new();
    let r = parser.parse("quadrantChart\n  title T\n  x-axis nothing here\n  title U\n", &mut db);
    assert_eq!(
        r,
        Err(DiagramError::InvalidLine("x-axis nothing here".to_string(), LineFault::XAxisFormat))
    );
    let e = r.unwrap_err();
    assert_eq!(e.to_string(), "Failed to parse line: x-axis nothing here");
    assert_eq!(
        e.cause().unwrap().message(),
        "Invalid x-axis format, expected 'x-axis <low> --> <high>'"
    );
    assert_eq!(
        e.chain_message(),
        "Failed to parse line: x-axis nothing here: Invalid x-axis format, expected 'x-axis <low> --> <high>'"
    );
    assert_eq!(db.title.as_deref(), Some("T"));
}

#[test]
fn y_axis_without_arrow_names_its_axis() {
    let parser = QuadrantChartParser::new();
    let mut db = QuadrantChartDatabase::new();
    let e = parser.parse("quadrantChart\n  Y-AXIS up down\n", &mut db).unwrap_err();
    assert_eq!(e.cause(), Some(LineFault::YAxisFormat));
    assert_eq!(
        LineFault::YAxisFormat.message(),
        "Invalid y-axis format, expected 'y-axis <low> --> <high>'"
    );
}

#[test]
fn parse_reports_missing_header() {
    let parser = QuadrantChartParser::new();
    let mut db = QuadrantChartDatabase::new();
    let r = parser.parse("", &mut db);
    assert_eq!(r, Err(DiagramError::NotQuadrantChart));
}

#[test]
fn confidence_levels() {
    let d = QuadrantChartDetector::new();
    assert_eq!(d.confidence("quadrantChart"), 950);
    assert_eq!(d.confidence("%% a\nquadrantChart"), 800);
    assert_eq!(d.confidence("x-axis a --> b\ny-axis c --> d\nquadrant-1 Q"), 600);
    assert!(!d.detect("x-axis a --> b\ny-axis c --> d\nquadrant-1 Q"));
    assert_eq!(d.confidence(""), 0);
    assert_eq!(d.patterns().len(), 8);
}

#[test]
fn wrap_text_packs_words() {
    assert_eq!(wrap_text("one two three", 7), vec!["one two", "three"]);
    assert_eq!(wrap_text("abcdefgh", 3), vec!["abc", "def", "gh"]);
    assert_eq!(wrap_text("", 5), vec![""]);
    assert_eq!(wrap_text("  a  ", 0), vec!["  a  "]);
    assert_eq!(wrap_text("a bb cccc", 4), vec!["a bb", "cccc"]);
}

#[test]
fn wrap_text_keeps_every_letter() {
    let text = "a quick brown fox jumps over";
    let lines = wrap_text(text, 6);
    let joined: String = lines.concat().chars().filter(|c| !c.is_whitespace()).collect();
    let original: String = text.chars().filter(|c| !c.is_whitespace()).collect();
    assert_eq!(joined, original);
}

#[test]
fn free_row_moves_to_nearest_free_row() {
    let occ = vec![(5usize, 7usize), (5, 8)];
    assert_eq!(find_free_row(&occ, 5, 7, 20), 6);
    assert_eq!(find_free_row(&occ, 4, 7, 20), 7);
    assert_eq!(find_free_row(&vec![], 3, 1, 20), 1);
    let full: Vec<(usize, usize)> = (1..=20).map(|y| (2usize, y)).collect();
    assert_eq!(find_free_row(&full, 2, 9, 20), 9);
}

#[test]
fn width_hint_sets_chart_width() {
    let db = QuadrantChartDatabase::new();
    let r = QuadrantChartRenderer::with_config(QuadrantChartConfig { width_hint: 50 });
    let geo = r.geometry(&db);
    assert_eq!(geo.total_w, 46);
    let o = r.render(&db, &vec![]).unwrap();
    assert_eq!(o.lines().next().unwrap().chars().count(), 46);
    assert_eq!(o.lines().count(), 13);
}

#[test]
fn quadrant_diagram_parts() {
    assert_eq!(QuadrantChartDiagram::name(), "quadrantchart");
    assert_eq!(QuadrantChartDiagram::version(), "0.1.0");
    assert_eq!(QuadrantChartDiagram::create_renderer().name(), "quadrantchart-ascii");
}

#[test]
fn point_with_non_numeric_coordinate_is_skipped() {
    let input = "quadrantChart\n  \"A\": [abc, 0.5]\n  \"B\": [0.5, 1e-3]\n  \"C\": [.5, +inf]\n  \"D\": [0.5, .]\n  \"E\": [5., 2]\n";
    let parser = QuadrantChartParser::new();
    let mut db = QuadrantChartDatabase::new();
    parser.parse(input, &mut db).unwrap();
    let labels: Vec<&str> = db.points.iter().map(|p| p.label.as_str()).collect();
    assert_eq!(labels, vec!["B", "C", "E"]);
    assert_eq!(db.points[0].y_text, "1e-3");
    assert_eq!(db.points[1].x_text, ".5");
}

#[test]
fn float_literal_grammar() {
    let yes = ["0", "1.5", ".5", "5.", "-2", "+7", "1e3", "1E-3", "2.5e+10", "inf", "-Infinity", "NaN"];
    let no = ["", ".", "e5", "1e", "1e+", "abc", "1.2.3", "1,5", " 1", "--1", "in", "0x10", "1e3.5"];
    for s in yes.iter() {
        let v: Vec<char> = s.chars().collect();
        assert!(is_float_literal(&v), "{}", s);
        assert!(s.parse::<f64>().is_ok(), "{}", s);
    }
    for s in no.iter() {
        let v: Vec<char> = s.chars().collect();
        assert!(!is_float_literal(&v), "{}", s);
        assert!(s.parse::<f64>().is_err(), "{}", s);
    }
}
