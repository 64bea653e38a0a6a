use figurehead::diagram::{DiagramError, LineFault};
use figurehead::gantt::detector::GanttDetector;
use figurehead::orchestrator::{DiagramDetector, Orchestrator};
use figurehead::quadrantchart::detector::QuadrantChartDetector;

#[test]
fn test_orchestrator_creation() {
    let orchestrator = Orchestrator::new();
    assert_eq!(orchestrator.get_detectors().len(), 0);
    assert!(!orchestrator.has_flowchart_plugins());
}

#[test]
fn test_orchestrator_default() {
    let orchestrator = Orchestrator::default();
    assert_eq!(orchestrator.get_detectors().len(), 0);
    assert!(!orchestrator.has_flowchart_plugins());
}

#[test]
fn test_detect_diagram_type_with_no_detectors() {
    let orchestrator = Orchestrator::new();
    let input = "graph TD; A-->B;";

    let result = orchestrator.detect_diagram_type(input);
    assert!(result.is_err());
    assert_eq!(
        result.unwrap_err().to_string(),
        "No suitable detector found for input"
    );
}

#[test]
fn test_process_with_missing_plugins() {
    let orchestrator = Orchestrator::new();
    let input = "graph TD; A-->B;";

    let result = orchestrator.process(input);
    assert!(result.is_err());
    assert_eq!(
        result.unwrap_err().to_string(),
        "No suitable detector found for input"
    );
}

#[test]
fn register_and_detect_quadrant_chart() {
    let mut o = Orchestrator::new();
    o.register_detector(
        "quadrantchart".to_string(),
        DiagramDetector::QuadrantChart(QuadrantChartDetector::new()),
    );
    assert_eq!(o.get_detectors(), vec!["quadrantchart"]);
    assert_eq!(o.detect_diagram_type("quadrantChart\n title X").unwrap(), "quadrantchart");
    assert_eq!(o.detect_diagram_type("graph TD").unwrap_err(), DiagramError::NoDetector);
}

#[test]
fn register_replaces_detector_of_same_name() {
    let mut o = Orchestrator::new();
    o.register_detector("d".to_string(), DiagramDetector::Gantt(GanttDetector::new()));
    o.register_detector("d".to_string(), DiagramDetector::QuadrantChart(QuadrantChartDetector::new()));
    assert_eq!(o.get_detectors(), vec!["d"]);
    assert!(o.detect_diagram_type("gantt").is_err());
    assert_eq!(o.detect_diagram_type("quadrantChart").unwrap(), "d");
}

#[test]
fn most_confident_detector_wins() {
    let mut o = Orchestrator::new();
    o.register_detector("gantt".to_string(), DiagramDetector::Gantt(GanttDetector::new()));
    o.register_default_detectors();
    assert_eq!(o.get_detectors(), vec!["gantt", "quadrantchart"]);
    assert_eq!(o.detect_diagram_type("gantt\n section A").unwrap(), "gantt");
    assert_eq!(o.detect_diagram_type("quadrantChart").unwrap(), "quadrantchart");
}

#[test]
fn process_routes_by_detected_type() {
    let mut o = Orchestrator::with_all_plugins();
    o.register_default_detectors();
    let db = o.process("quadrantChart\n title T\n \"P\": [0.1, 0.2]").unwrap();
    assert_eq!(db.title.as_deref(), Some("T"));
    assert_eq!(db.points.len(), 1);
    o.register_detector("gantt".to_string(), DiagramDetector::Gantt(GanttDetector::new()));
    let e = o.process("gantt\n section A").unwrap_err();
    assert_eq!(e, DiagramError::UnsupportedDiagramType("gantt".to_string()));
    assert_eq!(e.to_string(), "Unsupported diagram type: gantt");
}

#[test]
fn process_without_quadrant_plugins() {
    let mut o = Orchestrator::new();
    o.register_default_detectors();
    let e = o.process("quadrantChart").unwrap_err();
    assert_eq!(e.to_string(), "No quadrant chart parser available");
}

#[test]
fn missing_pipelines_name_their_parser() {
    let o = Orchestrator::with_all_plugins();
    assert_eq!(o.process_flowchart("graph TD").unwrap_err().to_string(), "No flowchart parser available");
    assert_eq!(o.process_gitgraph("gitGraph").unwrap_err().to_string(), "No git graph parser available");
    assert_eq!(o.process_sequence("sequenceDiagram").unwrap_err().to_string(), "No sequence parser available");
    assert_eq!(o.process_class("classDiagram").unwrap_err().to_string(), "No class parser available");
    assert_eq!(o.process_state("stateDiagram").unwrap_err().to_string(), "No state parser available");
    assert!(o.quadrantchart_renderer().is_some());
    assert!(Orchestrator::new().quadrantchart_renderer().is_none());
}

#[test]
fn quadrant_parse_error_passes_through() {
    let o = Orchestrator::with_all_plugins();
    let e = o.process_quadrantchart("quadrantChart\n y-axis a b").unwrap_err();
    assert_eq!(e, DiagramError::InvalidLine("y-axis a b".to_string(), LineFault::YAxisFormat));
    assert_eq!(e.cause(), Some(LineFault::YAxisFormat));
    let e = o.process_quadrantchart("pie").unwrap_err();
    assert_eq!(e, DiagramError::NotQuadrantChart);
}
