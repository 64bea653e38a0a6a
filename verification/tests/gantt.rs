use figurehead::diagram::{DiagramError, Detector};
use figurehead::gantt::database::{GanttDatabase, GanttSection, GanttTask, TaskStatus};
use figurehead::gantt::detector::GanttDetector;
use figurehead::gantt::parser::{parse_duration, parse_status, Date, GanttParser};
use figurehead::gantt::renderer::{day_to_str, is_leap, GanttRenderer, GanttScale};
use figurehead::gantt::GanttDiagram;

/// Bar columns and axis dates as the chart's time span scales them.
fn scale_of(db: &GanttDatabase) -> GanttScale {
    let total = (db.max_day - db.min_day).max(1) as f64;
    let bars = db
        .sections
        .iter()
        .map(|s| {
            s.tasks
                .iter()
                .map(|t| {
                    let start = ((t.start_day - db.min_day) as f64 / total * 60.0).round() as usize;
                    let len = (t.duration_days as f64 / total * 60.0).round() as usize;
                    (start, len)
                })
                .collect()
        })
        .collect();
    let axis_offsets = (0..4).map(|ti| (((ti as f64 + 0.5) / 4.0) * total) as i64).collect();
    GanttScale { bars, axis_offsets }
}

#[test]
fn test_detects_gantt() {
    let d = GanttDetector::new();
    assert!(d.detect("gantt"));
    assert!(d.detect("ganttChart"));
    assert!(d.detect("gantt\n    title Test"));
}

#[test]
fn test_rejects_other() {
    let d = GanttDetector::new();
    assert!(!d.detect("graph TD"));
    assert!(!d.detect("sequenceDiagram"));
}

#[test]
fn test_parse_basic_gantt() {
    let input = "gantt\n    title Test\n    dateFormat YYYY-MM-DD\n    section Dev\n    Task A :done, a1, 2024-01-01, 30d\n    Task B :active, b1, after a1, 20d\n";
    let p = GanttParser::new();
    let mut db = GanttDatabase::new();
    p.parse(input, &mut db).unwrap();
    assert_eq!(db.title.as_deref(), Some("Test"));
    assert_eq!(db.sections.len(), 1);
    assert_eq!(db.sections[0].tasks.len(), 2);
    assert_eq!(db.sections[0].tasks[0].status, TaskStatus::Done);
    assert_eq!(db.sections[0].tasks[1].status, TaskStatus::Active);
}

#[test]
fn test_parse_date() {
    let d = Date::parse_ymd("2024-06-15").unwrap();
    assert_eq!(d.year, 2024);
    assert_eq!(d.month, 6);
    assert_eq!(d.day, 15);
}

#[test]
fn test_parse_duration() {
    assert_eq!(parse_duration("30d"), Some(30));
    assert_eq!(parse_duration("2w"), Some(14));
    assert_eq!(parse_duration("1M"), Some(30));
    assert_eq!(parse_duration("7"), Some(7));
}

#[test]
fn renderer_test_render_basic() {
    let input = "gantt\n    title Test\n    dateFormat YYYY-MM-DD\n    section Dev\n    Task A :a1, 2024-01-01, 30d\n    Task B :after a1, 20d\n";
    let p = GanttParser::new();
    let mut db = GanttDatabase::new();
    p.parse(input, &mut db).unwrap();
    let r = GanttRenderer::new();
    let o = r.render(&db, &scale_of(&db)).unwrap();
    assert!(o.contains("Test"));
    assert!(o.contains("Task A"));
    assert!(o.contains("Task B"));
    assert!(o.contains("2024-"));
}

#[test]
fn test_day_to_str() {
    assert_eq!(day_to_str(0), "2020-01-01");
    assert_eq!(day_to_str(30), "2020-01-31");
    assert_eq!(day_to_str(31), "2020-02-01");
    assert_eq!(day_to_str(1461), "2024-01-01");
}

#[test]
fn day_to_str_leap_day_and_year_end() {
    assert_eq!(day_to_str(59), "2020-02-29");
    assert_eq!(day_to_str(60), "2020-03-01");
    assert_eq!(day_to_str(365), "2020-12-31");
    assert_eq!(day_to_str(366), "2021-01-01");
    assert_eq!(day_to_str(366 + 59), "2021-03-01");
}

#[test]
fn day_to_str_before_the_reference_day() {
    assert_eq!(day_to_str(-1), "2019-12-31");
    assert_eq!(day_to_str(-5), "2019-12-27");
    assert_eq!(day_to_str(-365), "2019-01-01");
    assert_eq!(day_to_str(-366), "2018-12-31");
    assert_eq!(day_to_str(-365 - 365 - 365 - 366), "2016-01-01");
}

#[test]
fn days_since_counts_calendar_days() {
    let r = Date { year: 2020, month: 1, day: 1 };
    let d = Date::parse_ymd("2024-01-01").unwrap();
    assert_eq!(d.days_since(r), 1461);
    assert_eq!(day_to_str(d.days_since(r)), "2024-01-01");
    let m = Date::parse_ymd("2020-03-01").unwrap();
    assert_eq!(m.days_since(r), 60);
    assert_eq!(day_to_str(m.days_since(r)), "2020-03-01");
    let past = Date::parse_ymd("2019-12-31").unwrap();
    assert_eq!(past.days_since(r), -1);
    let leap = Date::parse_ymd("2000-02-29").unwrap();
    assert_eq!(day_to_str(leap.days_since(r)), "2000-02-29");
    assert_eq!(r.days_since(d), -1461);
}

#[test]
fn leap_years() {
    assert!(is_leap(2020));
    assert!(is_leap(2000));
    assert!(!is_leap(1900));
    assert!(!is_leap(2021));
    assert!(is_leap(-4));
}

#[test]
fn parse_status_words() {
    assert_eq!(parse_status("done"), TaskStatus::Done);
    assert_eq!(parse_status("active"), TaskStatus::Active);
    assert_eq!(parse_status("crit"), TaskStatus::Crit);
    assert_eq!(parse_status("milestone"), TaskStatus::Milestone);
    assert_eq!(parse_status("whatever"), TaskStatus::Normal);
}

#[test]
fn parse_duration_rejects_other_units() {
    assert_eq!(parse_duration("3y"), None);
    assert_eq!(parse_duration(""), None);
}

#[test]
fn parse_rejects_non_gantt() {
    let p = GanttParser::new();
    let mut db = GanttDatabase::new();
    let r = p.parse("graph TD\n  A --> B", &mut db);
    assert_eq!(r, Err(DiagramError::NotGantt));
    assert_eq!(r.unwrap_err().to_string(), "Input does not start with 'gantt'");
    assert!(db.sections.is_empty());
}

#[test]
fn parse_reports_overflowing_days() {
    let p = GanttParser::new();
    let mut db = GanttDatabase::new();
    let r = p.parse("gantt\n    Big :b1, 2024-01-01, 9223372036854775807d\n", &mut db);
    assert_eq!(r, Err(DiagramError::Overflow));
    assert!(db.sections.is_empty());
}

#[test]
fn parse_sets_range_from_tasks() {
    let p = GanttParser::new();
    let mut db = GanttDatabase::new();
    p.parse("gantt\n    section S\n    A :a1, 2020-01-11, 5d\n    B :after a1, 10d\n", &mut db).unwrap();
    assert_eq!(db.sections[0].tasks[0].start_day, 10);
    assert_eq!(db.sections[0].tasks[1].start_day, 15);
    assert_eq!(db.min_day, 10);
    assert_eq!(db.max_day, 25);
}

#[test]
fn recompute_range_without_tasks() {
    let mut db = GanttDatabase::new();
    db.recompute_range();
    assert_eq!(db.min_day, 0);
    assert_eq!(db.max_day, 30);
}

#[test]
fn detector_confidence_levels() {
    let d = GanttDetector::new();
    assert_eq!(d.confidence("gantt\n section A\n t :a, 1d"), 950);
    assert_eq!(d.confidence("gantt"), 800);
    assert_eq!(d.confidence("graph TD"), 0);
    assert_eq!(d.confidence("   "), 0);
    assert_eq!(d.diagram_type(), "gantt");
}

#[test]
fn gantt_diagram_parts() {
    assert_eq!(GanttDiagram::name(), "gantt");
    assert_eq!(GanttDiagram::version(), "0.1.0");
    let r = GanttDiagram::create_renderer();
    assert_eq!(r.name(), "gantt-ascii");
    assert_eq!(r.format(), "ascii");
}

#[test]
fn render_exact_small_chart() {
    let mut db = GanttDatabase::new();
    db.sections.push(GanttSection {
        name: "S".to_string(),
        tasks: vec![GanttTask {
            label: "T".to_string(),
            id: "t".to_string(),
            status: TaskStatus::Done,
            start_day: 0,
            duration_days: 10,
        }],
    });
    db.recompute_range();
    let scale = scale_of(&db);
    assert_eq!(scale.bars, vec![vec![(0usize, 60usize)]]);
    assert_eq!(scale.axis_offsets, vec![1, 3, 6, 8]);
    let out = GanttRenderer::new().render(&db, &scale).unwrap();
    let tw = 64;
    let mut axis = String::from("├");
    for i in 0..60 {
        axis.push(if i > 0 && i % 10 == 0 { '┼' } else { '─' });
    }
    let dates = format!(
        "  2020-01-02{}2020-01-04{}2020-01-07{}2020-01-09   ",
        " ".repeat(5),
        " ".repeat(5),
        " ".repeat(5)
    );
    let expected = vec![
        format!("┌{}┐", "─".repeat(tw)),
        format!("│ ▸ S{}│", " ".repeat(58)),
        format!("│  T {}│", "▓".repeat(60)),
        format!("│{}│", " ".repeat(tw)),
        format!("│    {}│", axis),
        format!("│    {}│", dates),
        format!("└{}┘", "─".repeat(tw)),
    ]
    .join("\n");
    assert_eq!(out, expected);
}

#[test]
fn render_clamps_bars_into_the_area() {
    let mut db = GanttDatabase::new();
    db.title = Some("Plan".to_string());
    db.sections.push(GanttSection {
        name: String::new(),
        tasks: vec![GanttTask {
            label: "Late".to_string(),
            id: "l".to_string(),
            status: TaskStatus::Milestone,
            start_day: 5,
            duration_days: 0,
        }],
    });
    let scale = GanttScale { bars: vec![vec![(80, 0)]], axis_offsets: vec![0, 0, 0, 0] };
    let out = GanttRenderer::new().render(&db, &scale).unwrap();
    let lines: Vec<&str> = out.lines().collect();
    // title row, blank row, then the task row: one diamond in the last column
    assert!(lines[1].contains(" Plan "));
    let task_row: Vec<char> = lines[3].chars().collect();
    assert_eq!(task_row.iter().filter(|c| **c == '◆').count(), 1);
    assert_eq!(task_row[task_row.len() - 2], '◆');
}

#[test]
fn task_ids_are_alphanumeric_words() {
    let p = GanttParser::new();
    let mut db = GanttDatabase::new();
    p.parse("gantt\n    T :a.b, 5d\n    U :ab, 5d\n    V :é1, 5d\n", &mut db).unwrap();
    let tasks = &db.sections[0].tasks;
    assert_eq!(tasks[0].id, "");
    assert_eq!(tasks[0].duration_days, 7);
    assert_eq!(tasks[1].id, "ab");
    assert_eq!(tasks[1].duration_days, 5);
    assert_eq!(tasks[2].id, "é1");
}

#[test]
fn date_strings_read_back_through_day_counts() {
    let reference = Date::parse_ymd("2020-01-01").unwrap();
    for s in [
        "2024-01-01",
        "2020-02-29",
        "2019-12-31",
        "1999-03-01",
        "2100-02-28",
        "0000-01-01",
        "0999-12-31",
        "9999-12-31",
        "12345-06-15",
    ] {
        let d = Date::parse_ymd(s).unwrap();
        assert_eq!(day_to_str(d.days_since(reference)), s);
    }
    assert_eq!(Date::parse_ymd("2024-01-01").unwrap().days_since(reference), 1461);
}
