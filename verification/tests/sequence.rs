use figurehead::canvas::CharacterSet;
use figurehead::sequence::database::{ArrowType, Message, Participant, SequenceDatabase};
use figurehead::sequence::layout::SequenceLayoutAlgorithm;
use figurehead::sequence::renderer::SequenceRenderer;

#[test]
fn test_empty_layout() {
    let db = SequenceDatabase::new();
    let layout = SequenceLayoutAlgorithm::new();
    let result = layout.layout(&db).unwrap();

    assert_eq!(result.participants.len(), 0);
    assert_eq!(result.messages.len(), 0);
}

#[test]
fn test_two_participants() {
    let mut db = SequenceDatabase::new();
    db.add_participant(Participant::new("Alice")).unwrap();
    db.add_participant(Participant::new("Bob")).unwrap();

    let layout = SequenceLayoutAlgorithm::new();
    let result = layout.layout(&db).unwrap();

    assert_eq!(result.participants.len(), 2);
    assert!(result.participants[0].x < result.participants[1].x);
}

#[test]
fn test_message_positioning() {
    let mut db = SequenceDatabase::new();
    db.add_message(Message::new("Alice", "Bob", "Hello")).unwrap();
    db.add_message(Message::new("Bob", "Alice", "Hi")).unwrap();

    let layout = SequenceLayoutAlgorithm::new();
    let result = layout.layout(&db).unwrap();

    assert_eq!(result.messages.len(), 2);
    // Second message should be below first
    assert!(result.messages[1].y > result.messages[0].y);
}

#[test]
fn test_message_direction() {
    let mut db = SequenceDatabase::new();
    db.add_message(Message::new("Alice", "Bob", "Right")).unwrap();
    db.add_message(Message::new("Bob", "Alice", "Left")).unwrap();

    let layout = SequenceLayoutAlgorithm::new();
    let result = layout.layout(&db).unwrap();

    // First message goes right (from_x < to_x)
    assert!(result.messages[0].from_x < result.messages[0].to_x);
    // Second message goes left (from_x > to_x)
    assert!(result.messages[1].from_x > result.messages[1].to_x);
}

#[test]
fn self_message_does_not_panic() {
    let mut db = SequenceDatabase::new();
    db.add_message(Message::new("Alice", "Alice", "introspect")).unwrap();

    let layout = SequenceLayoutAlgorithm::new();
    let result = layout
        .layout(&db)
        .expect("self-message layout must not panic");

    assert_eq!(result.messages.len(), 1);
    assert_eq!(result.messages[0].from_x, result.messages[0].to_x);
}

#[test]
fn self_message_on_last_participant_extends_right_margin() {
    let mut db = SequenceDatabase::new();
    db.add_participant(Participant::new("Alice")).unwrap();
    db.add_participant(Participant::new("Bob")).unwrap();
    db.add_message(Message::new(
        "Bob",
        "Bob",
        "very_long_self_message_label_indeed",
    ))
    .unwrap();

    let layout = SequenceLayoutAlgorithm::new();
    let result = layout.layout(&db).unwrap();

    // Total width must accommodate the trailing self-message label.
    let last_x = result.participants.last().unwrap().x;
    assert!(
        result.width > last_x + "very_long_self_message_label_indeed".len(),
        "canvas width {} should leave room past last lifeline at {} for the label",
        result.width,
        last_x
    );
}

#[test]
fn self_message_between_participants_widens_neighbor_spacing() {
    let mut db = SequenceDatabase::new();
    db.add_participant(Participant::new("Alice")).unwrap();
    db.add_participant(Participant::new("Bob")).unwrap();
    db.add_message(Message::new(
        "Alice",
        "Alice",
        "very_long_self_message_label_indeed",
    ))
    .unwrap();

    let layout = SequenceLayoutAlgorithm::new();
    let result = layout.layout(&db).unwrap();

    let alice_x = result.participants[0].x;
    let bob_x = result.participants[1].x;
    assert!(
        bob_x - alice_x > "very_long_self_message_label_indeed".len(),
        "neighbor spacing {} must exceed self-message label width to avoid lifeline collision",
        bob_x - alice_x
    );
}

#[test]
fn test_render_single_message() {
    let mut db = SequenceDatabase::new();
    db.add_message(Message::new("Alice", "Bob", "Hello")).unwrap();

    let renderer = SequenceRenderer::new();
    let output = renderer.render(&db).unwrap();

    assert!(!output.is_empty());
    assert!(output.contains("Alice"));
    assert!(output.contains("Bob"));
    assert!(output.contains("Hello"));
}

#[test]
fn test_render_multiple_messages() {
    let mut db = SequenceDatabase::new();
    db.add_message(Message::new("Alice", "Bob", "Hello")).unwrap();
    db.add_message(Message::new("Bob", "Alice", "Hi")).unwrap();

    let renderer = SequenceRenderer::new();
    let output = renderer.render(&db).unwrap();

    assert!(output.contains("Hello"));
    assert!(output.contains("Hi"));
}

#[test]
fn test_render_with_alias() {
    let mut db = SequenceDatabase::new();
    db.add_participant(Participant::with_label("A", "Alice")).unwrap();
    db.add_participant(Participant::with_label("B", "Bob")).unwrap();
    db.add_message(Message::new("A", "B", "Hi")).unwrap();

    let renderer = SequenceRenderer::new();
    let output = renderer.render(&db).unwrap();

    // Should show labels, not ids
    assert!(output.contains("Alice"));
    assert!(output.contains("Bob"));
}

#[test]
fn test_render_empty_database() {
    let db = SequenceDatabase::new();
    let renderer = SequenceRenderer::new();
    let output = renderer.render(&db).unwrap();

    assert!(output.is_empty());
}

#[test]
fn test_render_dotted_arrow() {
    let mut db = SequenceDatabase::new();
    let msg = Message::new("Alice", "Bob", "Response").with_arrow(ArrowType::dotted_arrow());
    db.add_message(msg).unwrap();

    let renderer = SequenceRenderer::new();
    let output = renderer.render(&db).unwrap();

    // Should contain dotted line character
    assert!(output.contains('╌') || output.contains('-'));
}

#[test]
fn self_message_renders_label_without_panic() {
    let mut db = SequenceDatabase::new();
    db.add_message(Message::new("Alice", "Alice", "introspect")).unwrap();

    let renderer = SequenceRenderer::new();
    let output = renderer
        .render(&db)
        .expect("self-message render must not panic");

    assert!(output.contains("introspect"));
    assert!(output.contains("Alice"));
}

#[test]
fn self_message_renders_in_ascii_style_without_panic() {
    let mut db = SequenceDatabase::new();
    db.add_message(Message::new("Alice", "Alice", "loop")).unwrap();

    let renderer = SequenceRenderer::with_style(CharacterSet::Ascii);
    let output = renderer
        .render(&db)
        .expect("ascii self-message render must not panic");

    assert!(output.contains("loop"));
}

#[test]
fn sequence_render_exact_picture() {
    let mut db = SequenceDatabase::new();
    db.add_message(Message::new("A", "B", "hi")).unwrap();
    let output = SequenceRenderer::new().render(&db).unwrap();
    // The lifelines start on the bottom border of the boxes, which they do
    // not overwrite; the arrow head covers the receiving lifeline.
    let expected = "  ┌───┐    ┌───┐\n  │ A │    │ B │\n  └───┘    └───┘\n    │──hi────▶\n    │        │\n    │        │";
    assert_eq!(output, expected);
}

#[test]
fn participant_box_follows_display_width() {
    let mut db = SequenceDatabase::new();
    db.add_participant(Participant::new("日本")).unwrap();
    db.add_participant(Participant::new("ab")).unwrap();
    let result = SequenceLayoutAlgorithm::new().layout(&db).unwrap();
    assert_eq!(result.participants[0].width, 8);
    assert_eq!(result.participants[1].width, 6);
}

#[test]
fn render_layout_draws_given_layout() {
    let mut db = SequenceDatabase::new();
    db.add_message(Message::new("Alice", "Bob", "Hello")).unwrap();
    let algo = SequenceLayoutAlgorithm::new();
    let renderer = SequenceRenderer::new();
    let natural = algo.layout_with_widths(&db, &vec![5, 3], &vec![5]);
    assert_eq!(renderer.render_layout(&natural), renderer.render(&db).unwrap());

    let wide = algo.layout_with_widths(&db, &vec![20, 3], &vec![5]);
    assert!(wide.participants[0].width > natural.participants[0].width);
    let text = renderer.render_layout(&wide);
    let first = text.lines().next().unwrap();
    assert!(first.chars().count() >= wide.participants[0].width);
    assert!(first.chars().count() <= wide.width);
    assert_eq!(text.lines().count(), wide.height);
    assert!(text.contains("Hello"));
}

#[test]
fn render_layout_of_empty_layout_is_empty() {
    let db = SequenceDatabase::new();
    let layout = SequenceLayoutAlgorithm::new().layout(&db).unwrap();
    assert_eq!(SequenceRenderer::new().render_layout(&layout), "");
}
