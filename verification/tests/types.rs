use moth::types::{BlockType, LineTracker, ListType};

#[test]
fn lines_are_handed_out_in_order() {
    let mut lines = LineTracker::new("a\nb\nc");
    assert_eq!(lines.next(), Some("a"));
    assert_eq!(lines.next(), Some("b"));
    assert_eq!(lines.next(), Some("c"));
    assert_eq!(lines.next(), None);
    assert_eq!(lines.next(), None);
}

#[test]
fn back_returns_one_line() {
    let mut lines = LineTracker::new("a\nb");
    assert_eq!(lines.next(), Some("a"));
    lines.back();
    assert_eq!(lines.next(), Some("a"));
    assert_eq!(lines.next(), Some("b"));
    assert_eq!(lines.next(), None);
    lines.back();
    assert_eq!(lines.next(), Some("b"));
}

#[test]
fn back_at_the_start_changes_nothing() {
    let mut lines = LineTracker::new("a");
    lines.back();
    lines.back();
    assert_eq!(lines.next(), Some("a"));
    assert_eq!(lines.next(), None);
}

#[test]
fn an_empty_document_has_no_lines() {
    let mut lines = LineTracker::new("");
    assert_eq!(lines.next(), None);
    lines.back();
    assert_eq!(lines.next(), None);
}

#[test]
fn a_final_line_feed_adds_no_line() {
    let mut lines = LineTracker::new("a\n");
    assert_eq!(lines.next(), Some("a"));
    assert_eq!(lines.next(), None);
}

#[test]
fn empty_lines_are_lines() {
    let mut lines = LineTracker::new("\na\n\nb\n\n");
    assert_eq!(lines.next(), Some(""));
    assert_eq!(lines.next(), Some("a"));
    assert_eq!(lines.next(), Some(""));
    assert_eq!(lines.next(), Some("b"));
    assert_eq!(lines.next(), Some(""));
    assert_eq!(lines.next(), None);
}

#[test]
fn a_carriage_return_before_a_line_feed_is_dropped() {
    let mut lines = LineTracker::new("a\r\nb\r\n\r\nc\r");
    assert_eq!(lines.next(), Some("a"));
    assert_eq!(lines.next(), Some("b"));
    assert_eq!(lines.next(), Some(""));
    assert_eq!(lines.next(), Some("c\r"));
    assert_eq!(lines.next(), None);
}

#[test]
fn only_one_carriage_return_is_dropped() {
    let mut lines = LineTracker::new("a\r\r\nb\rc\n");
    assert_eq!(lines.next(), Some("a\r"));
    assert_eq!(lines.next(), Some("b\rc"));
    assert_eq!(lines.next(), None);
}

#[test]
fn the_lines_are_those_of_the_standard_library() {
    let documents = [
        "",
        "\n",
        "\r\n",
        "\r",
        "a",
        "a\n",
        "a\r\n",
        "a\r",
        "a\n\r",
        "a\r\n\r\n",
        "\n\na\n\n",
        "é\r\nü\n\tñ",
    ];
    for document in documents {
        let mut lines = LineTracker::new(document);
        for expected in document.lines() {
            assert_eq!(lines.next(), Some(expected));
        }
        assert_eq!(lines.next(), None);
    }
}

#[test]
fn the_states_of_a_layer_compare_by_variant() {
    assert_eq!(ListType::UL, ListType::UL);
    assert_ne!(ListType::UL, ListType::OL);
    assert_eq!(BlockType::CODE, BlockType::CODE);
    assert_ne!(BlockType::CODE, BlockType::HTML);
}
