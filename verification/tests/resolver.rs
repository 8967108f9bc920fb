use babelfish::model::Model;
use babelfish::transcript::{bottom_scroll, resolve_row, Viewport};

fn transcript(entries: &[&str]) -> Vec<String> {
    entries.iter().map(|e| e.to_string()).collect()
}

fn one_exchange() -> Model {
    let mut model = Model::new(String::new(), Vec::new());
    model.chat_area_y = 0;
    model.chat_area_height = 10;
    model.messages = transcript(&["hello", "hola"]);
    model.scroll = 0;
    model
}

#[test]
fn translation_body_row_resolves() {
    let model = one_exchange();
    assert_eq!(model.get_translation_at(6), Some((1, "hola".to_string())));
}

#[test]
fn user_body_row_resolves_to_nothing() {
    let model = one_exchange();
    assert_eq!(model.get_translation_at(2), None);
}

#[test]
fn row_beyond_content_resolves_to_nothing() {
    let model = one_exchange();
    assert_eq!(model.get_translation_at(8), None);
    assert_eq!(model.get_translation_at(9), None);
}

#[test]
fn rule_and_blank_rows_resolve_to_nothing() {
    let model = one_exchange();
    for row in [0, 1, 3, 4, 5, 7] {
        assert_eq!(model.get_translation_at(row), None, "row {}", row);
    }
}

#[test]
fn rows_outside_the_viewport_resolve_to_nothing() {
    let mut model = one_exchange();
    model.chat_area_y = 3;
    model.chat_area_height = 10;
    assert_eq!(model.get_translation_at(2), None);
    assert_eq!(model.get_translation_at(13), None);
    assert_eq!(model.get_translation_at(u16::MAX), None);
    assert_eq!(model.get_translation_at(9), Some((1, "hola".to_string())));
    assert_eq!(model.get_translation_at(12), None);
}

#[test]
fn viewport_without_rows_shows_nothing() {
    let mut model = one_exchange();
    model.chat_area_height = 0;
    for row in 0..20 {
        assert_eq!(model.get_translation_at(row), None);
    }
}

#[test]
fn empty_transcript_resolves_to_nothing() {
    let viewport = Viewport { top: 0, height: 50 };
    for row in 0..50 {
        assert_eq!(resolve_row(&Vec::new(), viewport, 0, row), None);
    }
}

#[test]
fn scroll_offset_shifts_the_lines() {
    let messages = transcript(&["hello", "hola"]);
    let viewport = Viewport { top: 3, height: 10 };
    assert_eq!(resolve_row(&messages, viewport, 5, 3), None);
    assert_eq!(resolve_row(&messages, viewport, 5, 4), Some((1, "hola".to_string())));
    assert_eq!(resolve_row(&messages, viewport, 6, 3), Some((1, "hola".to_string())));
    assert_eq!(resolve_row(&messages, viewport, 7, 3), None);
}

#[test]
fn scroll_beyond_the_content_shows_nothing() {
    let messages = transcript(&["hello", "hola"]);
    let viewport = Viewport { top: 0, height: 10 };
    for row in 0..10 {
        assert_eq!(resolve_row(&messages, viewport, 8, row), None);
        assert_eq!(resolve_row(&messages, viewport, u16::MAX, row), None);
    }
}

#[test]
fn every_line_of_a_long_translation_resolves_to_it() {
    let messages = transcript(&["a\nb", "x\ny\nz"]);
    let viewport = Viewport { top: 0, height: 20 };
    let hit = Some((1, "x\ny\nz".to_string()));
    for row in 0..20 {
        let expected = if (7..=9).contains(&row) { hit.clone() } else { None };
        assert_eq!(resolve_row(&messages, viewport, 0, row), expected, "row {}", row);
    }
}

#[test]
fn later_translations_resolve_to_their_own_index() {
    let messages = transcript(&["a", "b", "c", "d"]);
    let viewport = Viewport { top: 0, height: 20 };
    assert_eq!(resolve_row(&messages, viewport, 0, 6), Some((1, "b".to_string())));
    assert_eq!(resolve_row(&messages, viewport, 0, 10), None);
    assert_eq!(resolve_row(&messages, viewport, 0, 14), Some((3, "d".to_string())));
    assert_eq!(resolve_row(&messages, viewport, 0, 15), None);
    assert_eq!(resolve_row(&messages, viewport, 0, 16), None);
}

#[test]
fn translation_without_lines_has_no_row() {
    let messages = transcript(&["q", ""]);
    let viewport = Viewport { top: 0, height: 20 };
    for row in 0..20 {
        assert_eq!(resolve_row(&messages, viewport, 0, row), None, "row {}", row);
    }
}

#[test]
fn trailing_line_feed_adds_no_line() {
    let messages = transcript(&["q\n", "a\n"]);
    let viewport = Viewport { top: 0, height: 20 };
    assert_eq!(resolve_row(&messages, viewport, 0, 6), Some((1, "a\n".to_string())));
    assert_eq!(resolve_row(&messages, viewport, 0, 7), None);
}

#[test]
fn viewport_tells_its_rows() {
    let viewport = Viewport { top: 65530, height: 10 };
    assert!(!viewport.holds(65529));
    assert!(viewport.holds(65530));
    assert!(viewport.holds(65535));
    let viewport = Viewport { top: 2, height: 3 };
    assert!(!viewport.holds(1));
    assert!(viewport.holds(2));
    assert!(viewport.holds(4));
    assert!(!viewport.holds(5));
}

#[test]
fn resolver_works_near_the_largest_coordinates() {
    let messages = transcript(&["hello", "hola"]);
    let viewport = Viewport { top: 65530, height: 10 };
    assert_eq!(resolve_row(&messages, viewport, 1, 65535), Some((1, "hola".to_string())));
    assert_eq!(resolve_row(&messages, viewport, u16::MAX, 65535), None);
}

#[test]
fn bottom_offset_shows_the_last_line() {
    let messages = transcript(&["hello", "hola"]);
    assert_eq!(bottom_scroll(&messages, 5), 3);
    assert_eq!(bottom_scroll(&messages, 8), 0);
    assert_eq!(bottom_scroll(&messages, 100), 0);
    assert_eq!(bottom_scroll(&messages, 0), 8);
    assert_eq!(bottom_scroll(&Vec::new(), 0), 0);
}

#[test]
fn bottom_offset_is_held_to_the_largest_offset() {
    let long = "x\n".repeat(70000);
    let messages = vec![long];
    assert_eq!(bottom_scroll(&messages, 10), u16::MAX);
    let exact = "x\n".repeat(65535);
    // 65535 body lines and three more
    assert_eq!(bottom_scroll(&vec![exact.clone()], 4), 65534);
    assert_eq!(bottom_scroll(&vec![exact.clone()], 3), 65535);
    assert_eq!(bottom_scroll(&vec![exact], 0), 65535);
}

#[test]
fn long_line_counts_as_one_line() {
    let long = "palabra ".repeat(100);
    let messages = transcript(&["hello", long.trim_end()]);
    let viewport = Viewport { top: 0, height: 20 };
    assert_eq!(resolve_row(&messages, viewport, 0, 6), Some((1, long.trim_end().to_string())));
    for row in 7..20 {
        assert_eq!(resolve_row(&messages, viewport, 0, row), None);
    }
}
