use babelfish::model::{LanguagePair, Model};
use babelfish::ui::{
    chat_lines, compose, copied_preview, header, input_box, input_height, record_viewport,
    render, split_frame, Area, ChatLine, FrameAreas, Tab,
};
use std::time::Instant;

fn session() -> Model {
    let pairs = vec![
        LanguagePair::new("es_en".to_string(), "Translate Spanish.".to_string()),
        LanguagePair::new("pt_en".to_string(), "Translate Portuguese.".to_string()),
    ];
    Model::new("key".to_string(), pairs)
}

fn exchange(model: &mut Model, source: &str, translation: &str) {
    model.submit(source.to_string()).unwrap();
    assert!(model.complete_exchange(translation.to_string()));
}

fn area(x: u16, y: u16, width: u16, height: u16) -> Area {
    Area { x, y, width, height }
}

fn body(entry: usize, text: &str, highlighted: bool) -> ChatLine {
    ChatLine::Body { entry, text: text.to_string(), highlighted }
}

#[test]
fn input_region_has_one_to_three_lines_and_padding() {
    assert_eq!(input_height(""), 3);
    assert_eq!(input_height("a"), 3);
    assert_eq!(input_height("a\nb"), 4);
    assert_eq!(input_height("a\nb\nc"), 5);
    assert_eq!(input_height("a\nb\nc\nd\ne"), 5);
    assert_eq!(input_height("a\n"), 3);
}

#[test]
fn frame_is_split_into_four_rows() {
    let areas = split_frame(area(0, 0, 80, 24), input_height(""));
    assert_eq!(areas.header, area(0, 0, 80, 3));
    assert_eq!(areas.chat, area(0, 3, 80, 16));
    assert_eq!(areas.input, area(0, 19, 80, 3));
    assert_eq!(areas.help, area(0, 22, 80, 2));
}

#[test]
fn frame_records_the_transcript_region() {
    let mut model = session();
    model.input = "one\ntwo\nthree".to_string();
    let areas = render(area(2, 1, 60, 30), &mut model).areas;
    assert_eq!(areas.header, area(2, 1, 60, 3));
    assert_eq!(areas.chat, area(2, 4, 60, 20));
    assert_eq!(areas.input, area(2, 24, 60, 5));
    assert_eq!(areas.help, area(2, 29, 60, 2));
    assert_eq!(model.chat_area_y, 4);
    assert_eq!(model.chat_area_height, 20);
    assert_eq!(model.input, "one\ntwo\nthree");
}

#[test]
fn rows_keep_the_edges_of_a_huge_area() {
    let areas = split_frame(area(7, 0, 1000, 1000), 3);
    for row in [areas.header, areas.chat, areas.input, areas.help] {
        assert_eq!(row.x, 7);
        assert_eq!(row.width, 1000);
    }
    assert_eq!(areas.chat.height, 1000 - 3 - 3 - 2);
}

#[test]
fn short_copy_is_repeated_whole() {
    assert_eq!(copied_preview("hola"), "  \u{1f4cb} hola");
    assert_eq!(copied_preview(""), "  \u{1f4cb} ");
    let thirty = "123456789012345678901234567890";
    assert_eq!(copied_preview(thirty), format!("  \u{1f4cb} {}", thirty));
}

#[test]
fn long_copy_is_cut_after_thirty_bytes() {
    let long = "1234567890123456789012345678901";
    assert_eq!(copied_preview(long), "  \u{1f4cb} 123456789012345678901234567890...");
}

#[test]
fn cut_never_splits_a_character() {
    // 29 bytes, then a character of two bytes
    let text = format!("{}\u{e9}tail", "a".repeat(29));
    assert_eq!(copied_preview(&text), format!("  \u{1f4cb} {}...", "a".repeat(29)));
    // the cut falls between characters
    let text = format!("{}\u{e9}tail", "a".repeat(28));
    assert_eq!(copied_preview(&text), format!("  \u{1f4cb} {}\u{e9}...", "a".repeat(28)));
}

#[test]
fn header_marks_the_selected_pair() {
    let mut model = session();
    model.next_pair();
    let shown = header(&model);
    assert_eq!(
        shown.tabs,
        vec![
            Tab { label: "ES \u{2194} EN".to_string(), selected: false },
            Tab { label: "PT \u{2194} EN".to_string(), selected: true },
        ]
    );
    assert!(!shown.translating);
    assert_eq!(shown.copied_preview, None);
}

#[test]
fn header_tells_of_work_and_copies() {
    let mut model = session();
    exchange(&mut model, "hola", "hello");
    model.record_copy(1, Instant::now());
    model.submit("otra".to_string()).unwrap();
    let shown = header(&model);
    assert!(shown.translating);
    assert_eq!(shown.copied_preview, Some("  \u{1f4cb} hello".to_string()));
}

#[test]
fn transcript_is_drawn_entry_by_entry() {
    let mut model = session();
    exchange(&mut model, "hola\nmundo", "hello\nworld");
    assert_eq!(
        chat_lines(&model, 80),
        vec![
            ChatLine::UserRule(74),
            ChatLine::Blank,
            body(0, "hola", false),
            body(0, "mundo", false),
            ChatLine::Blank,
            ChatLine::TranslationRule(66),
            ChatLine::Blank,
            body(1, "hello", false),
            body(1, "world", false),
            ChatLine::Blank,
        ]
    );
}

#[test]
fn rules_are_never_shorter_than_ten() {
    let mut model = session();
    exchange(&mut model, "a", "b");
    for width in [0, 5, 6, 14, 15, 16, 23] {
        let lines = chat_lines(&model, width);
        assert_eq!(lines[0], ChatLine::UserRule(if width > 16 { width as usize - 6 } else { 10 }));
        assert_eq!(lines[4], ChatLine::TranslationRule(10));
    }
    let lines = chat_lines(&model, 25);
    assert_eq!(lines[0], ChatLine::UserRule(19));
    assert_eq!(lines[4], ChatLine::TranslationRule(11));
    let lines = chat_lines(&model, u16::MAX);
    assert_eq!(lines[0], ChatLine::UserRule(65529));
    assert_eq!(lines[4], ChatLine::TranslationRule(65521));
}

#[test]
fn copied_translation_is_highlighted() {
    let mut model = session();
    exchange(&mut model, "hola", "hello");
    exchange(&mut model, "adi\u{f3}s", "good\nbye");
    model.record_copy(3, Instant::now());
    let lines = chat_lines(&model, 80);
    assert_eq!(lines[2], body(0, "hola", false));
    assert_eq!(lines[6], body(1, "hello", false));
    assert_eq!(lines[10], body(2, "adi\u{f3}s", false));
    assert_eq!(lines[14], body(3, "good", true));
    assert_eq!(lines[15], body(3, "bye", true));
}

#[test]
fn user_entry_is_never_highlighted() {
    let mut model = session();
    exchange(&mut model, "hola", "hello");
    model.copied_index = Some(0);
    let lines = chat_lines(&model, 80);
    assert_eq!(lines[2], body(0, "hola", false));
}

#[test]
fn resolver_finds_what_is_drawn() {
    let mut model = session();
    exchange(&mut model, "hola\nmundo", "hello\nworld");
    exchange(&mut model, "", "nothing");
    exchange(&mut model, "uno", "one\r\ntwo\n");
    model.chat_area_y = 2;
    model.chat_area_height = 12;
    let lines = chat_lines(&model, 80);
    for scroll in 0..(lines.len() as u16 + 3) {
        model.scroll = scroll;
        for row in 0..20u16 {
            let expected = if row < 2 || row >= 14 {
                None
            } else {
                match lines.get((row - 2 + scroll) as usize) {
                    Some(ChatLine::Body { entry, .. }) if entry % 2 == 1 => {
                        Some((*entry, model.messages[*entry].clone()))
                    }
                    _ => None,
                }
            };
            assert_eq!(model.get_translation_at(row), expected, "scroll {} row {}", scroll, row);
        }
    }
}

#[test]
fn empty_input_shows_the_placeholder() {
    let shown = input_box("", area(0, 19, 80, 3));
    assert!(shown.placeholder);
    assert!(shown.lines.is_empty());
    assert_eq!((shown.cursor_x, shown.cursor_y), (3, 20));
}

#[test]
fn cursor_stands_behind_the_last_line() {
    let shown = input_box("hola", area(0, 19, 80, 3));
    assert!(!shown.placeholder);
    assert_eq!(shown.lines, vec!["hola"]);
    assert_eq!((shown.cursor_x, shown.cursor_y), (7, 20));
    let shown = input_box("hola\nmundo!", area(5, 10, 80, 4));
    assert_eq!(shown.lines, vec!["hola", "mundo!"]);
    assert_eq!((shown.cursor_x, shown.cursor_y), (14, 12));
}

#[test]
fn cursor_column_counts_bytes() {
    let shown = input_box("\u{e9}\u{e9}", area(0, 0, 80, 3));
    assert_eq!(shown.cursor_x, 7);
}

#[test]
fn only_the_last_three_lines_of_input_are_shown() {
    let shown = input_box("1\n2\n3\n4\n55", area(0, 10, 80, 5));
    assert_eq!(shown.lines, vec!["3", "4", "55"]);
    assert_eq!((shown.cursor_x, shown.cursor_y), (5, 13));
}

#[test]
fn line_feed_alone_is_one_empty_line() {
    let shown = input_box("\n", area(0, 10, 80, 3));
    assert!(!shown.placeholder);
    assert_eq!(shown.lines, vec![""]);
    assert_eq!((shown.cursor_x, shown.cursor_y), (3, 11));
}

#[test]
fn cursor_is_held_on_the_screen() {
    let shown = input_box("hola", area(65534, 65535, 80, 3));
    assert_eq!((shown.cursor_x, shown.cursor_y), (65535, 65535));
    let long = "x".repeat(70000);
    let shown = input_box(&long, area(0, 0, 80, 3));
    assert_eq!(shown.cursor_x, 65535);
}

#[test]
fn frame_holds_everything_that_is_shown() {
    let mut model = session();
    exchange(&mut model, "hola", "hello");
    model.input = "next".to_string();
    model.scroll = 1;
    let screen = render(area(0, 0, 80, 24), &mut model);
    assert_eq!(screen.areas.chat, area(0, 3, 80, 16));
    assert_eq!((model.chat_area_y, model.chat_area_height), (3, 16));
    assert_eq!(screen.header, header(&model));
    assert_eq!(screen.chat, chat_lines(&model, 80));
    assert_eq!(screen.chat.len(), 8);
    assert_eq!(screen.scroll, 1);
    assert_eq!(screen.input, input_box("next", screen.areas.input));
    // the translation is drawn on line 6, which with one line scrolled away is row 3 + 5
    assert_eq!(model.get_translation_at(8), Some((1, "hello".to_string())));
    assert_eq!(model.get_translation_at(9), None);
}

#[test]
fn regions_follow_the_rows_asked_for_the_input() {
    let areas = split_frame(area(0, 0, 80, 24), 5);
    assert_eq!(areas.header, area(0, 0, 80, 3));
    assert_eq!(areas.chat, area(0, 3, 80, 14));
    assert_eq!(areas.input, area(0, 17, 80, 5));
    assert_eq!(areas.help, area(0, 22, 80, 2));
}

#[test]
fn viewport_is_recorded_as_given() {
    let mut model = session();
    exchange(&mut model, "hola", "hello");
    model.scroll = 0;
    record_viewport(&mut model, area(9, 7, 40, 11));
    assert_eq!((model.chat_area_y, model.chat_area_height), (7, 11));
    assert_eq!(model.scroll, 0);
    assert_eq!(model.messages, vec!["hola", "hello"]);
    assert_eq!(model.get_translation_at(7 + 6), Some((1, "hello".to_string())));
}

#[test]
fn frame_is_composed_in_the_regions_given() {
    let mut model = session();
    exchange(&mut model, "hola", "hello");
    model.input = "a\nb".to_string();
    let areas = FrameAreas {
        header: area(1, 0, 30, 3),
        chat: area(1, 3, 30, 6),
        input: area(1, 9, 30, 4),
        help: area(1, 13, 30, 2),
    };
    let screen = compose(areas, &mut model);
    assert_eq!(screen.areas, areas);
    assert_eq!((model.chat_area_y, model.chat_area_height), (3, 6));
    assert_eq!(screen.chat[0], ChatLine::UserRule(24));
    assert_eq!(screen.chat[4], ChatLine::TranslationRule(16));
    assert_eq!(screen.input.lines, vec!["a", "b"]);
    assert_eq!((screen.input.cursor_x, screen.input.cursor_y), (5, 11));
    assert_eq!(screen.scroll, model.scroll);
}

#[test]
fn any_area_is_split_into_rows_of_its_width() {
    let extremes = [0u16, 1, 2, 3, 9, 10, 11, 24, 255, 256, 32767, 65534, 65535];
    for &height in &extremes {
        for &y in &[0u16, 1, 65535] {
            for &input in &[0u16, 3, 5, 65535] {
                let whole = area(4, y, 80, height);
                let areas = split_frame(whole, input);
                for row in [areas.header, areas.chat, areas.input, areas.help] {
                    assert_eq!((row.x, row.width), (4, 80));
                    assert!(y <= row.y);
                    assert!(row.y as u32 + row.height as u32 <= y as u32 + height as u32);
                }
            }
        }
    }
    for &width in &extremes {
        let areas = split_frame(area(65535, 0, width, 24), 3);
        for row in [areas.header, areas.chat, areas.input, areas.help] {
            assert_eq!((row.x, row.width), (65535, width));
        }
    }
}

#[test]
fn small_screen_still_gives_a_frame() {
    let mut model = session();
    exchange(&mut model, "hola", "hello");
    for height in 0..12 {
        let screen = render(area(0, 0, 20, height), &mut model);
        assert_eq!(model.chat_area_y, screen.areas.chat.y);
        assert_eq!(model.chat_area_height, screen.areas.chat.height);
        assert_eq!(screen.chat.len(), 8);
    }
}
