use kfm_na::input_bar::{word_span_at, InputBarState, SelAnchor};
use kfm_na::ime_queue::Inject;

#[test]
fn typing_and_backspace() {
    let mut b = InputBarState::new();
    b.insert_text("你好");
    b.insert_text("x");
    assert_eq!(b.snap().text, "你好x");
    assert_eq!(b.cursor(), 3);
    b.set_cursor(1);
    assert!(b.snap().handle);
    b.insert_text("们");
    assert_eq!(b.snap().text, "你们好x");
    assert!(!b.snap().handle);
    b.backspace();
    assert_eq!(b.snap().text, "你好x");
    assert_eq!(b.cursor(), 1);
    b.set_cursor(0);
    b.backspace();
    assert_eq!(b.snap().text, "你好x");
}

#[test]
fn composing_is_virtual_until_finished() {
    let mut b = InputBarState::new();
    b.insert_text("ab");
    b.set_cursor(1);
    b.set_composing("ni");
    let s = b.snap();
    assert_eq!(s.text, "ab");
    assert_eq!(InputBarState::display_text(&s), "anib");
    b.backspace();
    assert_eq!(b.snap().composing, "n");
    b.finish_composing();
    assert_eq!(b.snap().text, "anb");
    assert_eq!(b.cursor(), 2);
    b.set_composing("zz");
    b.insert_text("Z");
    assert_eq!(b.snap().text, "anZb");
    assert_eq!(b.snap().composing, "");
}

#[test]
fn selection_anchors_swap_when_crossed() {
    let mut b = InputBarState::new();
    b.insert_text("hello world");
    assert_eq!(b.set_selection_start(3), SelAnchor::Left);
    b.enter_selection(2);
    assert_eq!(b.set_selection_end(5), SelAnchor::Right);
    assert_eq!(b.selected_text(), Some("llo".to_string()));
    assert_eq!(b.set_selection_start(8), SelAnchor::Right);
    let s = b.snap();
    assert_eq!((s.selection_start, s.selection_end), (5, 8));
    assert_eq!(b.set_selection_end(1), SelAnchor::Left);
    let s = b.snap();
    assert_eq!((s.selection_start, s.selection_end), (1, 5));
    b.set_selection_span(9, 99);
    let s = b.snap();
    assert_eq!((s.selection_start, s.selection_end), (9, 11));
    assert_eq!(b.text_before_cursor(3), "wor");
    assert_eq!(b.text_after_cursor(3), "");
    b.insert_text("!");
    assert_eq!(b.snap().text, "hello wor!");
    assert!(!b.snap().selecting);
}

#[test]
fn select_all_delete_and_clear() {
    let mut b = InputBarState::new();
    b.insert_text("abc");
    b.select_all();
    assert_eq!(b.selected_text(), Some("abc".to_string()));
    assert!(b.delete_selection());
    assert_eq!(b.snap().text, "");
    assert!(!b.delete_selection());
    b.insert_or_replace("xyz");
    b.set_caret_or_selection(2, 0);
    b.insert_or_replace("Q");
    assert_eq!(b.snap().text, "Qz");
    b.replace_range(5, 1, "__");
    assert_eq!(b.snap().text, "Q__");
    assert_eq!(b.cursor(), 3);
    b.clear_selection();
    b.enter_selection(1);
    b.clear_selection();
    assert_eq!(b.cursor(), 1);
    b.clear();
    assert_eq!(b.snap().text, "");
}

#[test]
fn enter_takes_text_and_keeps_focus() {
    let mut b = InputBarState::new();
    assert_eq!(b.enter(), None);
    b.focus();
    b.insert_text("hi");
    assert_eq!(b.enter(), Some("hi".to_string()));
    assert!(b.is_focused());
    assert_eq!(b.snap().text, "");
    b.unfocus();
    assert!(!b.is_focused());
}

#[test]
fn viewport_scrolling_clamps() {
    let mut b = InputBarState::new();
    b.set_lines(0);
    assert_eq!(b.lines(), 1);
    b.set_lines(5);
    b.scroll_by_px(-10, 200);
    let s = b.snap();
    assert!(!s.follow);
    assert_eq!(s.scroll_px, 105);
    b.scroll_by(-5, 200);
    assert_eq!(b.snap().scroll_px, 0);
    b.scroll_by(1, 200);
    assert_eq!(b.snap().scroll_px, 63);
    b.insert_text("a");
    assert!(b.snap().follow);
}

#[test]
fn submit_hands_text_to_sender() {
    let mut b = InputBarState::new();
    assert_eq!(b.submit(), None);
    b.insert_text("你好");
    assert_eq!(b.submit(), Some("你好".to_string()));
    assert_eq!(b.snap().text, "");
    assert_eq!(b.submit(), None);
}

#[test]
fn keyboard_routing_while_focused() {
    let mut b = InputBarState::new();
    b.focus();
    b.apply_inject(&Inject::Text("ab".into()));
    b.apply_inject(&Inject::Key(66));
    b.apply_inject(&Inject::Text("c".into()));
    assert_eq!(b.snap().text, "ab\nc");
    b.apply_inject(&Inject::Key(67));
    assert_eq!(b.snap().text, "ab\n");
    b.apply_inject(&Inject::Key(21));
    assert_eq!(b.snap().text, "ab\n");
    assert!(b.is_focused());
    b.apply_inject(&Inject::Key(111));
    assert!(!b.is_focused());
}

#[test]
fn long_press_word_span() {
    let text = "ab cd";
    let word: Vec<bool> = text.chars().map(|c| c.is_alphanumeric()).collect();
    assert_eq!(word_span_at(text, 1, &word), Some((0, 2)));
    assert_eq!(word_span_at(text, 2, &word), Some((2, 3)));
    assert_eq!(word_span_at(text, 99, &word), Some((3, 5)));
    assert_eq!(word_span_at("", 0, &[]), None);
}
