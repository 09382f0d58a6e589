use steno::animation::PX;
use steno::dictionary::Dictionary;
use steno::scroll::{
    add_fresh_text, scrolled_lines, LayoutError, LayoutOutcome, ScrollController, LOW_WATER_LINES,
};
use steno::text_state::KeyPress;
use steno::text_view::{TextView, FRESH_WORDS};

const LINE: i32 = 30 * PX;

fn typed_view(keys: usize) -> TextView {
    let text = "aaaa bbbb cccc dddd eeee ffff gggg hhhh iiii jjjj";
    let mut view = TextView::new(text);
    for c in text.chars().take(keys) {
        assert!(view.key_down(&KeyPress::Text(c.to_string())));
    }
    view
}

#[test]
fn scrolled_lines_rounds_to_the_nearest_line() {
    assert_eq!(scrolled_lines(0, LINE), 0);
    assert_eq!(scrolled_lines(14_999, LINE), 0);
    assert_eq!(scrolled_lines(15_000, LINE), 1);
    assert_eq!(scrolled_lines(30_000, LINE), 1);
    assert_eq!(scrolled_lines(44_999, LINE), 1);
    assert_eq!(scrolled_lines(45_000, LINE), 2);
    assert_eq!(scrolled_lines(-5, LINE), 0);
    assert_eq!(scrolled_lines(i32::MAX, 1), i32::MAX as usize);
    assert_eq!(scrolled_lines(i32::MAX, i32::MAX), 1);
}

#[test]
fn fresh_controller_has_not_scrolled() {
    let scroll = ScrollController::new();
    assert_eq!(scroll.target_scroll(), 0);
    assert!(scroll.animate_scroll());
}

#[test]
fn caret_on_the_first_lines_does_not_scroll() {
    let mut scroll = ScrollController::new();
    let mut view = typed_view(3);
    let wraps = vec![10, 20, 30, 40];
    let outcome = scroll.after_layout(&mut view, 0, LINE, false, &wraps).unwrap();
    assert_eq!(outcome.truncated_at, None);
    assert!(outcome.needs_text);
    assert_eq!(scroll.target_scroll(), 0);
    let outcome = scroll.after_layout(&mut view, LINE, LINE, false, &wraps).unwrap();
    assert_eq!(outcome.truncated_at, None);
    assert_eq!(scroll.target_scroll(), 0);
    assert!(scroll.animate_scroll());
}

#[test]
fn caret_on_the_third_line_scrolls_by_one_line() {
    let mut scroll = ScrollController::new();
    let mut view = typed_view(22);
    let wraps = vec![10, 20, 30, 40];
    let outcome = scroll.after_layout(&mut view, 2 * LINE, LINE, false, &wraps).unwrap();
    assert_eq!(outcome.truncated_at, None);
    assert_eq!(scroll.target_scroll(), LINE);
    assert_eq!(view.utf8_head(), 22);
}

#[test]
fn text_is_kept_while_the_view_scrolls() {
    let mut scroll = ScrollController::new();
    let mut view = typed_view(22);
    let wraps = vec![10, 20, 30, 40];
    scroll.after_layout(&mut view, 2 * LINE, LINE, false, &wraps).unwrap();
    let outcome = scroll.after_layout(&mut view, 2 * LINE, LINE, true, &wraps).unwrap();
    assert_eq!(outcome.truncated_at, None);
    assert_eq!(view.text().len(), 49);
    assert_eq!(scroll.target_scroll(), LINE);
    assert!(scroll.animate_scroll());
}

#[test]
fn scrolled_line_is_cut_once_the_view_rests() {
    let mut scroll = ScrollController::new();
    let mut view = typed_view(22);
    let wraps = vec![10, 20, 30, 40];
    scroll.after_layout(&mut view, 2 * LINE, LINE, false, &wraps).unwrap();
    let outcome = scroll.after_layout(&mut view, 2 * LINE, LINE, false, &wraps).unwrap();
    assert_eq!(outcome.truncated_at, Some(10));
    assert_eq!(view.text(), "cccc dddd eeee ffff gggg hhhh iiii jjjj");
    assert_eq!(view.utf8_head(), 12);
    assert_eq!(scroll.target_scroll(), 0);
    assert!(!scroll.animate_scroll());
    assert!(outcome.needs_text);

    // The next layout finds the caret one line down again.
    let wraps = vec![10, 20, 30];
    let outcome = scroll.after_layout(&mut view, LINE, LINE, false, &wraps).unwrap();
    assert_eq!(outcome.truncated_at, None);
    assert_eq!(scroll.target_scroll(), 0);
    assert!(scroll.animate_scroll());
}

#[test]
fn fresh_text_is_due_below_the_low_water_mark() {
    assert_eq!(LOW_WATER_LINES, 5);
    let mut scroll = ScrollController::new();
    let mut view = typed_view(3);
    let five = vec![5, 10, 15, 20, 25];
    assert!(!scroll.after_layout(&mut view, 0, LINE, false, &five).unwrap().needs_text);
    let four = vec![5, 10, 15, 20];
    assert!(scroll.after_layout(&mut view, 0, LINE, false, &four).unwrap().needs_text);

    let mut view = typed_view(22);
    let six = vec![5, 10, 15, 20, 25, 30];
    assert!(!scroll.after_layout(&mut view, 2 * LINE, LINE, true, &six).unwrap().needs_text);
    assert_eq!(scroll.target_scroll(), LINE);
    // One line has scrolled past: five of the six are left, four of the five.
    assert!(!scroll.after_layout(&mut view, 2 * LINE, LINE, true, &six).unwrap().needs_text);
    assert!(scroll.after_layout(&mut view, 2 * LINE, LINE, true, &five).unwrap().needs_text);
}

#[test]
fn layout_without_line_height_is_refused() {
    let mut scroll = ScrollController::new();
    let mut view = typed_view(3);
    assert_eq!(
        scroll.after_layout(&mut view, 0, 0, false, &vec![]),
        Err(LayoutError::NoLineHeight)
    );
    assert_eq!(
        scroll.after_layout(&mut view, 0, -LINE, false, &vec![]),
        Err(LayoutError::NoLineHeight)
    );
}

#[test]
fn layout_with_too_few_lines_is_refused() {
    let mut scroll = ScrollController::new();
    let mut view = typed_view(22);
    scroll.after_layout(&mut view, 3 * LINE, LINE, false, &vec![10, 20, 30]).unwrap();
    assert_eq!(scroll.target_scroll(), 2 * LINE);
    assert_eq!(
        scroll.after_layout(&mut view, 3 * LINE, LINE, true, &vec![10]),
        Err(LayoutError::MissingWrapBoundary)
    );
    assert_eq!(scroll.target_scroll(), 2 * LINE);
    assert_eq!(view.text().len(), 49);
}

#[test]
fn cut_behind_the_caret_is_refused() {
    let mut scroll = ScrollController::new();
    let mut view = typed_view(22);
    scroll.after_layout(&mut view, 2 * LINE, LINE, false, &vec![10, 20, 30]).unwrap();
    for _ in 0..15 {
        assert!(view.key_down(&KeyPress::Backspace));
    }
    assert_eq!(view.utf8_head(), 7);
    assert_eq!(
        scroll.after_layout(&mut view, 0, LINE, false, &vec![10, 20, 30]),
        Err(LayoutError::BadCut)
    );
    assert_eq!(view.text().len(), 49);
    assert_eq!(scroll.target_scroll(), LINE);
}

#[test]
fn scroll_offset_glides_to_its_target() {
    let mut scroll = ScrollController::new();
    let mut view = typed_view(22);
    scroll.after_layout(&mut view, 2 * LINE, LINE, false, &vec![10, 20, 30]).unwrap();
    let mut current = 0;
    // Ten milliseconds at twenty per second: a fifth of the way.
    assert!(scroll.animate(&mut current, 10_000, true));
    assert_eq!(current, 6 * PX);
    assert!(scroll.animate(&mut current, 10_000, true));
    assert_eq!(current, 10_800);
    assert!(scroll.animate(&mut current, 50_000, true));
    assert_eq!(current, LINE);
    assert!(!scroll.animate(&mut current, 10_000, true));
    assert_eq!(current, LINE);
}

#[test]
fn scroll_offset_snaps_in_an_inactive_window() {
    let mut scroll = ScrollController::new();
    let mut view = typed_view(22);
    scroll.after_layout(&mut view, 2 * LINE, LINE, false, &vec![10, 20, 30]).unwrap();
    let mut current = 0;
    assert!(!scroll.animate(&mut current, 10_000, false));
    assert_eq!(current, LINE);
}

#[test]
fn scroll_offset_snaps_within_half_a_pixel() {
    let mut scroll = ScrollController::new();
    let mut view = typed_view(22);
    scroll.after_layout(&mut view, 2 * LINE, LINE, false, &vec![10, 20, 30]).unwrap();
    let mut current = LINE - 500;
    assert!(!scroll.animate(&mut current, 1, true));
    assert_eq!(current, LINE);
    let mut current = LINE - 501;
    assert!(scroll.animate(&mut current, 1, true));
    assert_eq!(current, LINE - 500);
}

#[test]
fn scroll_offset_jumps_after_a_cut() {
    let mut scroll = ScrollController::new();
    let mut view = typed_view(22);
    let wraps = vec![10, 20, 30];
    scroll.after_layout(&mut view, 2 * LINE, LINE, false, &wraps).unwrap();
    scroll.after_layout(&mut view, 2 * LINE, LINE, false, &wraps).unwrap();
    let mut current = LINE;
    assert!(!scroll.animate(&mut current, 10_000, true));
    assert_eq!(current, 0);
}

#[test]
fn fresh_words_join_the_text_when_they_are_due() {
    let data: String = (0..40).map(|i| format!("w{}\n", i)).collect();
    let dictionary = Dictionary::new(&data, 250);
    let mut view = typed_view(3);
    let before = view.text();

    let idle = LayoutOutcome { truncated_at: None, needs_text: false };
    add_fresh_text(&mut view, &dictionary, &idle);
    assert_eq!(view.text(), before);

    let due = LayoutOutcome { truncated_at: None, needs_text: true };
    add_fresh_text(&mut view, &dictionary, &due);
    let text = view.text();
    assert!(text.starts_with(&format!("{} w", before)));
    let fresh: Vec<&str> = text[before.len() + 1..].split(' ').collect();
    assert_eq!(FRESH_WORDS, 16);
    assert_eq!(fresh.len(), 16);
    let mut distinct = fresh.clone();
    distinct.sort();
    distinct.dedup();
    assert_eq!(distinct.len(), 16);
    assert_eq!(view.utf8_head(), 3);
    assert_eq!(view.char_head(), 3);

    let mut view = typed_view(3);
    add_fresh_text(&mut view, &Dictionary::new("", 250), &due);
    assert_eq!(view.text(), format!("{} ", before));
}
