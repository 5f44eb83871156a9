use speedreader::rsvp::{orp_display, rsvp_key, rsvp_tick, RsvpAdvance, RsvpKey, RsvpState, SpeedChange};
use speedreader::session::{word_widths, RsvpWord};
use speedreader::viewer::{
    clamp_view, inner_extent, scroll_after_draw, view_layout, viewer_event, word_at, ViewLine, ViewerEvent, ViewerKey,
    ViewerState, WordPosition,
};

fn pos(index: usize, row: u32, col_start: u32, col_end: u32) -> WordPosition {
    WordPosition { index, row, col_start, col_end }
}

#[test]
fn words_wrap_at_the_view_width() {
    let l = view_layout(&vec![3, 5, 2], 0, 0, 10, 5);
    assert_eq!(l.positions, vec![pos(0, 0, 0, 3), pos(1, 0, 4, 9), pos(2, 1, 0, 2)]);
    assert_eq!(l.lines, vec![ViewLine::Words { first: 0, count: 2 }, ViewLine::Words { first: 2, count: 1 }]);
    assert_eq!(l.end, 3);
    assert_eq!(l.next_view_offset, 2);
    assert!(!l.needs_scroll_down);
}

#[test]
fn a_long_word_stays_on_an_empty_row() {
    let l = view_layout(&vec![20, 1], 0, 0, 10, 5);
    assert_eq!(l.positions, vec![pos(0, 0, 0, 20), pos(1, 1, 0, 1)]);
}

#[test]
fn pages_open_with_a_heading() {
    let widths = vec![1u16; 260];
    let l = view_layout(&widths, 249, 249, 40, 10);
    assert_eq!(l.positions[0], pos(249, 0, 0, 1));
    assert_eq!(l.positions[1], pos(250, 4, 0, 1));
    assert_eq!(
        &l.lines[0..4],
        &[
            ViewLine::Words { first: 249, count: 1 },
            ViewLine::Blank,
            ViewLine::PageMarker { page: 2, word: 250 },
            ViewLine::Blank,
        ]
    );
    assert_eq!(l.end, 260);
    assert_eq!(l.next_view_offset, 250);
}

#[test]
fn the_view_stops_when_full() {
    let l = view_layout(&vec![4, 4, 4, 4, 4], 0, 4, 9, 2);
    assert_eq!(l.positions, vec![pos(0, 0, 0, 4), pos(1, 0, 5, 9), pos(2, 1, 0, 4), pos(3, 1, 5, 9)]);
    assert_eq!(l.lines.len(), 2);
    assert_eq!(l.end, 4);
    assert!(l.needs_scroll_down);
    let s = scroll_after_draw(ViewerState { view_offset: 0, cursor: 4 }, &l);
    assert_eq!(s, Some(ViewerState { view_offset: 2, cursor: 4 }));
}

#[test]
fn a_view_without_words_scrolls_only_toward_the_cursor() {
    let l = view_layout(&vec![4, 4], 0, 1, 9, 0);
    assert!(l.positions.is_empty());
    assert!(l.needs_scroll_down);
    assert_eq!(scroll_after_draw(ViewerState { view_offset: 0, cursor: 1 }, &l), Some(ViewerState { view_offset: 1, cursor: 1 }));
    let l = view_layout(&vec![4, 4], 1, 1, 9, 0);
    assert!(l.positions.is_empty());
    assert!(!l.needs_scroll_down);
    assert_eq!(scroll_after_draw(ViewerState { view_offset: 1, cursor: 1 }, &l), None);
    let l = view_layout(&vec![4, 4], 0, 0, 9, 3);
    assert_eq!(scroll_after_draw(ViewerState { view_offset: 0, cursor: 0 }, &l), None);
}

#[test]
fn a_page_heading_that_fills_the_view_scrolls_past_it() {
    let widths = vec![1u16; 300];
    let l = view_layout(&widths, 250, 260, 40, 3);
    assert!(l.positions.is_empty());
    assert_eq!(
        l.lines,
        vec![ViewLine::Blank, ViewLine::PageMarker { page: 2, word: 250 }, ViewLine::Blank]
    );
    assert!(l.needs_scroll_down);
    assert_eq!(
        scroll_after_draw(ViewerState { view_offset: 250, cursor: 260 }, &l),
        Some(ViewerState { view_offset: 251, cursor: 260 })
    );
    let l = view_layout(&widths, 250, 250, 40, 3);
    assert!(!l.needs_scroll_down);
    let l = view_layout(&widths, 250, 260, 40, 4);
    assert_eq!(l.positions.len(), 20);
    assert_eq!(l.positions[0], pos(250, 3, 0, 1));
    assert!(!l.needs_scroll_down);
}

#[test]
fn clicks_select_words() {
    let l = view_layout(&vec![3, 5, 2], 0, 0, 10, 5);
    assert_eq!(word_at(&l.positions, 0, 0), Some(0));
    assert_eq!(word_at(&l.positions, 3, 0), Some(0));
    assert_eq!(word_at(&l.positions, 4, 0), Some(1));
    assert_eq!(word_at(&l.positions, 9, 0), Some(1));
    assert_eq!(word_at(&l.positions, 10, 0), None);
    assert_eq!(word_at(&l.positions, 1, 1), Some(2));
    assert_eq!(word_at(&l.positions, 1, 2), None);
    let s = ViewerState { view_offset: 0, cursor: 0 };
    let r = viewer_event(s, ViewerEvent::Click { column: 6, row: 1 }, &l.positions, 3, false);
    assert_eq!(r.state.cursor, 1);
    assert!(!r.quit);
    let r = viewer_event(s, ViewerEvent::Click { column: 0, row: 0 }, &l.positions, 3, false);
    assert_eq!(r.state.cursor, 0);
    let r = viewer_event(s, ViewerEvent::Click { column: 40, row: 9 }, &l.positions, 3, false);
    assert_eq!(r.state, s);
}

#[test]
fn keys_move_the_cursor_within_the_document() {
    let s = ViewerState { view_offset: 10, cursor: 100 };
    let key = |k| viewer_event(s, ViewerEvent::Key(k), &vec![], 300, false).state.cursor;
    assert_eq!(key(ViewerKey::Left), 99);
    assert_eq!(key(ViewerKey::Right), 101);
    assert_eq!(key(ViewerKey::Up), 80);
    assert_eq!(key(ViewerKey::Down), 120);
    assert_eq!(key(ViewerKey::PageUp), 0);
    assert_eq!(key(ViewerKey::PageDown), 299);
    assert_eq!(key(ViewerKey::Other), 100);
    assert!(viewer_event(s, ViewerEvent::Key(ViewerKey::Quit), &vec![], 300, false).quit);
    assert_eq!(viewer_event(s, ViewerEvent::Nothing, &vec![], 300, false).state, s);
    let z = ViewerState { view_offset: 0, cursor: 0 };
    assert_eq!(viewer_event(z, ViewerEvent::Key(ViewerKey::Left), &vec![], 1, false).state.cursor, 0);
    assert_eq!(viewer_event(z, ViewerEvent::Key(ViewerKey::Right), &vec![], 1, false).state.cursor, 0);
}

#[test]
fn the_view_follows_the_cursor_up() {
    assert_eq!(clamp_view(ViewerState { view_offset: 50, cursor: 20 }), ViewerState { view_offset: 20, cursor: 20 });
    assert_eq!(clamp_view(ViewerState { view_offset: 5, cursor: 20 }), ViewerState { view_offset: 5, cursor: 20 });
    assert_eq!(inner_extent(80), 78);
    assert_eq!(inner_extent(1), 0);
}

#[test]
fn widths_count_characters() {
    let words = vec![
        RsvpWord { text: "hello".to_string(), orp_index: 1 },
        RsvpWord { text: "héllo".to_string(), orp_index: 1 },
        RsvpWord { text: "x".repeat(70000), orp_index: 0 },
    ];
    assert_eq!(word_widths(&words), vec![5, 5, (70000usize as u16)]);
}

#[test]
fn the_recognition_point_stays_centred() {
    let d = orp_display("hello", 1);
    assert_eq!((d.left.as_str(), d.center.as_str(), d.right.as_str()), ("  h", "e", "llo"));
    let d = orp_display("hi", 9);
    assert_eq!((d.left.as_str(), d.center.as_str(), d.right.as_str()), ("h", "i", " "));
    let d = orp_display("a", 0);
    assert_eq!((d.left.as_str(), d.center.as_str(), d.right.as_str()), ("", "a", ""));
    let d = orp_display("über", 2);
    assert_eq!((d.left.as_str(), d.center.as_str(), d.right.as_str()), ("üb", "e", "r "));
}

#[test]
fn presentation_keys() {
    let s = RsvpState { current: 5, paused: false };
    let r = rsvp_key(s, RsvpKey::TogglePause, 100, true);
    assert!(r.state.paused && r.save_progress);
    let r = rsvp_key(RsvpState { current: 5, paused: true }, RsvpKey::TogglePause, 100, true);
    assert!(!r.state.paused && !r.save_progress);
    assert!(!rsvp_key(s, RsvpKey::TogglePause, 100, false).save_progress);
    assert_eq!(rsvp_key(s, RsvpKey::Back, 100, false).state.current, 0);
    assert_eq!(rsvp_key(s, RsvpKey::Forward, 100, false).state.current, 15);
    assert_eq!(rsvp_key(s, RsvpKey::Forward, 12, false).state.current, 11);
    assert_eq!(rsvp_key(s, RsvpKey::Faster, 100, false).speed, SpeedChange::Faster);
    assert_eq!(rsvp_key(s, RsvpKey::Slower, 100, false).speed, SpeedChange::Slower);
    assert_eq!(rsvp_key(s, RsvpKey::Other, 100, false).speed, SpeedChange::Unchanged);
    assert!(rsvp_key(s, RsvpKey::Quit, 100, false).quit);
}

#[test]
fn presentation_advances_when_the_delay_is_over() {
    let s = RsvpState { current: 5, paused: false };
    let adv = |state, finished, save_progress| RsvpAdvance { state, finished, save_progress };
    assert_eq!(rsvp_tick(s, true, 100, true), adv(RsvpState { current: 6, paused: false }, false, false));
    assert_eq!(rsvp_tick(s, false, 100, true), adv(s, false, false));
    let p = RsvpState { current: 5, paused: true };
    assert_eq!(rsvp_tick(p, true, 100, true), adv(p, false, false));
    assert_eq!(rsvp_tick(s, true, 6, true), adv(RsvpState { current: 6, paused: false }, true, true));
    assert_eq!(rsvp_tick(s, true, 6, false), adv(RsvpState { current: 6, paused: false }, true, false));
}

#[test]
fn quitting_a_book_saves_the_position() {
    let s = RsvpState { current: 5, paused: false };
    let r = rsvp_key(s, RsvpKey::Quit, 100, true);
    assert!(r.quit && r.save_progress);
    assert_eq!(r.state, s);
    assert!(!rsvp_key(s, RsvpKey::Quit, 100, false).save_progress);
    let v = ViewerState { view_offset: 0, cursor: 7 };
    let r = viewer_event(v, ViewerEvent::Key(ViewerKey::Quit), &vec![], 10, true);
    assert!(r.quit && r.save_progress);
    assert_eq!(r.state, v);
    assert!(!viewer_event(v, ViewerEvent::Key(ViewerKey::Quit), &vec![], 10, false).save_progress);
    assert!(!viewer_event(v, ViewerEvent::Key(ViewerKey::Left), &vec![], 10, true).save_progress);
}
