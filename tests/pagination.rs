use manga_viewer::metadata::ComicMetadata;
use manga_viewer::pager::{navigate, resume_index, Motion, NavEvent};

#[test]
fn next_and_previous_move_one_chunk() {
    let n = navigate(2, NavEvent::Next, 10, true);
    assert_eq!((n.index, n.reset_scroll, n.motion), (3, true, Motion::Forward));
    let n = navigate(2, NavEvent::Previous, 10, true);
    assert_eq!((n.index, n.reset_scroll, n.motion), (1, true, Motion::Backward));
    let n = navigate(2, NavEvent::Stay, 10, true);
    assert_eq!((n.index, n.reset_scroll, n.motion), (2, false, Motion::Still));
}

#[test]
fn index_is_clamped_at_both_ends() {
    let n = navigate(0, NavEvent::Previous, 10, true);
    assert_eq!((n.index, n.motion), (0, Motion::Still));
    let n = navigate(9, NavEvent::Next, 10, true);
    assert_eq!((n.index, n.motion), (9, Motion::Still));
    let n = navigate(25, NavEvent::Stay, 10, true);
    assert_eq!((n.index, n.motion), (9, Motion::Backward));
    let n = navigate(usize::MAX, NavEvent::Next, 3, true);
    assert_eq!(n.index, 2);
}

#[test]
fn scroll_is_kept_when_landing_on_the_placeholder() {
    // Five chunks known and pages remaining: slot 5 is the placeholder.
    let n = navigate(4, NavEvent::Next, 6, false);
    assert_eq!((n.index, n.reset_scroll), (5, false));
    let n = navigate(3, NavEvent::Next, 6, false);
    assert_eq!((n.index, n.reset_scroll), (4, true));
    let n = navigate(4, NavEvent::Next, 6, true);
    assert_eq!((n.index, n.reset_scroll), (5, true));
}

#[test]
fn nothing_moves_without_chunks() {
    let n = navigate(3, NavEvent::Next, 0, true);
    assert_eq!((n.index, n.reset_scroll, n.motion), (3, false, Motion::Still));
}

#[test]
fn any_event_sequence_stays_in_range() {
    let events = [NavEvent::Next, NavEvent::Next, NavEvent::Previous, NavEvent::Next, NavEvent::Stay];
    let mut index = 0usize;
    for round in 0..40usize {
        let count = 1 + round % 4;
        index = navigate(index, events[round % events.len()], count, round % 3 == 0).index;
        assert!(index < count);
    }
}

#[test]
fn resume_position_survives_close_and_reopen() {
    let record = ComicMetadata::for_new_document("/books/one", 100);
    let closed = record.on_close(12, 7, 200);
    assert_eq!(closed.last_seen_chunk, 7);
    assert_eq!(closed.chunk_count, 12);
    assert_eq!(closed.last_time_opened, 200);
    assert_eq!(resume_index(closed.last_seen_chunk, 12), 7);
    assert_eq!(resume_index(closed.last_seen_chunk, 5), 4);
    assert_eq!(resume_index(closed.last_seen_chunk, 0), 0);
}
