use query_monitor::scroll::{clamp_offset, visible_range, ScrollState};

fn at(offset: usize, cursor: usize) -> ScrollState {
    ScrollState { offset, cursor }
}

fn in_view(s: ScrollState, height: usize, total: usize) -> bool {
    s.offset <= s.cursor
        && s.cursor < s.offset + height
        && s.cursor < total
        && s.offset <= total.saturating_sub(height)
}

#[test]
fn a_new_position_is_the_top() {
    assert_eq!(ScrollState::new(), at(0, 0));
}

#[test]
fn cursor_down_moves_one_line_and_drags_the_window() {
    let mut s = at(0, 0);
    s.cursor_down(3, 10);
    assert_eq!(s, at(0, 1));
    s.cursor_down(3, 10);
    assert_eq!(s, at(0, 2));
    s.cursor_down(3, 10);
    assert_eq!(s, at(1, 3));
    let mut s = at(7, 9);
    s.cursor_down(3, 10);
    assert_eq!(s, at(7, 9));
}

#[test]
fn cursor_up_moves_one_line_and_drags_the_window() {
    let mut s = at(4, 5);
    s.cursor_up(3, 10);
    assert_eq!(s, at(4, 4));
    s.cursor_up(3, 10);
    assert_eq!(s, at(3, 3));
    let mut s = at(0, 0);
    s.cursor_up(3, 10);
    assert_eq!(s, at(0, 0));
}

#[test]
fn pages_are_half_a_window() {
    let mut s = at(0, 0);
    s.page_down(10, 100);
    assert_eq!(s, at(0, 5));
    s.page_down(10, 100);
    assert_eq!(s, at(5, 10));
    s.page_up(10, 100);
    assert_eq!(s, at(5, 5));
    s.page_up(10, 100);
    assert_eq!(s, at(0, 0));
    let mut s = at(8, 17);
    s.page_down(10, 20);
    assert_eq!(s, at(10, 19));
    let mut s = at(3, 4);
    s.page_up(9, 40);
    assert_eq!(s, at(0, 0));
    let mut s = at(0, 0);
    s.page_down(1, 5);
    assert_eq!(s, at(0, 0));
}

#[test]
fn a_stale_position_is_brought_back_into_view() {
    let mut s = at(50, 0);
    s.cursor_down(10, 100);
    assert_eq!(s, at(1, 1));
    let mut s = at(0, 500);
    s.cursor_up(10, 100);
    assert_eq!(s, at(90, 99));
    let mut s = at(90, 95);
    s.settle(10, 20);
    assert_eq!(s, at(10, 19));
    let mut s = at(5, 7);
    s.settle(10, 8);
    assert_eq!(s, at(0, 7));
    let mut s = at(5, 7);
    s.settle(10, 100);
    assert_eq!(s, at(5, 7));
    let mut s = at(5, 7);
    s.settle(2, 100);
    assert_eq!(s, at(6, 7));
}

#[test]
fn no_content_leaves_the_position_at_the_top() {
    for start in [at(0, 0), at(3, 9), at(9, 3)] {
        let mut s = start;
        s.cursor_down(5, 0);
        assert_eq!(s, at(0, 0));
        let mut s = start;
        s.page_up(5, 0);
        assert_eq!(s, at(0, 0));
    }
}

#[test]
fn every_motion_ends_in_view() {
    for total in 1..12usize {
        for height in 1..8usize {
            for offset in 0..14usize {
                for cursor in 0..14usize {
                    for motion in 0..5 {
                        let mut s = at(offset, cursor);
                        match motion {
                            0 => s.cursor_down(height, total),
                            1 => s.cursor_up(height, total),
                            2 => s.page_down(height, total),
                            3 => s.page_up(height, total),
                            _ => s.settle(height, total),
                        }
                        assert!(in_view(s, height, total));
                    }
                }
            }
        }
    }
}

#[test]
fn from_a_position_in_view_the_plain_steps_apply() {
    for total in 1..12usize {
        for height in 1..8usize {
            for offset in 0..12usize {
                for cursor in 0..12usize {
                    let start = at(offset, cursor);
                    if !in_view(start, height, total) {
                        continue;
                    }
                    let last = total - 1;
                    let most = total.saturating_sub(height);
                    let step = height / 2;

                    let mut s = start;
                    s.cursor_down(height, total);
                    let c = (cursor + 1).min(last);
                    let o = if c >= offset + height { offset + 1 } else { offset };
                    assert_eq!(s, at(o, c));

                    let mut s = start;
                    s.cursor_up(height, total);
                    let c = cursor.saturating_sub(1);
                    let o = if c < offset { offset - 1 } else { offset };
                    assert_eq!(s, at(o, c));

                    let mut s = start;
                    s.page_down(height, total);
                    let c = (cursor + step).min(last);
                    let o = if c >= offset + height { (offset + step).min(most) } else { offset };
                    assert_eq!(s, at(o, c));

                    let mut s = start;
                    s.page_up(height, total);
                    let c = cursor.saturating_sub(step);
                    let o = if c < offset { offset.saturating_sub(step) } else { offset };
                    assert_eq!(s, at(o, c));

                    let mut s = start;
                    s.settle(height, total);
                    assert_eq!(s, start);
                }
            }
        }
    }
}

#[test]
fn offsets_are_clamped_to_what_the_content_allows() {
    assert_eq!(clamp_offset(0, 100, 10), 0);
    assert_eq!(clamp_offset(90, 100, 10), 90);
    assert_eq!(clamp_offset(91, 100, 10), 90);
    assert_eq!(clamp_offset(usize::MAX, 100, 10), 90);
    assert_eq!(clamp_offset(5, 10, 10), 0);
    assert_eq!(clamp_offset(5, 3, 10), 0);
    assert_eq!(clamp_offset(5, 0, 0), 0);
    assert_eq!(clamp_offset(5, 7, 0), 5);
    assert_eq!(clamp_offset(9, 7, 0), 7);
}

#[test]
fn clamping_twice_is_clamping_once() {
    for total in 0..12usize {
        for height in 0..12usize {
            for offset in 0..15usize {
                let once = clamp_offset(offset, total, height);
                assert_eq!(clamp_offset(once, total, height), once);
                assert!(once <= total.saturating_sub(height));
                if offset <= total.saturating_sub(height) {
                    assert_eq!(once, offset);
                }
            }
        }
    }
}

#[test]
fn the_visible_lines_start_at_the_clamped_offset() {
    assert_eq!(visible_range(0, 100, 10), (0, 10));
    assert_eq!(visible_range(42, 100, 10), (42, 52));
    assert_eq!(visible_range(95, 100, 10), (90, 100));
    assert_eq!(visible_range(3, 5, 10), (0, 5));
    assert_eq!(visible_range(0, 0, 10), (0, 0));
    assert_eq!(visible_range(4, 9, 0), (9, 9));
}
