use grain::viewport::content_height;
use grain::viewport::DisplayState;
use grain::viewport::NavKey;

fn lines(v: &[&str]) -> Vec<String> {
    v.iter().map(|s| s.to_string()).collect()
}

#[test]
fn fresh_state_is_zeroed() {
    let st = DisplayState::new(42);
    assert_eq!(st.scroll_y, 0);
    assert_eq!(st.scroll_x, 0);
    assert!(st.content.is_empty());
    assert_eq!(st.last_update, 42);
}

#[test]
fn scenario_small_window_saturates_and_crops() {
    let mut st = DisplayState::new(0);
    st.update_content(lines(&["a", "bb", "ccc"]), 2, 2);
    assert!(st.handle_key_event(NavKey::Down, 2, 2));
    assert!(st.handle_key_event(NavKey::Down, 2, 2));
    assert_eq!(st.scroll_y, 1);
    assert!(st.handle_key_event(NavKey::Right, 2, 2));
    assert!(st.handle_key_event(NavKey::Right, 2, 2));
    assert_eq!(st.scroll_x, 1);
    assert_eq!(st.get_display_text(2), lines(&["b", "cc"]));
}

#[test]
fn navigation_saturates_at_zero() {
    let mut st = DisplayState::new(0);
    st.update_content(lines(&["a", "bb", "ccc"]), 2, 2);
    assert!(st.handle_key_event(NavKey::Up, 2, 2));
    assert_eq!(st.scroll_y, 0);
    assert!(st.handle_key_event(NavKey::Left, 2, 2));
    assert_eq!(st.scroll_x, 0);
    assert!(st.handle_key_event(NavKey::PageUp, 2, 2));
    assert_eq!(st.scroll_y, 0);
}

#[test]
fn page_and_jump_commands() {
    let texts: Vec<String> = (0..10).map(|i| format!("line{}", i)).collect();
    let mut st = DisplayState::new(0);
    st.update_content(texts, 10, 3);
    assert!(st.handle_key_event(NavKey::PageDown, 10, 3));
    assert_eq!(st.scroll_y, 3);
    assert!(st.handle_key_event(NavKey::PageDown, 10, 3));
    assert_eq!(st.scroll_y, 6);
    assert!(st.handle_key_event(NavKey::PageDown, 10, 3));
    assert_eq!(st.scroll_y, 7);
    assert!(st.handle_key_event(NavKey::CtrlHome, 10, 3));
    assert_eq!(st.scroll_y, 0);
    assert!(st.handle_key_event(NavKey::CtrlEnd, 10, 3));
    assert_eq!(st.scroll_y, 7);
    assert!(st.handle_key_event(NavKey::End, 10, 3));
    assert_eq!(st.scroll_x, 0);
    assert!(st.handle_key_event(NavKey::PageUp, 10, 3));
    assert_eq!(st.scroll_y, 4);
    assert!(st.handle_key_event(NavKey::Home, 10, 3));
    assert_eq!(st.scroll_x, 0);
}

#[test]
fn horizontal_bound_uses_visual_width() {
    let mut st = DisplayState::new(0);
    st.update_content(lines(&["\x1b[31mabcdef\x1b[0m"]), 4, 5);
    for _ in 0..10 {
        st.handle_key_event(NavKey::Right, 4, 5);
    }
    assert_eq!(st.scroll_x, 2);
}

#[test]
fn replacement_reclamps_offsets() {
    let mut st = DisplayState::new(0);
    st.update_content(lines(&["a", "b", "c", "d", "e"]), 10, 3);
    st.handle_key_event(NavKey::CtrlEnd, 10, 3);
    assert_eq!(st.scroll_y, 2);
    st.update_content(lines(&["only"]), 10, 3);
    assert_eq!(st.scroll_y, 0);
}

#[test]
fn identical_refresh_short_circuits_before_reclamping() {
    let body = lines(&["a", "b", "c", "d", "e"]);
    let mut st = DisplayState::new(0);
    st.update_content(body.clone(), 10, 3);
    st.handle_key_event(NavKey::CtrlEnd, 10, 3);
    assert_eq!(st.scroll_y, 2);
    st.update_content(body.clone(), 10, 5);
    assert_eq!(st.scroll_y, 2);
    assert_eq!(st.content, body);
}

#[test]
fn bounds_hold_under_random_interleavings() {
    let keys = [
        NavKey::Up,
        NavKey::Down,
        NavKey::Left,
        NavKey::Right,
        NavKey::PageUp,
        NavKey::PageDown,
        NavKey::Home,
        NavKey::End,
        NavKey::CtrlHome,
        NavKey::CtrlEnd,
    ];
    let bodies = [
        lines(&["a"]),
        lines(&["aaaa", "bb", "cccccc"]),
        (0..40).map(|i| format!("row {}", i)).collect::<Vec<String>>(),
    ];
    let mut seed: u64 = 0x853c49e6748fea9b;
    let mut st = DisplayState::new(0);
    let width: usize = 3;
    let height: usize = 4;
    st.update_content(bodies[1].clone(), width, height);
    for _ in 0..500 {
        seed = seed.wrapping_mul(6364136223846793005).wrapping_add(1442695040888963407);
        let roll = (seed >> 33) as usize;
        if roll % 7 == 0 {
            st.update_content(bodies[roll % 3].clone(), width, height);
        } else {
            st.handle_key_event(keys[roll % 10], width, height);
        }
        let line_count = st.content.len();
        let widest = st.content.iter().map(|l| visual(l)).max().unwrap_or(0);
        assert!(st.scroll_y <= line_count.saturating_sub(height));
        assert!(st.scroll_x <= widest.saturating_sub(width));
    }
}

fn visual(line: &str) -> usize {
    grain::text::visual_width(line)
}

#[test]
fn placeholder_when_nothing_to_show() {
    let st = DisplayState::new(0);
    assert_eq!(st.get_display_text(5), lines(&["没有内容可显示"]));
}

#[test]
fn schedule_advances_by_whole_intervals() {
    let mut st = DisplayState::new(0);
    assert!(!st.should_update(50, 100));
    assert_eq!(st.last_update, 0);
    assert!(st.should_update(150, 100));
    assert_eq!(st.last_update, 100);
    assert!(st.should_update(450, 100));
    assert_eq!(st.last_update, 200);
    assert!(st.should_update(460, 100));
    assert!(st.should_update(460, 100));
    assert_eq!(st.last_update, 400);
    assert!(!st.should_update(460, 100));
    assert_eq!(st.last_update, 400);
}

#[test]
fn poll_timeout_is_remaining_time_capped() {
    let st = DisplayState::new(0);
    assert_eq!(st.poll_timeout_ms(30, 1000, 100), 100);
    assert_eq!(st.poll_timeout_ms(950, 1000, 100), 50);
    assert_eq!(st.poll_timeout_ms(1000, 1000, 100), 0);
    assert_eq!(st.poll_timeout_ms(2000, 1000, 100), 0);
    assert_eq!(st.poll_timeout_ms(0, 50, 100), 50);
}

#[test]
fn content_rows_degrade_gracefully() {
    assert_eq!(content_height(10), 8);
    assert_eq!(content_height(3), 1);
    assert_eq!(content_height(2), 1);
    assert_eq!(content_height(1), 1);
    assert_eq!(content_height(0), 1);
}
