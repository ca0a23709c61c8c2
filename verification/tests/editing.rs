//! The edit of a video: its segments, its zooms and the history.
use ashot::video::{ZoomPoint, LEVEL_ONE, SECOND};
use ashot::video_editor::state::{EditState, Edge};
use ashot::video_editor::undo::History;
use ashot::video_editor::zooms::{crop_rect_for, zoom_at};

const S: i64 = SECOND;

#[test]
fn split_and_delete_matches_old_cuts_flow() {
    let mut st = EditState::new(10 * S);
    assert!(st.split_at(2 * S));
    assert!(st.split_at(5 * S));
    assert_eq!(st.segments.len(), 3);
    st.delete_segment(1);
    assert_eq!(st.cuts(), vec![(2 * S, 5 * S)]);
    assert_eq!(st.keep_ranges(10 * S), vec![(0, 2 * S), (5 * S, 10 * S)]);
}

#[test]
fn split_at_noop_near_boundary() {
    let mut st = EditState::new(10 * S);
    assert!(st.split_at(5 * S));
    assert!(!st.split_at(5 * S + S / 20));
    assert_eq!(st.segments.len(), 2);
}

#[test]
fn restore_segment_clears_removed() {
    let mut st = EditState::new(10 * S);
    st.split_at(3 * S);
    st.delete_segment(0);
    assert_eq!(st.cuts(), vec![(0, 3 * S)]);
    st.restore_segment(0);
    assert!(st.cuts().is_empty());
}

fn state(cc: bool) -> EditState {
    let mut s = EditState::new(10 * S);
    s.burn_cc = cc;
    s
}

#[test]
fn commit_undo_redo() {
    let mut h = History::new(state(false));
    h.commit(state(true));
    assert!(h.current().burn_cc);
    assert!(!h.undo().unwrap().burn_cc);
    assert!(h.redo().unwrap().burn_cc);
}

#[test]
fn no_op_on_unchanged_state() {
    let mut h = History::new(state(false));
    h.commit(state(false));
    assert!(h.undo().is_none());
}

#[test]
fn commit_after_undo_clears_redo() {
    let mut h = History::new(state(false));
    h.commit(state(true));
    h.undo();
    let mut fresh = state(false);
    fresh.zooms.push(ZoomPoint { t: S, cx: 0, cy: 0, level: 2 * LEVEL_ONE, duration: S });
    h.commit(fresh);
    assert!(h.redo().is_none());
}

#[test]
fn an_unedited_video_has_nothing_to_keep() {
    let mut st = EditState::new(10 * S);
    assert!(st.keep_ranges(10 * S).is_empty());
    st.split_at(4 * S);
    assert!(st.keep_ranges(10 * S).is_empty());
}

#[test]
fn segments_tile_the_video_after_a_drag() {
    let mut st = EditState::new(10 * S);
    st.split_at(3 * S);
    st.split_at(7 * S);
    st.resize_segment_edge(0, 4 * S);
    let ends: Vec<(i64, i64)> = st.segments.iter().map(|s| (s.start, s.end)).collect();
    assert_eq!(ends, vec![(0, 4 * S), (4 * S, 7 * S), (7 * S, 10 * S)]);
}

#[test]
fn a_zoom_between_its_ends_is_full() {
    let mut st = EditState::new(10 * S);
    let ix = st.add_zoom(5 * S, 100 * 256, 50 * 256, 2 * LEVEL_ONE, 2 * S, 10 * S);
    assert_eq!(ix, 0);
    let (w, h) = (640 * 256, 360 * 256);
    assert_eq!(zoom_at(5 * S, &st.zooms, w, h).0, 2 * LEVEL_ONE);
    assert_eq!(zoom_at(0, &st.zooms, w, h).0, LEVEL_ONE);
    assert!(crop_rect_for(0, &st.zooms, w, h).is_none());
    let (x, y, cw, ch) = crop_rect_for(5 * S, &st.zooms, w, h).unwrap();
    assert_eq!((cw, ch), (320 * 256, 180 * 256));
    assert_eq!((x, y), (0, 0));
}

#[test]
fn zooms_are_kept_apart_and_in_order() {
    let mut st = EditState::new(20 * S);
    st.add_zoom(10 * S, 0, 0, 2 * LEVEL_ONE, 2 * S, 20 * S);
    st.add_zoom(4 * S, 0, 0, 2 * LEVEL_ONE, 2 * S, 20 * S);
    st.move_zoom(0, 10 * S, 20 * S);
    st.resort_zooms();
    for pair in st.zooms.windows(2) {
        let (_, end) = pair[0].window();
        let (start, _) = pair[1].window();
        assert!(end <= start);
    }
    assert_eq!(st.zooms.len(), 2);
}

#[test]
fn a_zoom_edge_moves_alone() {
    let mut st = EditState::new(20 * S);
    st.add_zoom(10 * S, 0, 0, 2 * LEVEL_ONE, 4 * S, 20 * S);
    st.resize_zoom_edge(0, Edge::End, 14 * S, 20 * S);
    assert_eq!(st.zooms[0].window(), (8 * S, 14 * S));
    st.remove_zoom(0);
    assert!(st.zooms.is_empty());
}

#[test]
fn zoom_levels_and_centers_are_limited() {
    let mut st = EditState::new(20 * S);
    st.add_zoom(10 * S, 0, 0, 2 * LEVEL_ONE, 4 * S, 20 * S);
    st.set_zoom_level(0, 3 * LEVEL_ONE);
    assert_eq!(st.zooms[0].level, 3 * LEVEL_ONE);
    st.move_zoom_center(0, -50, 1_000_000, 640 * 256, 360 * 256);
    let z = st.zooms[0];
    assert!(z.cx >= 0 && z.cy <= 360 * 256);
}

#[test]
fn the_same_edit_is_the_same() {
    let mut st = state(true);
    st.split_at(3 * S);
    let other = st.duplicate();
    assert!(st.same(&other));
    st.delete_segment(0);
    assert!(!st.same(&other));
}

#[test]
fn a_covered_zoom_stays_in_the_window_asked_for() {
    let mut st = EditState::new(10 * S);
    st.add_zoom(5 * S, 0, 0, 2 * LEVEL_ONE, 2 * S, 10 * S);
    let ix = st.add_zoom(5 * S, 7, 8, 3 * LEVEL_ONE, S, 10 * S);
    let z = st.zooms[ix];
    assert_eq!(z.window(), (5 * S + S / 2, 5 * S + S / 2));
    assert_eq!((z.cx, z.cy, z.level), (7, 8, 3 * LEVEL_ONE));
}

#[test]
fn a_zoom_is_cut_to_its_neighbors() {
    let mut st = EditState::new(10 * S);
    st.add_zoom(2 * S, 0, 0, 2 * LEVEL_ONE, 2 * S, 10 * S);
    st.add_zoom(8 * S, 0, 0, 2 * LEVEL_ONE, 2 * S, 10 * S);
    let wide = ZoomPoint { t: 5 * S, cx: 1, cy: 2, level: LEVEL_ONE, duration: 6 * S };
    let z = st.clamp_zoom_to_neighbors(&wide, None, 10 * S);
    assert_eq!(z.window(), (3 * S, 7 * S));
    let z = st.clamp_zoom_to_neighbors(&wide, Some(9), 10 * S);
    assert_eq!(z.window(), (3 * S, 7 * S));
    let late = ZoomPoint { t: 10 * S, cx: 1, cy: 2, level: LEVEL_ONE, duration: 4 * S };
    assert_eq!(st.clamp_zoom_to_neighbors(&late, None, 10 * S).window(), (9 * S, 10 * S));
}

#[test]
fn zooms_reach_the_end_of_time() {
    let mut st = EditState::new(i64::MAX);
    st.add_zoom(i64::MAX, 0, 0, 2 * LEVEL_ONE, i64::MAX, i64::MAX);
    let (start, end) = st.zooms[0].window();
    assert_eq!(end, i64::MAX);
    st.resize_zoom_edge(0, Edge::Start, i64::MIN, i64::MAX);
    assert_eq!(st.zooms[0].window(), (0, i64::MAX));
    assert!(start > 0);
}
