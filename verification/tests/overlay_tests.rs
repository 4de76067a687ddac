use raycaster::overlay::{frame_time_label, label_origin_x, LABEL_TOP};

fn s(v: Vec<char>) -> String {
    v.into_iter().collect()
}

#[test]
fn frame_time_in_milliseconds() {
    assert_eq!(s(frame_time_label(1, 234)), "1234");
    assert_eq!(s(frame_time_label(0, 16)), "16");
    assert_eq!(s(frame_time_label(0, 0)), "0");
    assert_eq!(s(frame_time_label(0, 7)), "7");
    assert_eq!(s(frame_time_label(10, 5)), "10005");
    assert_eq!(s(frame_time_label(0, 999)), "999");
}

#[test]
fn frame_time_matches_to_string() {
    for (secs, ms) in [(0u64, 1u32), (3, 100), (123456, 789), (18446744073709550, 615)] {
        let expected = (secs * 1000 + ms as u64).to_string();
        assert_eq!(s(frame_time_label(secs, ms)), expected);
    }
}

#[test]
fn label_starts_near_right_edge() {
    assert_eq!(label_origin_x(1000), 980);
    assert_eq!(label_origin_x(20), 0);
    assert_eq!(LABEL_TOP, 10);
}
