use bit::motion::{fling, shoo, win_size, Bounds, Monitor};

fn screen(x: i32, y: i32, width: u32, height: u32) -> Monitor {
    Monitor { x, y, width, height }
}

fn hop(ms: &[Monitor], ww: i32, x: i32) -> (i32, i32) {
    shoo(&ms.to_vec(), (ww, ww), (x, 0)).unwrap().unwrap()
}

#[test]
fn the_window_has_a_usual_size() {
    assert_eq!(win_size(Some((260, 300))), (260, 300));
    assert_eq!(win_size(None), (240, 240));
    assert_eq!(win_size(Some((u32::MAX, 0x8000_0000))), (-1, i32::MIN));
}

#[test]
fn the_bit_hops_to_the_other_screen() {
    let ms = [screen(0, 25, 1920, 1080), screen(-1440, 100, 1440, 900)];
    assert_eq!(hop(&ms, 240, 10), (-1424, 116));
    assert_eq!(hop(&ms, 240, -1424), (1664, 41));
    assert_eq!(hop(&ms, 240, 1664), (-1424, 116));
    assert_eq!(hop(&ms, 240, -121), (1664, 41));
    assert_eq!(hop(&ms, 240, -120), (-1424, 116));
}

#[test]
fn on_one_screen_it_changes_corners() {
    let ms = [screen(0, 0, 1000, 800)];
    assert_eq!(hop(&ms, 240, 0), (744, 16));
    assert_eq!(hop(&ms, 240, 744), (16, 16));
    assert_eq!(hop(&ms, 240, 380), (16, 16));
}

#[test]
fn equal_screens_are_told_apart_by_order() {
    let ms = [screen(0, 1, 100, 9), screen(0, 2, 200, 9)];
    assert_eq!(hop(&ms, 40, 0), (16, 17));
    assert_eq!(hop(&ms, 40, -50), (144, 18));
}

#[test]
fn without_screens_there_is_nowhere_to_go() {
    assert_eq!(
        shoo(&Vec::new(), (1, 1), (0, 0)),
        Some(Err("no monitors".to_string()))
    );
    assert!(matches!(fling(&Vec::new(), (1, 1)), Some(None)));
}

#[test]
fn positions_that_do_not_fit_are_refused() {
    let far = vec![screen(i32::MAX, 0, 10, 10)];
    assert_eq!(shoo(&far, (1, 1), (i32::MAX, 0)), None);
    assert!(fling(&far, (1, 1)).is_none());
}

#[test]
fn flinging_stays_on_the_desktop() {
    let ms = vec![screen(0, 25, 1920, 1080), screen(-1440, 100, 1440, 900)];
    let b: Bounds = fling(&ms, (240, 200)).unwrap().unwrap();
    assert_eq!((b.min_x, b.min_y, b.max_x, b.max_y), (-1440, 25, 1680, 905));
    let tiny = vec![screen(5, 6, 10, 10)];
    let b = fling(&tiny, (240, 200)).unwrap().unwrap();
    assert_eq!((b.min_x, b.min_y, b.max_x, b.max_y), (5, 6, 5, 6));
}
