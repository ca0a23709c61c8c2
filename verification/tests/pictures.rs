//! Pictures: cropping, blending, PNG, captures of monitors.
use ashot::capture::{
    capture_error, capture_full, capture_monitor, capture_region, find_monitor, layout_bbox,
    monitors, portal_file, Monitor, OutputData,
};
use ashot::color::Rgba;
use ashot::error::Error;
use ashot::geometry::{fit_picture, Extent, Pos};
use ashot::overlay::{card_size, crop_to, selection_scene, size_label, Area};
use ashot::overlay::{Overlay, OverlayAction, Phase};
use ashot::pixmap::{blend_px, crop, draw_cell, swap_channels, Cell, Pixmap};

fn filled(w: u32, h: u32, c: [u8; 4]) -> Pixmap {
    let mut p = Pixmap::new(w, h).unwrap();
    for px in p.data.chunks_exact_mut(4) {
        px.copy_from_slice(&c);
    }
    p
}

#[test]
fn crop_extracts_region() {
    let p = filled(100, 100, [255, 59, 48, 255]);
    let c = crop(&p, 10, 10, 30, 20).unwrap();
    assert_eq!((c.width, c.height), (30, 20));
    assert!(crop(&p, 90, 90, 20, 20).is_err());
}

#[test]
fn a_crop_keeps_its_pixels() {
    let mut p = filled(4, 3, [0, 0, 0, 0]);
    let i = (1 * 4 + 2) * 4;
    p.data[i] = 77;
    let c = crop(&p, 2, 1, 2, 2).unwrap();
    assert_eq!(c.data[0], 77);
    assert_eq!(c.data.len(), 16);
    match crop(&p, -1, 0, 2, 2) {
        Err(e) => {
            assert_eq!(e.code(), "region_out_of_bounds");
            assert_eq!(e.message(), "region -1,0 2x2 is outside the 4x3 image");
        }
        Ok(_) => panic!("cropped outside"),
    }
}

#[test]
fn a_png_decodes_to_what_was_encoded() {
    let mut p = filled(5, 4, [10, 20, 30, 255]);
    p.data[3 * 4] = 200;
    let bytes = p.encode_png().unwrap();
    assert_eq!(&bytes[1..4], b"PNG");
    let q = Pixmap::decode_png(&bytes).unwrap();
    assert_eq!((q.width, q.height), (5, 4));
    assert_eq!(q.data, p.data);
}

#[test]
fn what_is_no_png_is_refused() {
    match Pixmap::decode_png(b"nothing") {
        Err(e) => assert_eq!(e.code(), "image"),
        Ok(_) => panic!("decoded nothing"),
    }
}

#[test]
fn blending_reaches_both_ends() {
    let mut data = vec![100, 100, 100, 255];
    blend_px(&mut data, 0, 200, 0, 50, 0);
    assert_eq!(data, vec![100, 100, 100, 255]);
    blend_px(&mut data, 0, 200, 0, 50, 255);
    assert_eq!(&data[0..3], &[200, 0, 50]);
}

#[test]
fn a_cell_is_drawn_on_the_picture_only() {
    let mut p = filled(3, 3, [0, 0, 0, 255]);
    let cell = Cell { x: 0, y: 0, w: 2, h: 2, color: Rgba { r: 255, g: 0, b: 0, a: 255 } };
    draw_cell(&mut p, 2, 2, &cell);
    assert_eq!(p.data[(2 * 3 + 2) * 4], 255);
    assert_eq!(p.data[(1 * 3 + 1) * 4], 0);
}

#[test]
fn swapping_channels_twice_gives_them_back() {
    let mut data = vec![1, 2, 3, 4, 5, 6, 7, 8];
    swap_channels(&mut data);
    assert_eq!(data, vec![3, 2, 1, 4, 7, 6, 5, 8]);
    swap_channels(&mut data);
    assert_eq!(data, vec![1, 2, 3, 4, 5, 6, 7, 8]);
}

fn output(name: &str, x: i32, w: i32, h: i32) -> OutputData {
    OutputData {
        name: Some(name.to_string()),
        logical_pos: Some((x, 0)),
        logical_size: Some((w, h)),
        mode: Some((w, h)),
        scale: 1,
    }
}

#[test]
fn monitors_are_listed_and_captured() {
    let list = monitors(&[output("A", 0, 40, 30), output("B", 40, 20, 30)]).unwrap();
    assert_eq!(list.len(), 2);
    assert_eq!(list[1].name, "B");
    assert_eq!(layout_bbox(&list), (0, 0, 60, 30));
    let full = filled(60, 30, [9, 9, 9, 255]);
    let c = capture_monitor(&full, &list, 1).unwrap();
    assert_eq!((c.pixmap.width, c.pixmap.height), (20, 30));
    match capture_monitor(&full, &list, 2) {
        Err(e) => {
            assert_eq!(e.code(), "monitor_not_found");
            assert_eq!(e.message(), "monitor 2 not found (2 available)");
        }
        Ok(_) => panic!("captured a monitor that is not there"),
    }
}

#[test]
fn no_outputs_means_no_session() {
    match monitors(&[]) {
        Err(e) => assert_eq!(e.code(), "wayland_unavailable"),
        Ok(l) => panic!("found {l:?}"),
    }
}

#[test]
fn a_capture_knows_its_scale_and_region() {
    let list = monitors(&[output("A", 0, 30, 30)]).unwrap();
    let full = capture_full(filled(60, 60, [0, 0, 0, 255]), Some(&list));
    assert_eq!(full.scale_num as i64, 2 * full.scale_den);
    assert!(full.region.is_none());
    let part = capture_region(&full, 10, 20, 5, 6).unwrap();
    assert_eq!(part.region, Some((10, 20, 5, 6)));
    assert!(matches!(
        capture_region(&full, 58, 0, 5, 5),
        Err(Error::RegionOutOfBounds(58, 0, 5, 5, 60, 60))
    ));
}

#[test]
fn portal_failures_have_their_codes() {
    assert_eq!(capture_error(true, "x").code(), "portal_denied");
    let e = capture_error(false, "gone");
    assert_eq!(e.code(), "portal_unavailable");
    assert_eq!(e.message(), "desktop portal unavailable: gone");
    assert_eq!(portal_file("file", "file:///a.png", Some("/a.png".to_string())).unwrap(), "/a.png");
    assert!(portal_file("http", "http://a", None).is_err());
}

#[test]
fn a_fitted_picture_is_centered() {
    let f = fit_picture(400 * 256, 200 * 256, 200, 200, None).unwrap();
    assert_eq!((f.dw, f.dh), (200 * 256, 200 * 256));
    assert_eq!((f.ox, f.oy), (100 * 256, 0));
    assert_eq!(f.to_picture(200 * 256, 100 * 256, 200, 200), Some((100 * 256, 100 * 256)));
}

fn at(x: i32, y: i32) -> Pos {
    Pos { x: x * 256, y: y * 256 }
}

#[test]
fn a_drag_selects_and_captures() {
    let mut o = Overlay::new();
    assert_eq!(o.mouse_down(at(50, 40)), OverlayAction::Repaint);
    assert_eq!(o.mouse_move(at(20, 10)), OverlayAction::Repaint);
    let area = Area { x: 20 * 256, y: 10 * 256, w: 30 * 256, h: 30 * 256 };
    assert_eq!(o.mouse_up(at(20, 10)), OverlayAction::Capture(Some(area)));
    o.enter_preview();
    assert_eq!(o.phase, Phase::Preview);
    assert_eq!(o.mouse_down(at(1, 1)), OverlayAction::Nothing);
    assert_eq!(o.key_down("c"), OverlayAction::Copy);
    assert_eq!(o.key_down("enter"), OverlayAction::Save);
    assert_eq!(o.key_down("e"), OverlayAction::Edit);
    assert_eq!(o.key_down("escape"), OverlayAction::Quit);
    assert!(o.timed_out(1));
    o.hover(true);
    assert!(!o.timed_out(1));
}

#[test]
fn a_click_selects_nothing() {
    let mut o = Overlay::new();
    o.mouse_down(at(5, 5));
    assert_eq!(o.mouse_up(at(6, 6)), OverlayAction::Repaint);
    assert_eq!(o.phase, Phase::Idle);
    assert_eq!(o.key_down("enter"), OverlayAction::Capture(None));
}

#[test]
fn a_selection_is_cut_out_of_the_picture() {
    let base = filled(200, 100, [1, 2, 3, 255]);
    let view = Extent { w: 100 * 256, h: 50 * 256 };
    let area = Area { x: 10 * 256, y: 5 * 256, w: 20 * 256, h: 10 * 256 };
    let c = crop_to(&base, view, Some(area)).unwrap();
    assert_eq!((c.width, c.height), (40, 20));
    assert_eq!(crop_to(&base, view, None).unwrap().data, base.data);
    assert_eq!(size_label(area, 200, 100 * 256), "40 \u{d7} 20");
    let s = selection_scene(area, view);
    assert_eq!(s.below, Area { x: 0, y: 15 * 256, w: 100 * 256, h: 35 * 256 });
    assert_eq!(s.label_top, 21 * 256);
    assert_eq!(card_size(600, 300), (300 * 256, 150 * 256));
}

fn monitor(index: usize, x: i32, w: i32, h: i32) -> Monitor {
    Monitor {
        index,
        name: "M".to_string(),
        logical_x: x,
        logical_y: 0,
        logical_w: w,
        logical_h: h,
        pixel_w: w,
        pixel_h: h,
        scale: 1,
    }
}

#[test]
fn a_monitor_is_captured_by_its_index() {
    let blind = OutputData { logical_pos: None, ..output("A", 0, 40, 30) };
    let list = monitors(&[blind, output("B", 0, 20, 30)]).unwrap();
    assert_eq!((list.len(), list[0].index), (1, 1));
    let full = filled(20, 30, [9, 9, 9, 255]);
    let c = capture_monitor(&full, &list, 1).unwrap();
    assert_eq!(c.region, Some((0, 0, 20, 30)));
    assert!(matches!(capture_monitor(&full, &list, 0), Err(Error::MonitorNotFound(0, 1))));
    assert!(matches!(find_monitor(&list, 1), Ok(0)));
    assert!(matches!(find_monitor(&list, 0), Err(Error::MonitorNotFound(0, 1))));
}

#[test]
fn a_layout_without_width_has_no_picture() {
    let full = filled(20, 30, [9, 9, 9, 255]);
    assert!(matches!(
        capture_monitor(&full, &vec![monitor(0, 5, 0, 10)], 0),
        Err(Error::RegionOutOfBounds(0, 0, 0, 30, 20, 30))
    ));
    assert!(matches!(
        capture_monitor(&full, &vec![monitor(0, 0, -5, 10)], 0),
        Err(Error::RegionOutOfBounds(0, 0, 20, 0, 20, 30))
    ));
}

#[test]
fn a_window_without_extent_shows_the_whole_picture() {
    let base = filled(6, 4, [1, 2, 3, 255]);
    let view = Extent { w: 0, h: 0 };
    let area = Area { x: 0, y: 0, w: 1024, h: 1024 };
    assert_eq!(crop_to(&base, view, Some(area)).unwrap().data, base.data);
    let off = Area { x: 256, ..area };
    assert!(crop_to(&base, view, Some(off)).is_err());
}

#[test]
fn monitors_are_scaled_by_rounded_fractions() {
    let full = filled(70, 70, [9, 9, 9, 255]);
    let list = vec![monitor(0, 0, 45, 50), monitor(1, 45, 55, 50)];
    assert_eq!(capture_monitor(&full, &list, 1).unwrap().region.unwrap().0, 31);
    for width in [7u32, 70, 123, 1000] {
        let full = filled(width, 4, [0, 0, 0, 255]);
        for x in 1..100i32 {
            let list = vec![monitor(0, 0, x, 1), monitor(1, x, 100 - x, 1)];
            let scale = width as f64 / 100.0;
            let left = (x as f64 * scale).round() as i32;
            let w = ((100 - x) as f64 * scale).round() as u32;
            let h = (scale.round() as u32).min(4);
            let w = w.min(width.saturating_sub(left as u32));
            match capture_monitor(&full, &list, 1) {
                Ok(c) => assert_eq!(c.region, Some((left, 0, w, h))),
                Err(e) => assert_eq!(
                    e.message(),
                    Error::RegionOutOfBounds(left, 0, w, h, width, 4).message()
                ),
            }
        }
    }
}

#[test]
fn selections_are_scaled_by_rounded_fractions() {
    for (image, window) in [(70u32, 100i32), (1920, 1536), (333, 1000), (1000, 333)] {
        let base = filled(image, 8, [0, 0, 0, 255]);
        let view = Extent { w: window * 256, h: 8 * 256 };
        let sx = image as f32 / window as f32;
        for v in (0..window * 256).step_by(997) {
            let area = Area { x: 0, y: 0, w: v as i64 + 768, h: 2048 };
            let px = (v + 768) as f32 / 256.0;
            let w = ((px * sx).round() as u32).clamp(1, image);
            assert_eq!(crop_to(&base, view, Some(area)).unwrap().width, w);
        }
    }
}

#[test]
fn an_area_without_extent_turns_the_picture_round() {
    let f = fit_picture(-100 * 256, 50 * 256, 200, 100, Some(2)).unwrap();
    assert_eq!((f.num, f.dw, f.dh), (-100 * 256, -100 * 256, -50 * 256));
    assert_eq!((f.ox, f.oy), (0, 50 * 256));
    assert_eq!(f.to_picture(-10 * 256, 40 * 256, 200, 100), Some((20 * 256, 20 * 256)));
    assert_eq!(f.to_picture(10 * 256, 40 * 256, 200, 100), None);
    let flat = fit_picture(0, 50 * 256, 200, 100, None).unwrap();
    assert_eq!((flat.num, flat.dw), (0, 0));
    assert_eq!(flat.to_picture(0, 0, 200, 100), None);
    assert!(fit_picture(100, -1, 200, 0, None).is_none());
    assert_eq!(fit_picture(400 * 256, 9, 200, 0, None).unwrap().dw, 400 * 256);
}

#[test]
fn blending_keeps_pixels_premultiplied() {
    for alpha in [0u8, 1, 100, 254, 255] {
        let mut data = vec![40, 80, 120, 120];
        blend_px(&mut data, 0, 255, 0, 9, alpha);
        assert!(data[0] <= data[3] && data[1] <= data[3] && data[2] <= data[3]);
        assert!(data[3] >= 120);
    }
}
