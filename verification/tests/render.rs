use desktop_mcp::monitor::{frame_png, Page};
use desktop_mcp::render::{bgra_to_rgba, draw_crosshair, encode_capture, encode_png, FrameStore};

#[test]
fn blue_and_red_are_swapped_and_pixels_opaque() {
    assert_eq!(
        bgra_to_rgba(&[1, 2, 3, 4, 5, 6, 7, 0, 9, 10]),
        vec![3, 2, 1, 255, 7, 6, 5, 255, 9, 10]
    );
    assert!(bgra_to_rgba(&[]).is_empty());
}

#[test]
fn converting_twice_keeps_the_colours() {
    let bgra = [10, 20, 30, 255, 40, 50, 60, 255];
    assert_eq!(bgra_to_rgba(&bgra_to_rgba(&bgra)), bgra.to_vec());
}

#[test]
fn png_files_decode_to_their_pixels() {
    let rgba = vec![1, 2, 3, 255, 4, 5, 6, 255];
    let png = encode_png(&rgba, 2, 1).unwrap();
    let back = image::load_from_memory(&png).unwrap().to_rgba8();
    assert_eq!(back.dimensions(), (2, 1));
    assert_eq!(back.into_raw(), rgba);
    assert_eq!(encode_png(&rgba, 2, 2), None);
    assert_eq!(encode_png(&rgba, -1, 1), None);
    assert_eq!(encode_png(&vec![], 0, 0), None);
    assert_eq!(encode_png(&rgba, 0, 2), None);
}

#[test]
fn captures_are_opaque_png_files() {
    let png = encode_capture(&[1, 2, 3, 0], 1, 1).unwrap();
    let back = image::load_from_memory(&png).unwrap().to_rgba8();
    assert_eq!(back.into_raw(), vec![3, 2, 1, 255]);
    assert_eq!(encode_capture(&[], 0, 1), None);
    assert_eq!(encode_capture(&[], 1, -1), None);
}

#[test]
fn frames_are_counted_and_replaced() {
    let mut frames = FrameStore::new();
    assert_eq!(frames.seq(), 0);
    assert_eq!(frames.png(), None);
    frames.store(vec![9, 9, 9, 255], 1, 1);
    frames.store(vec![1, 2, 3, 255], 1, 1);
    assert_eq!(frames.seq(), 2);
    let back = image::load_from_memory(&frames.png().unwrap()).unwrap().to_rgba8();
    assert_eq!(back.into_raw(), vec![1, 2, 3, 255]);
}

#[test]
fn frames_without_all_their_pixels_have_no_image() {
    let mut frames = FrameStore::new();
    for (width, height) in [(2, 1), (1, 2), (0, 1), (1, 0), (-1, 1)] {
        frames.store(vec![1, 2, 3, 255], width, height);
        assert_eq!(frames.png(), None);
    }
    frames.store(vec![1, 2, 3], 1, 1);
    assert_eq!(frames.png(), None);
}

#[test]
fn monitor_shows_the_latest_frame() {
    let mut frames = FrameStore::new();
    match frame_png(&frames) {
        Page::Error { status, text } => {
            assert_eq!((status, text.as_str()), (503, "no frame rendered yet"))
        }
        Page::Found(_) => panic!("no frame expected"),
    }
    frames.store(vec![1, 2, 3, 255], 1, 1);
    match frame_png(&frames) {
        Page::Found(png) => assert_eq!(Some(png), frames.png()),
        Page::Error { .. } => panic!("frame expected"),
    }
}

#[test]
fn crosshair_is_red_and_clipped() {
    let (w, h) = (20, 12);
    let before = vec![7u8; (w * h * 4) as usize];
    let mut after = before.clone();
    draw_crosshair(&mut after, w, h, 2, 3);
    for y in 0..h {
        for x in 0..w {
            let i = ((y * w + x) * 4) as usize;
            let on = (y == 3 && (x - 2).abs() <= 8) || (x == 2 && (y - 3).abs() <= 8);
            let expected = if on { [255, 60, 60, 255] } else { [7, 7, 7, 7] };
            assert_eq!(after[i..i + 4], expected, "at {x},{y}");
        }
    }
    let mut outside = before.clone();
    draw_crosshair(&mut outside, w, h, -100, 5000);
    assert_eq!(outside, before);
}

#[test]
fn the_desktop_is_shown_with_a_crosshair() {
    let mut frames = FrameStore::new();
    let bgra = vec![1, 2, 3, 0, 4, 5, 6, 0, 7, 8, 9, 0, 10, 11, 12, 0];
    frames.show_desktop(&bgra, 2, 2, 100, 1);
    assert_eq!(frames.seq(), 1);
    assert_eq!(
        frames.inner.rgba,
        vec![3, 2, 1, 255, 6, 5, 4, 255, 9, 8, 7, 255, 12, 11, 10, 255]
    );
    frames.show_desktop(&bgra, 2, 2, 8, 1);
    assert_eq!(
        frames.inner.rgba,
        vec![3, 2, 1, 255, 6, 5, 4, 255, 255, 60, 60, 255, 255, 60, 60, 255]
    );
    assert_eq!((frames.inner.width, frames.inner.height, frames.seq()), (2, 2, 2));
}
