use roostbar::render;
use roostbar::render::Canvas;

#[test]
fn fills_premultiplied() {
    let mut buf = vec![9u8; 2 * 2 * 4];
    Canvas::new(&mut buf, 2, 2).fill([0x80, 0xFF, 0x80, 0x00]);
    for px in buf.chunks(4) {
        assert_eq!(px, [0x00, 0x40, 0x80, 0x80]);
    }
    assert_eq!(render::premul(255, 1, 2, 3), [3, 2, 1, 255]);
    assert_eq!(render::premul(0, 255, 255, 255), [0, 0, 0, 0]);
}

#[test]
fn draws_a_line_across() {
    let mut buf = vec![0u8; 3 * 2 * 4];
    Canvas::new(&mut buf, 3, 2).hline(1, [0x16, 0xFF, 0xFF, 0xFF]);
    assert!(buf[..12].iter().all(|b| *b == 0));
    assert!(buf[12..].iter().all(|b| *b == 0x16));
    let before = buf.clone();
    Canvas::new(&mut buf, 3, 2).hline(2, [255, 1, 2, 3]);
    Canvas::new(&mut buf, 3, 2).hline(-1, [255, 1, 2, 3]);
    assert_eq!(buf, before);
}

#[test]
fn blends_over_what_is_there() {
    let mut buf = vec![100u8, 100, 100, 255];
    Canvas::new(&mut buf, 1, 1).blend(0, 0, [128, 200, 0, 50]);
    // (50 * 128 + 100 * 127 + 127) / 255 and so on.
    assert_eq!(buf, vec![75, 50, 150, 255]);
    let mut buf = vec![100u8, 100, 100, 255];
    Canvas::new(&mut buf, 1, 1).blend(0, 0, [255, 7, 8, 9]);
    assert_eq!(buf, vec![9, 8, 7, 255]);
    Canvas::new(&mut buf, 1, 1).blend(0, 0, [0, 1, 1, 1]);
    assert_eq!(buf, vec![9, 8, 7, 255]);
}

#[test]
fn a_rectangle_stays_on_the_canvas() {
    let mut buf = vec![0u8; 4 * 4 * 4];
    Canvas::new(&mut buf, 4, 4).fill_rect(-1, 1, 3, 10, [255, 255, 255, 255]);
    for y in 0..4 {
        for x in 0..4 {
            let inside = x < 2 && y >= 1;
            let px = &buf[(y * 4 + x) * 4..(y * 4 + x) * 4 + 4];
            assert!(px.iter().all(|b| *b == if inside { 255 } else { 0 }));
        }
    }
}

#[test]
fn clipped_rows_stay_untouched() {
    let mut buf = vec![0u8; 2 * 4 * 4];
    let mut canvas = Canvas::new(&mut buf, 2, 4);
    canvas.clip = Some((1, 3));
    canvas.fill_rect(0, 0, 2, 4, [255, 10, 20, 30]);
    assert_eq!(canvas.offset(0, 0), None);
    assert_eq!(canvas.offset(1, 1), Some(12));
    assert_eq!(canvas.offset(1, 3), None);
    assert_eq!(canvas.offset(2, 1), None);
    assert!(buf[..8].iter().all(|b| *b == 0));
    assert_eq!(buf[8..12], [30, 20, 10, 255]);
    assert!(buf[24..].iter().all(|b| *b == 0));
}

#[test]
fn drawing_keeps_pixels_premultiplied() {
    let mut buf = vec![0u8; 4 * 4];
    let mut canvas = Canvas::new(&mut buf, 2, 2);
    canvas.fill([0xD9, 0x16, 0x16, 0x1F]);
    canvas.hline(0, [0x16, 0xFF, 0xFF, 0xFF]);
    canvas.fill_rect(0, 0, 2, 2, [0x24, 0xFF, 0x80, 0xFF]);
    for px in buf.chunks(4) {
        assert!(px[0] <= px[3] && px[1] <= px[3] && px[2] <= px[3]);
        assert!(px[3] >= 0xD9);
    }
}

#[test]
fn a_fill_leaves_clipped_rows_untouched() {
    let mut buf = [0u8; 8];
    let mut canvas = Canvas::new(&mut buf, 1, 2);
    canvas.clip = Some((1, 2));
    canvas.fill([255, 1, 2, 3]);
    assert_eq!(buf, [0, 0, 0, 0, 3, 2, 1, 255]);
    let mut canvas = Canvas::new(&mut buf, 1, 2);
    canvas.clip = Some((-5, 1));
    canvas.fill([255, 7, 8, 9]);
    assert_eq!(buf, [9, 8, 7, 255, 3, 2, 1, 255]);
    // An empty clip, and a canvas without columns.
    for (width, clip) in [(1, (1, 1)), (0, (0, 9))] {
        let mut canvas = Canvas::new(&mut buf, width, 2);
        canvas.clip = Some(clip);
        canvas.fill([255, 0, 0, 0]);
    }
    assert_eq!(buf, [9, 8, 7, 255, 3, 2, 1, 255]);
    // What is left of a buffer that is no whole pixel stays.
    let mut odd = [1u8; 6];
    Canvas::new(&mut odd, 1, 1).fill([255, 7, 8, 9]);
    assert_eq!(odd, [9, 8, 7, 255, 1, 1]);
}

#[test]
fn alpha_never_decreases() {
    for alpha in [0u8, 1, 0x24, 128, 254, 255] {
        for under in [0u8, 1, 100, 254, 255] {
            let mut buf = [0, 0, 0, under];
            Canvas::new(&mut buf, 1, 1).blend(0, 0, [alpha, 9, 9, 9]);
            assert!(buf[3] >= under);
        }
    }
}

#[test]
fn mixes_into_one_pixel() {
    let mut buf: Vec<u8> = (0..2 * 3 * 4).collect();
    let before = buf.clone();
    let halved = |p: [u8; 4]| [p[0] / 2, p[1] / 2, p[2] / 2, p[3] / 2];
    let mut canvas = Canvas::new(&mut buf, 2, 3);
    canvas.clip = Some((1, 2));
    canvas.mix(0, 0, halved);
    canvas.mix(1, 2, halved);
    canvas.mix(2, 1, halved);
    canvas.mix(1, 1, halved);
    assert_eq!(buf[..12], before[..12]);
    assert_eq!(buf[12..16], [6, 6, 7, 7]);
    assert_eq!(buf[16..], before[16..]);
}
