use fontlayout::image::{Colors, Image};

#[test]
fn new_is_black() {
    let img = Image::new(3, 2);
    assert_eq!((img.width(), img.height()), (3, 2));
    assert_eq!(img.data(), &[0u8; 18][..]);
}

#[test]
fn with_color_repeats_the_color() {
    let img = Image::with_color(2, 1, (1, 2, 3));
    assert_eq!(img.data(), &[1, 2, 3, 1, 2, 3][..]);
}

#[test]
fn from_buffer_widens_grey() {
    let img = Image::from_buffer(2, 1, vec![5, 9], Colors::Grey);
    assert_eq!(img.data(), &[5, 5, 5, 9, 9, 9][..]);
    let img = Image::from_buffer(1, 1, vec![1, 2, 3], Colors::RGB);
    assert_eq!(img.data(), &[1, 2, 3][..]);
}

#[test]
fn xy_to_index_counts_rows() {
    let img = Image::new(4, 3);
    assert_eq!(img.xy_to_index(0, 0), 0);
    assert_eq!(img.xy_to_index(1, 2), 27);
}

#[test]
fn lines_and_rect() {
    let mut img = Image::new(4, 3);
    img.horizontal_line(1, 1, 2, (9, 8, 7));
    let d = img.data();
    assert_eq!(&d[12..15], &[0, 0, 0]);
    assert_eq!(&d[15..18], &[9, 8, 7]);
    assert_eq!(&d[18..21], &[9, 8, 7]);
    assert_eq!(&d[21..24], &[0, 0, 0]);

    let mut img = Image::new(4, 3);
    img.vertical_line(2, 0, 3, (1, 1, 1));
    let lit: Vec<usize> = (0..12).filter(|p| img.data()[p * 3] == 1).collect();
    assert_eq!(lit, vec![2, 6, 10]);

    let mut img = Image::new(4, 4);
    img.rect(0, 0, 2, 2, (5, 5, 5));
    let lit: Vec<usize> = (0..16).filter(|p| img.data()[p * 3] == 5).collect();
    assert_eq!(lit, vec![0, 1, 2, 4, 6, 8, 9]);
}

#[test]
fn draw_img_blends_and_clips() {
    let mut canvas = Image::new(2, 2);
    let src = Image::from_buffer(2, 2, vec![255, 128, 0, 51], Colors::Grey);
    canvas.draw_img(src, 1, 0, false, (255, 255, 255));
    let d = canvas.data();
    // (1, 0) gets the source's (0, 0) at full strength; (1, 1) the source's (0, 1)
    assert_eq!(&d[0..3], &[0, 0, 0]);
    assert_eq!(&d[3..6], &[255, 255, 255]);
    assert_eq!(&d[6..9], &[0, 0, 0]);
    assert_eq!(&d[9..12], &[0, 0, 0]);

    let mut canvas = Image::with_color(1, 1, (100, 0, 200));
    let src = Image::from_buffer(1, 1, vec![51], Colors::Grey);
    canvas.draw_img(src, 0, 0, false, (255, 255, 0));
    // 100 + 51 * 155 / 255 = 131, 0 + 51 = 51, 200 - 40 = 160
    assert_eq!(canvas.data(), &[131, 51, 160][..]);
}

#[test]
fn draw_img_ignores_black_when_asked() {
    let mut canvas = Image::with_color(1, 1, (10, 10, 10));
    let src = Image::from_buffer(1, 1, vec![0], Colors::Grey);
    canvas.draw_img(src, 0, 0, true, (255, 255, 255));
    assert_eq!(canvas.data(), &[10, 10, 10][..]);

    let mut canvas = Image::with_color(1, 1, (10, 10, 10));
    let src = Image::from_buffer(1, 1, vec![0], Colors::Grey);
    canvas.draw_img(src, -1, 0, false, (255, 255, 255));
    assert_eq!(canvas.data(), &[10, 10, 10][..]);
}
