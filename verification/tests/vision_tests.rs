use cheatess::board::Color;
use cheatess::error::CheatessError;
use cheatess::image::{crop, threshold, GrayImage};
use cheatess::vision::{
    are_images_different, convert_board_to_bin, detect_player_color, extract_pieces,
};

fn uniform(width: usize, height: usize, value: u8) -> GrayImage {
    GrayImage::new(width, height, vec![value; width * height])
}

fn set_pixel(img: &mut GrayImage, x: usize, y: usize, value: u8) {
    img.data[y * img.width + x] = value;
}

#[test]
fn threshold_drives_pixels_to_binary() {
    let img = GrayImage::new(4, 1, vec![0, 126, 127, 255]);
    let bin = threshold(&img, 127);
    assert_eq!(bin.data, vec![0, 0, 255, 255]);
    let bin2 = convert_board_to_bin(&img, 100);
    assert_eq!(bin2.data, vec![0, 255, 255, 255]);
}

#[test]
fn crop_reads_the_rectangle() {
    let img = GrayImage::new(4, 3, (0u8..12u8).collect());
    let part = crop(&img, 1, 1, 2, 2);
    assert_eq!(part.width, 2);
    assert_eq!(part.height, 2);
    assert_eq!(part.data, vec![5, 6, 9, 10]);
}

#[test]
fn crop_clips_at_the_image_edge() {
    let img = GrayImage::new(4, 3, (0u8..12u8).collect());
    let part = crop(&img, 3, 2, 5, 5);
    assert_eq!(part.width, 1);
    assert_eq!(part.height, 1);
    assert_eq!(part.data, vec![11]);
    let empty = crop(&img, 9, 9, 2, 2);
    assert_eq!(empty.width, 0);
    assert_eq!(empty.height, 0);
    assert!(empty.data.is_empty());
}

#[test]
fn detect_player_color_bright_corner_is_white() {
    let img = uniform(16, 16, 255);
    assert_eq!(detect_player_color(&img), Color::White);
}

#[test]
fn detect_player_color_dark_corner_is_black() {
    let mut img = uniform(16, 16, 255);
    // the bottom-left square is 2x2; darken it entirely
    set_pixel(&mut img, 0, 14, 0);
    set_pixel(&mut img, 1, 14, 0);
    set_pixel(&mut img, 0, 15, 0);
    set_pixel(&mut img, 1, 15, 0);
    assert_eq!(detect_player_color(&img), Color::Black);
}

#[test]
fn detect_player_color_ignores_other_squares() {
    let mut img = uniform(16, 16, 255);
    // darkness far from the bottom-left square changes nothing
    for x in 8..16 {
        for y in 0..8 {
            set_pixel(&mut img, x, y, 0);
        }
    }
    assert_eq!(detect_player_color(&img), Color::White);
}

#[test]
fn difference_gate_is_quiet_on_the_same_image() {
    let img = uniform(16, 16, 200);
    assert!(!are_images_different(&img, &img, 500));
    let busy = GrayImage::new(8, 8, (0u8..64u8).collect());
    assert!(!are_images_different(&busy, &busy, 1));
}

#[test]
fn difference_gate_fires_when_a_cell_crosses_the_threshold() {
    let img1 = uniform(8, 8, 255);
    let mut img2 = uniform(8, 8, 255);
    set_pixel(&mut img2, 0, 0, 0);
    // each grid cell is a single pixel; one dark pixel crosses a zero threshold
    assert!(are_images_different(&img1, &img2, 0));
    // a high threshold swallows the change
    assert!(!are_images_different(&img1, &img2, 500));
}

#[test]
fn extract_pieces_returns_twelve_named_templates() {
    let img = uniform(80, 80, 255);
    let pieces = extract_pieces(&img, 1, 127, &Color::White).unwrap();
    assert_eq!(pieces.len(), 12);
    let keys: Vec<char> = pieces.iter().map(|p| p.0).collect();
    for c in ['p', 'r', 'n', 'b', 'q', 'k', 'P', 'R', 'N', 'B', 'Q', 'K'] {
        assert_eq!(keys.iter().filter(|k| **k == c).count(), 1);
    }
    // grid step is ten pixels; a margin of one leaves eight each way
    assert_eq!(pieces[0].1.width, 8);
    assert_eq!(pieces[0].1.height, 8);
    assert!(pieces[0].1.data.iter().all(|p| *p == 255));

    let black = extract_pieces(&img, 1, 127, &Color::Black).unwrap();
    let black_keys: Vec<char> = black.iter().map(|p| p.0).collect();
    assert_eq!(black_keys[0], 'R');
    assert_eq!(keys[0], 'r');
}

#[test]
fn extract_pieces_rejects_an_image_too_small_for_the_inset() {
    // a 4x4 board: the grid step underflows the inset
    let img = uniform(4, 4, 255);
    let r = extract_pieces(&img, 5, 127, &Color::White);
    assert_eq!(
        r.map(|_| ()).unwrap_err(),
        CheatessError::TemplateExtractionFailed
    );
}

#[test]
fn extract_pieces_rejects_an_inset_that_swallows_the_tile() {
    // an 88x88 board has eleven-pixel tiles; a margin of ten insets twenty
    let img = uniform(88, 88, 255);
    let r = extract_pieces(&img, 10, 127, &Color::White);
    assert_eq!(
        r.map(|_| ()).unwrap_err(),
        CheatessError::TemplateExtractionFailed
    );
}
