use ditherpunk::buffer::PixelBuffer;
use ditherpunk::color::Pixel;
use ditherpunk::format_dossier;
use ditherpunk::threshold::{
    monochrome_par_paire, ordered_dithering, passage_a_une_palette, tramage_pixel, tramage_random,
};
use ditherpunk::DitherError;

fn noir() -> Pixel {
    Pixel::new(0, 0, 0)
}
fn blanc() -> Pixel {
    Pixel::new(255, 255, 255)
}
fn gris(v: u8) -> Pixel {
    Pixel::new(v, v, v)
}

fn uniforme(w: usize, h: usize, p: Pixel) -> PixelBuffer {
    PixelBuffer::new(w, h, p)
}

#[test]
fn monochrome_boundary_128_is_second_color() {
    // Palette [white, black]: gray 128 has luma exactly 128, which is not
    // strictly above the threshold, so the second color (black) wins.
    let mut buf = uniforme(3, 2, gris(128));
    monochrome_par_paire(&mut buf, blanc(), noir());
    for p in &buf.pixels {
        assert_eq!(*p, noir());
    }
}

#[test]
fn monochrome_129_is_first_color() {
    let mut buf = uniforme(2, 2, gris(129));
    monochrome_par_paire(&mut buf, blanc(), noir());
    for p in &buf.pixels {
        assert_eq!(*p, blanc());
    }
}

#[test]
fn monochrome_extremes() {
    let mut buf = uniforme(1, 2, gris(0));
    monochrome_par_paire(&mut buf, blanc(), noir());
    assert_eq!(buf.pixels, vec![noir(), noir()]);

    let mut buf2 = uniforme(1, 2, gris(255));
    monochrome_par_paire(&mut buf2, blanc(), noir());
    assert_eq!(buf2.pixels, vec![blanc(), blanc()]);
}

#[test]
fn monochrome_mixed_image() {
    let pixels = vec![gris(128), gris(129), noir(), blanc()];
    let mut buf = PixelBuffer::from_pixels(2, 2, pixels).unwrap();
    monochrome_par_paire(&mut buf, blanc(), noir());
    assert_eq!(buf.pixels, vec![noir(), blanc(), noir(), blanc()]);
}

#[test]
fn palette_quantization_maps_each_pixel() {
    let palette = vec![noir(), blanc(), Pixel::new(255, 0, 0)];
    let pixels = vec![
        Pixel::new(200, 60, 60),
        Pixel::new(120, 130, 140),
        Pixel::new(10, 10, 10),
        Pixel::new(250, 250, 250),
    ];
    let mut buf = PixelBuffer::from_pixels(2, 2, pixels).unwrap();
    assert_eq!(passage_a_une_palette(&mut buf, &palette), Ok(()));
    assert_eq!(
        buf.pixels,
        vec![Pixel::new(255, 0, 0), blanc(), noir(), blanc()]
    );
}

#[test]
fn palette_quantization_empty_palette_is_error() {
    let mut buf = uniforme(2, 2, gris(10));
    let vide: Vec<Pixel> = Vec::new();
    assert_eq!(
        passage_a_une_palette(&mut buf, &vide),
        Err(DitherError::EmptyPalette)
    );
    // The buffer is untouched.
    assert_eq!(buf.pixels, vec![gris(10); 4]);
}

#[test]
fn tramage_output_is_black_or_white() {
    let pixels = vec![
        gris(3),
        gris(250),
        Pixel::new(12, 200, 37),
        Pixel::new(99, 1, 255),
        gris(128),
        gris(127),
    ];
    let mut buf = PixelBuffer::from_pixels(3, 2, pixels).unwrap();
    tramage_random(&mut buf);
    for p in &buf.pixels {
        assert!(*p == noir() || *p == blanc());
    }
}

#[test]
fn tramage_extremes_are_deterministic() {
    let mut blancs = uniforme(4, 4, blanc());
    tramage_random(&mut blancs);
    assert_eq!(blancs.pixels, vec![blanc(); 16]);

    let mut noirs = uniforme(4, 4, noir());
    tramage_random(&mut noirs);
    assert_eq!(noirs.pixels, vec![noir(); 16]);
}

#[test]
fn tramage_pixel_threshold_is_exact() {
    // gray 128: luma/255 == 128/255; a draw just below that stays white,
    // one just above gives black.  The crossing point is at
    // alea == luma * 2^64 / 2_550_000.
    let p = gris(128);
    // 1_280_000 * 2^64 / 2_550_000 == 128 * 2^64 / 255, rounded down; the
    // division is not exact, so the floor itself still falls below the
    // crossing point.
    let seuil: u64 = ((128u128 << 64) / 255u128) as u64;
    assert_eq!(tramage_pixel(&p, seuil), blanc());
    assert_eq!(tramage_pixel(&p, seuil + 1), noir());
    assert_eq!(tramage_pixel(&p, u64::MAX), noir());
    assert_eq!(tramage_pixel(&blanc(), u64::MAX), blanc());
    assert_eq!(tramage_pixel(&noir(), 0), noir());
}

#[test]
fn ordered_dithering_2x2_scenario() {
    // 2x2 image, white on the diagonal, order-1 Bayer matrix [[0,2],[3,1]].
    // Thresholds are cell/4; luma 1.0 beats 0 and 1/4, luma 0.0 beats
    // nothing, so the image is reproduced exactly.
    let pixels = vec![blanc(), noir(), noir(), blanc()];
    let mut buf = PixelBuffer::from_pixels(2, 2, pixels.clone()).unwrap();
    assert_eq!(ordered_dithering(&mut buf, 1), Ok(()));
    assert_eq!(buf.pixels, pixels);
}

#[test]
fn ordered_dithering_constant_gray_order_1() {
    // Gray 128: luma/255 = 0.50196; thresholds 0, 2/4, 3/4, 1/4.
    // Strictly above 0, 1/4 and 2/4 is false only for 2/4? No:
    // 0.50196 > 0.5 holds, so only the 3/4 cell goes black.
    let mut buf = uniforme(2, 2, gris(128));
    assert_eq!(ordered_dithering(&mut buf, 1), Ok(()));
    assert_eq!(buf.pixels, vec![blanc(), blanc(), noir(), blanc()]);
}

#[test]
fn ordered_dithering_invalid_order() {
    let mut buf = uniforme(2, 2, gris(128));
    assert_eq!(
        ordered_dithering(&mut buf, 0),
        Err(DitherError::InvalidOrder)
    );
    assert_eq!(
        ordered_dithering(&mut buf, 9),
        Err(DitherError::InvalidOrder)
    );
    assert_eq!(buf.pixels, vec![gris(128); 4]);
}

#[test]
fn format_dossier_appends_slash() {
    assert_eq!(format_dossier("sortie"), "sortie/");
    assert_eq!(format_dossier("a/b"), "a/b/");
    assert_eq!(format_dossier(""), "/");
}

#[test]
fn format_dossier_keeps_existing_slash() {
    assert_eq!(format_dossier("sortie/"), "sortie/");
    assert_eq!(format_dossier("/"), "/");
}

#[test]
fn from_pixels_checks_dimensions() {
    assert!(PixelBuffer::from_pixels(2, 2, vec![noir(); 3]).is_none());
    assert!(PixelBuffer::from_pixels(2, 2, vec![noir(); 4]).is_some());
    assert!(PixelBuffer::from_pixels(0, 5, Vec::new()).is_some());
}
