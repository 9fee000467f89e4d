use ditherpunk::buffer::PixelBuffer;
use ditherpunk::color::Pixel;
use ditherpunk::diffusion::{
    diffusion_d_erreur_floyd_steinberg_palette, diffusion_d_erreur_palette_matrice,
    diffusion_d_erreur_simple, diffusion_d_erreur_simple_palette, noyau_atkinson,
    noyau_floyd_steinberg, noyau_jarvis_judice_ninke, noyau_simple, DiffusionKernel,
};
use ditherpunk::DitherError;

fn noir() -> Pixel {
    Pixel::new(0, 0, 0)
}
fn blanc() -> Pixel {
    Pixel::new(255, 255, 255)
}
fn gris(v: u8) -> Pixel {
    Pixel::new(v, v, v)
}

#[test]
fn presets_have_expected_shape() {
    let fs = noyau_floyd_steinberg();
    assert_eq!(fs.facteur, 16);
    assert_eq!(fs.rangees, vec![vec![0, 0, 7], vec![3, 5, 1]]);

    let simple = noyau_simple();
    assert_eq!(simple.facteur, 2);
    assert_eq!(simple.rangees, vec![vec![0, 0, 1], vec![0, 1, 0]]);

    let jjn = noyau_jarvis_judice_ninke();
    assert_eq!(jjn.facteur, 48);
    assert_eq!(
        jjn.rangees,
        vec![vec![0, 0, 0, 7, 5], vec![3, 5, 7, 5, 3], vec![1, 3, 5, 3, 1]]
    );

    let atkinson = noyau_atkinson();
    assert_eq!(atkinson.facteur, 8);
    assert_eq!(
        atkinson.rangees,
        vec![vec![0, 0, 0, 1, 1], vec![0, 1, 1, 1, 0], vec![0, 0, 1, 0, 0]]
    );
}

#[test]
fn floyd_steinberg_mid_gray_2x2() {
    let mut buf = PixelBuffer::new(2, 2, gris(128));
    assert_eq!(
        diffusion_d_erreur_floyd_steinberg_palette(&mut buf, &vec![noir(), blanc()]),
        Ok(())
    );
    assert_eq!(buf.pixels, vec![blanc(), noir(), noir(), blanc()]);
}

#[test]
fn floyd_steinberg_colors_2x2() {
    let pixels = vec![
        Pixel::new(200, 30, 60),
        Pixel::new(10, 220, 90),
        Pixel::new(100, 100, 100),
        Pixel::new(250, 250, 0),
    ];
    let palette = vec![
        noir(),
        blanc(),
        Pixel::new(255, 0, 0),
        Pixel::new(0, 255, 0),
        Pixel::new(0, 0, 255),
    ];
    let mut buf = PixelBuffer::from_pixels(2, 2, pixels).unwrap();
    assert_eq!(
        diffusion_d_erreur_floyd_steinberg_palette(&mut buf, &palette),
        Ok(())
    );
    assert_eq!(
        buf.pixels,
        vec![
            Pixel::new(255, 0, 0),
            Pixel::new(0, 255, 0),
            Pixel::new(0, 0, 255),
            blanc(),
        ]
    );
}

#[test]
fn floyd_steinberg_mid_gray_average_is_preserved() {
    // A 32x32 mid-gray image quantized to black and white: per-pixel
    // output is binary, but the average brightness over the whole image
    // stays close to the input's 128.
    let mut buf = PixelBuffer::new(32, 32, gris(128));
    assert_eq!(
        diffusion_d_erreur_floyd_steinberg_palette(&mut buf, &vec![noir(), blanc()]),
        Ok(())
    );
    let mut somme: u64 = 0;
    for p in &buf.pixels {
        assert!(*p == noir() || *p == blanc());
        somme += p.r as u64;
    }
    let moyenne_x10 = somme * 10 / (32 * 32);
    // 127.5 on this input; accept a small window around 128.
    assert!(moyenne_x10 >= 1200 && moyenne_x10 <= 1360, "average {}", moyenne_x10);
}

#[test]
fn simple_palette_gray_row() {
    let mut buf = PixelBuffer::new(3, 1, gris(100));
    assert_eq!(
        diffusion_d_erreur_simple_palette(&mut buf, &vec![noir(), blanc()]),
        Ok(())
    );
    assert_eq!(buf.pixels, vec![noir(), blanc(), noir()]);
}

#[test]
fn trivial_palette_leaves_image_unchanged() {
    // The palette holds the image's only color twice: every pixel matches
    // exactly, no error is propagated, the buffer comes back identical.
    let c = Pixel::new(47, 183, 201);
    let palette = vec![c, c];
    let mut buf = PixelBuffer::new(4, 3, c);
    assert_eq!(
        diffusion_d_erreur_floyd_steinberg_palette(&mut buf, &palette),
        Ok(())
    );
    assert_eq!(buf.pixels, vec![c; 12]);

    let mut buf2 = PixelBuffer::new(4, 3, c);
    let jjn = noyau_jarvis_judice_ninke();
    assert_eq!(
        diffusion_d_erreur_palette_matrice(&mut buf2, &palette, &jjn),
        Ok(())
    );
    assert_eq!(buf2.pixels, vec![c; 12]);
}

#[test]
fn one_pixel_image_skips_out_of_bounds_targets() {
    // Every kernel target of a 1x1 image falls outside the buffer; the
    // single pixel is simply quantized, deterministically.
    let palette = vec![noir(), blanc()];
    let jjn = noyau_jarvis_judice_ninke();
    let mut buf = PixelBuffer::new(1, 1, Pixel::new(200, 30, 60));
    assert_eq!(
        diffusion_d_erreur_palette_matrice(&mut buf, &palette, &jjn),
        Ok(())
    );
    assert_eq!(buf.pixels, vec![noir()]);

    let atkinson = noyau_atkinson();
    let mut buf2 = PixelBuffer::new(1, 1, Pixel::new(10, 220, 90));
    assert_eq!(
        diffusion_d_erreur_palette_matrice(&mut buf2, &palette, &atkinson),
        Ok(())
    );
    assert_eq!(buf2.pixels, vec![noir()]);
}

#[test]
fn jarvis_judice_ninke_mid_gray_3x3() {
    let mut buf = PixelBuffer::new(3, 3, gris(128));
    let jjn = noyau_jarvis_judice_ninke();
    assert_eq!(
        diffusion_d_erreur_palette_matrice(&mut buf, &vec![noir(), blanc()], &jjn),
        Ok(())
    );
    assert_eq!(
        buf.pixels,
        vec![
            blanc(),
            noir(),
            blanc(),
            noir(),
            blanc(),
            noir(),
            blanc(),
            noir(),
            blanc(),
        ]
    );
}

#[test]
fn atkinson_mid_gray_3x3() {
    let mut buf = PixelBuffer::new(3, 3, gris(128));
    let atkinson = noyau_atkinson();
    assert_eq!(
        diffusion_d_erreur_palette_matrice(&mut buf, &vec![noir(), blanc()], &atkinson),
        Ok(())
    );
    assert_eq!(
        buf.pixels,
        vec![
            blanc(),
            noir(),
            noir(),
            noir(),
            blanc(),
            blanc(),
            noir(),
            blanc(),
            noir(),
        ]
    );
}

#[test]
fn diffusion_empty_palette_is_error() {
    let vide: Vec<Pixel> = Vec::new();
    let fs = noyau_floyd_steinberg();

    let mut buf = PixelBuffer::new(2, 2, gris(77));
    assert_eq!(
        diffusion_d_erreur_palette_matrice(&mut buf, &vide, &fs),
        Err(DitherError::EmptyPalette)
    );
    assert_eq!(
        diffusion_d_erreur_floyd_steinberg_palette(&mut buf, &vide),
        Err(DitherError::EmptyPalette)
    );
    assert_eq!(
        diffusion_d_erreur_simple_palette(&mut buf, &vide),
        Err(DitherError::EmptyPalette)
    );
    assert_eq!(buf.pixels, vec![gris(77); 4]);
}

#[test]
fn diffusion_invalid_kernel_is_error() {
    let palette = vec![noir(), blanc()];
    let mut buf = PixelBuffer::new(2, 2, gris(77));

    let sans_rangees = DiffusionKernel {
        rangees: Vec::new(),
        facteur: 16,
    };
    assert_eq!(
        diffusion_d_erreur_palette_matrice(&mut buf, &palette, &sans_rangees),
        Err(DitherError::InvalidKernel)
    );

    let rangee_vide = DiffusionKernel {
        rangees: vec![vec![1, 2], Vec::new()],
        facteur: 16,
    };
    assert_eq!(
        diffusion_d_erreur_palette_matrice(&mut buf, &palette, &rangee_vide),
        Err(DitherError::InvalidKernel)
    );

    let facteur_nul = DiffusionKernel {
        rangees: vec![vec![1]],
        facteur: 0,
    };
    assert_eq!(
        diffusion_d_erreur_palette_matrice(&mut buf, &palette, &facteur_nul),
        Err(DitherError::InvalidKernel)
    );
    assert_eq!(buf.pixels, vec![gris(77); 4]);
}

#[test]
fn simple_diffusion_mid_gray_2x2() {
    // Luma 128 is committed to black, its whole brightness flows right
    // and down; those then exceed the threshold, turn white, and push
    // their deficit into the last pixel.
    let mut buf = PixelBuffer::new(2, 2, gris(128));
    diffusion_d_erreur_simple(&mut buf);
    assert_eq!(buf.pixels, vec![noir(), blanc(), blanc(), noir()]);
}

#[test]
fn simple_diffusion_row() {
    let pixels = vec![
        Pixel::new(200, 30, 60),
        Pixel::new(10, 220, 90),
        Pixel::new(100, 100, 100),
    ];
    let mut buf = PixelBuffer::from_pixels(3, 1, pixels).unwrap();
    diffusion_d_erreur_simple(&mut buf);
    assert_eq!(buf.pixels, vec![noir(), blanc(), noir()]);
}

#[test]
fn simple_diffusion_one_pixel() {
    let mut buf = PixelBuffer::new(1, 1, gris(129));
    diffusion_d_erreur_simple(&mut buf);
    assert_eq!(buf.pixels, vec![blanc()]);

    let mut buf2 = PixelBuffer::new(1, 1, gris(128));
    diffusion_d_erreur_simple(&mut buf2);
    assert_eq!(buf2.pixels, vec![noir()]);
}
