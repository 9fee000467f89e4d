use ditherpunk::color::{Pixel, euclidean_distance_sq, luma_scaled};
use ditherpunk::palette::couleur_la_plus_proche;
use ditherpunk::DitherError;

fn noir() -> Pixel {
    Pixel::new(0, 0, 0)
}
fn blanc() -> Pixel {
    Pixel::new(255, 255, 255)
}
fn rouge() -> Pixel {
    Pixel::new(255, 0, 0)
}
fn vert() -> Pixel {
    Pixel::new(0, 255, 0)
}
fn bleu() -> Pixel {
    Pixel::new(0, 0, 255)
}

#[test]
fn luma_is_bt709_scaled() {
    assert_eq!(luma_scaled(&noir()), 0);
    assert_eq!(luma_scaled(&blanc()), 2_550_000);
    assert_eq!(luma_scaled(&Pixel::new(128, 128, 128)), 1_280_000);
    // 2126*10 + 7152*20 + 722*30 = 21260 + 143040 + 21660
    assert_eq!(luma_scaled(&Pixel::new(10, 20, 30)), 185_960);
}

#[test]
fn distance_sq_is_exact() {
    assert_eq!(euclidean_distance_sq(&noir(), &noir()), 0);
    assert_eq!(euclidean_distance_sq(&noir(), &blanc()), 3 * 255 * 255);
    assert_eq!(
        euclidean_distance_sq(&Pixel::new(10, 20, 30), &Pixel::new(13, 16, 30)),
        9 + 16
    );
    // symmetric
    assert_eq!(
        euclidean_distance_sq(&rouge(), &vert()),
        euclidean_distance_sq(&vert(), &rouge())
    );
}

#[test]
fn nearest_picks_minimum() {
    let palette = vec![noir(), blanc(), rouge(), vert(), bleu()];
    assert_eq!(
        couleur_la_plus_proche(&Pixel::new(200, 60, 60), &palette),
        Ok(rouge())
    );
    assert_eq!(
        couleur_la_plus_proche(&Pixel::new(120, 130, 140), &vec![noir(), blanc(), rouge()]),
        Ok(blanc())
    );
    assert_eq!(couleur_la_plus_proche(&vert(), &palette), Ok(vert()));
}

#[test]
fn nearest_tie_first_entry_wins() {
    // (1,0,0) is at squared distance 1 from both entries.
    let palette = vec![Pixel::new(0, 0, 0), Pixel::new(2, 0, 0)];
    assert_eq!(
        couleur_la_plus_proche(&Pixel::new(1, 0, 0), &palette),
        Ok(Pixel::new(0, 0, 0))
    );
    // Reversed palette: the other entry now comes first.
    let palette2 = vec![Pixel::new(2, 0, 0), Pixel::new(0, 0, 0)];
    assert_eq!(
        couleur_la_plus_proche(&Pixel::new(1, 0, 0), &palette2),
        Ok(Pixel::new(2, 0, 0))
    );
}

#[test]
fn nearest_empty_palette_is_error() {
    let vide: Vec<Pixel> = Vec::new();
    assert_eq!(
        couleur_la_plus_proche(&noir(), &vide),
        Err(DitherError::EmptyPalette)
    );
}

#[test]
fn nearest_is_idempotent_on_samples() {
    let palette = vec![noir(), blanc(), rouge(), vert(), bleu()];
    let echantillons = [
        Pixel::new(17, 200, 3),
        Pixel::new(128, 128, 128),
        Pixel::new(254, 1, 77),
        Pixel::new(0, 0, 1),
    ];
    for p in echantillons {
        let q = couleur_la_plus_proche(&p, &palette).unwrap();
        assert_eq!(couleur_la_plus_proche(&q, &palette), Ok(q));
    }
}
