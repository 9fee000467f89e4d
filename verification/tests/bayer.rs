use ditherpunk::bayer::MatriceBayer;
use ditherpunk::DitherError;

fn flatten(m: &MatriceBayer) -> Vec<u32> {
    let mut v: Vec<u32> = Vec::new();
    for row in &m.matrice {
        for cell in row {
            v.push(*cell);
        }
    }
    v
}

#[test]
fn bayer_order_1_exact() {
    let m = MatriceBayer::new_bayer_matrix(1).unwrap();
    assert_eq!(m.taille, 2);
    assert_eq!(m.matrice, vec![vec![0u32, 2], vec![3u32, 1]]);
}

#[test]
fn bayer_order_2_exact() {
    let m = MatriceBayer::new_bayer_matrix(2).unwrap();
    assert_eq!(m.taille, 4);
    assert_eq!(
        m.matrice,
        vec![
            vec![0u32, 8, 2, 10],
            vec![12u32, 4, 14, 6],
            vec![3u32, 11, 1, 9],
            vec![15u32, 7, 13, 5],
        ]
    );
}

#[test]
fn bayer_all_orders_are_permutations() {
    for ordre in 1..=6u32 {
        let m = MatriceBayer::new_bayer_matrix(ordre).unwrap();
        let side = 1usize << ordre;
        assert_eq!(m.taille, side);
        assert_eq!(m.matrice.len(), side);
        for row in &m.matrice {
            assert_eq!(row.len(), side);
        }
        let mut values = flatten(&m);
        values.sort();
        let expected: Vec<u32> = (0..(side * side) as u32).collect();
        assert_eq!(values, expected);
    }
}

#[test]
fn bayer_order_zero_rejected() {
    assert!(matches!(
        MatriceBayer::new_bayer_matrix(0),
        Err(DitherError::InvalidOrder)
    ));
}

#[test]
fn bayer_order_too_large_rejected() {
    assert!(matches!(
        MatriceBayer::new_bayer_matrix(7),
        Err(DitherError::InvalidOrder)
    ));
    assert!(matches!(
        MatriceBayer::new_bayer_matrix(u32::MAX),
        Err(DitherError::InvalidOrder)
    ));
}
