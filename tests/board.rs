use latin_board::board::make_board;
use latin_board::grid::ShapeError;
use latin_board::randomize::{randomize_board_mut, turn_and_shift};
use latin_board::render::{tile_at_pixel, tile_rgb, Layout, Rgb};
use latin_board::rotate::rotate_matrix_mut;
use rand::rngs::StdRng;
use rand::SeedableRng;

fn is_latin(m: &Vec<Vec<u32>>) -> bool {
    let n = m.len();
    for row in m {
        if row.len() != n {
            return false;
        }
        let mut seen = vec![false; n];
        for &t in row {
            if t as usize >= n || seen[t as usize] {
                return false;
            }
            seen[t as usize] = true;
        }
    }
    for j in 0..n {
        let mut seen = vec![false; n];
        for i in 0..n {
            let t = m[i][j] as usize;
            if seen[t] {
                return false;
            }
            seen[t] = true;
        }
    }
    true
}

#[test]
fn build_five_is_exact() {
    let b = make_board(5);
    assert_eq!(
        b,
        vec![
            vec![0, 1, 2, 3, 4],
            vec![4, 0, 1, 2, 3],
            vec![3, 4, 0, 1, 2],
            vec![2, 3, 4, 0, 1],
            vec![1, 2, 3, 4, 0],
        ]
    );
}

#[test]
fn build_is_latin_for_small_sizes() {
    for n in 1..=12u32 {
        let b = make_board(n);
        assert_eq!(b.len(), n as usize);
        assert!(is_latin(&b), "size {}", n);
    }
}

#[test]
fn build_zero_is_empty() {
    assert!(make_board(0).is_empty());
}

#[test]
fn build_one_is_single_cell() {
    assert_eq!(make_board(1), vec![vec![0]]);
}

#[test]
fn rotate_one_is_no_op() {
    let mut b = make_board(1);
    assert_eq!(rotate_matrix_mut(&mut b), Ok(()));
    assert_eq!(b, vec![vec![0]]);
}

#[test]
fn randomize_one_is_no_op() {
    let mut b = make_board(1);
    let mut rng = StdRng::seed_from_u64(7);
    assert_eq!(randomize_board_mut(&mut b, &mut rng), Ok(()));
    assert_eq!(b, vec![vec![0]]);
}

#[test]
fn rotate_three_turns_clockwise() {
    let mut b = make_board(3);
    assert_eq!(b, vec![vec![0, 1, 2], vec![2, 0, 1], vec![1, 2, 0]]);
    assert_eq!(rotate_matrix_mut(&mut b), Ok(()));
    assert_eq!(b, vec![vec![1, 2, 0], vec![2, 0, 1], vec![0, 1, 2]]);
}

#[test]
fn rotate_four_rectangular_values() {
    let mut m: Vec<Vec<u32>> = vec![
        vec![1, 2, 3, 4],
        vec![5, 6, 7, 8],
        vec![9, 10, 11, 12],
        vec![13, 14, 15, 16],
    ];
    assert_eq!(rotate_matrix_mut(&mut m), Ok(()));
    assert_eq!(
        m,
        vec![
            vec![13, 9, 5, 1],
            vec![14, 10, 6, 2],
            vec![15, 11, 7, 3],
            vec![16, 12, 8, 4],
        ]
    );
}

#[test]
fn four_turns_are_identity() {
    for n in 0..=7u32 {
        let start = make_board(n);
        let mut b = start.clone();
        for _ in 0..4 {
            assert_eq!(rotate_matrix_mut(&mut b), Ok(()));
        }
        assert_eq!(b, start);
    }
}

#[test]
fn rotate_keeps_latin() {
    for n in 1..=7u32 {
        let mut b = make_board(n);
        assert_eq!(rotate_matrix_mut(&mut b), Ok(()));
        assert!(is_latin(&b), "size {}", n);
    }
}

#[test]
fn rotate_empty_is_ok() {
    let mut b: Vec<Vec<u32>> = Vec::new();
    assert_eq!(rotate_matrix_mut(&mut b), Ok(()));
    assert!(b.is_empty());
}

#[test]
fn rotate_refuses_ragged_grid() {
    let mut m: Vec<Vec<u32>> = vec![vec![0, 1], vec![1]];
    assert_eq!(rotate_matrix_mut(&mut m), Err(ShapeError::NotSquare));
    assert_eq!(m, vec![vec![0, 1], vec![1]]);
}

#[test]
fn turn_and_shift_three_by_one() {
    let mut b = make_board(3);
    turn_and_shift(&mut b, 1);
    assert_eq!(b, vec![vec![2, 0, 1], vec![0, 1, 2], vec![1, 2, 0]]);
}

#[test]
fn turn_and_shift_zero_is_turn() {
    let mut b = make_board(4);
    let mut turned = b.clone();
    assert_eq!(rotate_matrix_mut(&mut turned), Ok(()));
    turn_and_shift(&mut b, 0);
    assert_eq!(b, turned);
}

#[test]
fn randomize_keeps_latin_over_many_seeds() {
    for n in 1..=6u32 {
        for seed in 0..200u64 {
            let mut b = make_board(n);
            let mut rng = StdRng::seed_from_u64(seed);
            assert_eq!(randomize_board_mut(&mut b, &mut rng), Ok(()));
            assert_eq!(b.len(), n as usize);
            assert!(is_latin(&b), "size {} seed {}", n, seed);
        }
    }
}

#[test]
fn randomize_is_reproducible() {
    for seed in [0u64, 1, 42, 12345] {
        let mut a = make_board(5);
        let mut b = make_board(5);
        let mut rng_a = StdRng::seed_from_u64(seed);
        let mut rng_b = StdRng::seed_from_u64(seed);
        assert_eq!(randomize_board_mut(&mut a, &mut rng_a), Ok(()));
        assert_eq!(randomize_board_mut(&mut b, &mut rng_b), Ok(()));
        assert_eq!(a, b);
    }
}

#[test]
fn randomize_changes_the_board() {
    let canonical = make_board(5);
    let changed = (0..20u64).any(|seed| {
        let mut b = make_board(5);
        let mut rng = StdRng::seed_from_u64(seed);
        randomize_board_mut(&mut b, &mut rng).unwrap();
        b != canonical
    });
    assert!(changed);
}

#[test]
fn randomize_refuses_empty_board() {
    let mut b: Vec<Vec<u32>> = Vec::new();
    let mut rng = StdRng::seed_from_u64(3);
    assert_eq!(randomize_board_mut(&mut b, &mut rng), Err(ShapeError::Empty));
    assert!(b.is_empty());
}

#[test]
fn randomize_refuses_ragged_board() {
    let mut b: Vec<Vec<u32>> = vec![vec![0, 1, 2], vec![1, 2], vec![2, 0, 1]];
    let kept = b.clone();
    let mut rng = StdRng::seed_from_u64(3);
    assert_eq!(randomize_board_mut(&mut b, &mut rng), Err(ShapeError::NotSquare));
    assert_eq!(b, kept);
}

#[test]
fn palette_colours() {
    assert_eq!(tile_rgb(0), Some(Rgb { red: 160, green: 70, blue: 70 }));
    assert_eq!(tile_rgb(1), Some(Rgb { red: 172, green: 124, blue: 73 }));
    assert_eq!(tile_rgb(2), Some(Rgb { red: 129, green: 186, blue: 178 }));
    assert_eq!(tile_rgb(3), Some(Rgb { red: 221, green: 209, blue: 213 }));
    assert_eq!(tile_rgb(4), Some(Rgb { red: 59, green: 64, blue: 85 }));
    assert_eq!(tile_rgb(5), None);
}

#[test]
fn pixel_lookup() {
    let b = make_board(3);
    let layout = Layout { x0: 100, y0: 100, tile_width: 10 };
    assert_eq!(tile_at_pixel(&b, layout, 100, 100), Some(0));
    assert_eq!(tile_at_pixel(&b, layout, 125, 105), Some(2));
    assert_eq!(tile_at_pixel(&b, layout, 105, 115), Some(2));
    assert_eq!(tile_at_pixel(&b, layout, 129, 129), Some(0));
    assert_eq!(tile_at_pixel(&b, layout, 99, 100), None);
    assert_eq!(tile_at_pixel(&b, layout, 130, 100), None);
    assert_eq!(tile_at_pixel(&b, layout, 100, 130), None);
    let flat = Layout { x0: 0, y0: 0, tile_width: 0 };
    assert_eq!(tile_at_pixel(&b, flat, 0, 0), None);
}
