use life::{Life, LifeError};

fn cell_or_dead(g: &[Vec<u8>], r: i64, c: i64) -> u8 {
    if r < 0 || c < 0 || r as usize >= g.len() || c as usize >= g[r as usize].len() {
        0
    } else {
        g[r as usize][c as usize]
    }
}

fn snapshot(l: &Life) -> Vec<Vec<u8>> {
    let mut g = Vec::new();
    for r in 0..l.height() {
        let mut row = Vec::new();
        for c in 0..l.width() {
            row.push(l.get(r, c));
        }
        g.push(row);
    }
    g
}

fn reference_step(g: &[Vec<u8>]) -> Vec<Vec<u8>> {
    let mut out = Vec::new();
    for r in 0..g.len() {
        let mut row = Vec::new();
        for c in 0..g[r].len() {
            let mut n = 0;
            for dr in -1i64..=1 {
                for dc in -1i64..=1 {
                    if dr != 0 || dc != 0 {
                        n += cell_or_dead(g, r as i64 + dr, c as i64 + dc);
                    }
                }
            }
            row.push(if n == 3 || (n == 2 && g[r][c] == 1) { 1 } else { 0 });
        }
        out.push(row);
    }
    out
}

fn board_with(w: u32, h: u32, alive: &[(u32, u32)]) -> Life {
    let mut l = Life::new(w, h).unwrap();
    for &(r, c) in alive {
        l.set(r, c, 1);
    }
    l
}

fn alive_cells(l: &Life) -> Vec<(u32, u32)> {
    let mut v = Vec::new();
    for r in 0..l.height() {
        for c in 0..l.width() {
            if l.get(r, c) == 1 {
                v.push((r, c));
            }
        }
    }
    v
}

#[test]
fn test_update() {
    let mut life = Life::new_random(200, 200).unwrap();
    life.set(0, 0, 1);
    life.set(0, 1, 1);
    life.set(1, 1, 1);
    life.set(1, 0, 1);
    let prev = snapshot(&life);
    life.update();
    for x in 0..life.width() as i64 {
        for y in 0..life.height() as i64 {
            let mut sum = 0;
            for i in -1..=1 {
                for j in -1..=1 {
                    sum += cell_or_dead(&prev, y + j, x + i);
                }
            }
            let n = cell_or_dead(&prev, y, x);
            sum -= n;
            let cur = life.get(y as u32, x as u32);
            if sum == 3 {
                assert_eq!(cur, 1, "{} {}", x, y);
            } else if sum != 2 {
                assert_eq!(cur, 0, "{} {}", x, y);
            } else {
                assert_eq!(cur, n, "{} {}", x, y);
            }
        }
    }
}

#[test]
fn block_is_still_life() {
    let cells = [(4, 4), (4, 5), (5, 4), (5, 5)];
    let mut l = board_with(10, 10, &cells);
    l.update();
    assert_eq!(alive_cells(&l), cells.to_vec());
    for _ in 0..10 {
        l.update();
    }
    assert_eq!(alive_cells(&l), cells.to_vec());
}

#[test]
fn blinker_oscillates() {
    let mut l = board_with(10, 10, &[(5, 4), (5, 5), (5, 6)]);
    l.update();
    assert_eq!(alive_cells(&l), vec![(4, 5), (5, 5), (6, 5)]);
    l.update();
    assert_eq!(alive_cells(&l), vec![(5, 4), (5, 5), (5, 6)]);
}

#[test]
fn height_below_two_is_rejected() {
    assert_eq!(Life::new(10, 1).err(), Some(LifeError::HeightTooSmall));
    assert_eq!(Life::new(10, 0).err(), Some(LifeError::HeightTooSmall));
    assert_eq!(Life::new_random(10, 1).err(), Some(LifeError::HeightTooSmall));
    let l = Life::new(10, 2).unwrap();
    assert_eq!(l.height(), 2);
    assert_eq!(l.width(), 10);
}

#[test]
fn dead_board_stays_dead() {
    let mut l = Life::new(70, 9).unwrap();
    for _ in 0..5 {
        l.update();
        assert!(alive_cells(&l).is_empty());
    }
}

#[test]
fn same_seed_same_generations() {
    let seed = [(0, 0), (1, 2), (2, 0), (2, 1), (2, 2), (7, 7), (7, 8), (7, 9)];
    let mut a = board_with(20, 15, &seed);
    let mut b = board_with(20, 15, &seed);
    for _ in 0..12 {
        a.update();
        b.update();
        assert_eq!(snapshot(&a), snapshot(&b));
    }
}

#[test]
fn corner_block_is_still_life() {
    let cells = [(0, 0), (0, 1), (1, 0), (1, 1)];
    let mut l = board_with(5, 2, &cells);
    l.update();
    assert_eq!(alive_cells(&l), cells.to_vec());
}

#[test]
fn lonely_cell_dies_and_three_give_birth() {
    let mut l = board_with(6, 6, &[(0, 0)]);
    l.update();
    assert!(alive_cells(&l).is_empty());
    let mut l = board_with(6, 6, &[(1, 1), (1, 3), (3, 2)]);
    l.update();
    assert_eq!(alive_cells(&l), vec![(2, 2)]);
}

#[test]
fn right_edge_next_to_shadow_cells() {
    // 70 columns: the second lane holds 6 real cells and 58 shadow cells.
    let mut l = board_with(70, 8, &[(3, 69), (4, 69), (5, 69)]);
    l.update();
    assert_eq!(alive_cells(&l), vec![(4, 68), (4, 69)]);
    l.update();
    assert!(alive_cells(&l).is_empty());
}

#[test]
fn random_boards_follow_the_rule() {
    for &(w, h) in &[(64u32, 7u32), (70, 9), (128, 3), (1, 5), (130, 2)] {
        let mut l = Life::new_random(w, h).unwrap();
        for _ in 0..6 {
            let before = snapshot(&l);
            l.update();
            assert_eq!(snapshot(&l), reference_step(&before), "{} {}", w, h);
        }
    }
}

#[test]
fn random_seed_is_zero_or_one_and_not_all_dead() {
    let l = Life::new_random(200, 200).unwrap();
    let g = snapshot(&l);
    assert!(g.iter().all(|row| row.iter().all(|&v| v <= 1)));
    assert!(g.iter().any(|row| row.iter().any(|&v| v == 1)));
    assert_eq!(l.value(), g[0][0]);
}

#[test]
fn value_reads_top_left() {
    let mut l = Life::new(3, 3).unwrap();
    assert_eq!(l.value(), 0);
    l.set(0, 0, 1);
    assert_eq!(l.value(), 1);
    l.set(0, 0, 0);
    assert_eq!(l.value(), 0);
}

#[test]
fn zero_width_board_updates() {
    let mut l = Life::new(0, 3).unwrap();
    l.update();
    assert_eq!(l.width(), 0);
    assert_eq!(l.height(), 3);
}

#[test]
fn from_cells_lays_cells_out_row_by_row() {
    let cells: Vec<u8> = vec![1, 0, 0, 0, 1, 1, 0, 1, 0, 0, 0, 1];
    let l = Life::from_cells(4, 3, &cells).unwrap();
    let expected = vec![vec![1, 0, 0, 0], vec![1, 1, 0, 1], vec![0, 0, 0, 1]];
    assert_eq!(snapshot(&l), expected);
    assert_eq!(l.value(), 1);
    assert_eq!(Life::from_cells(4, 1, &vec![0, 1, 0, 1]).err(), Some(LifeError::HeightTooSmall));
}

#[test]
fn same_cells_same_generations() {
    let cells: Vec<u8> = (0..90u32).map(|k| ((k * 7 + k / 3) % 2) as u8).collect();
    let mut a = Life::from_cells(10, 9, &cells).unwrap();
    let mut b = Life::from_cells(10, 9, &cells).unwrap();
    assert_eq!(snapshot(&a), snapshot(&b));
    for _ in 0..8 {
        a.update();
        b.update();
        assert_eq!(snapshot(&a), snapshot(&b));
    }
}
