use spacemines::error::Error;
use spacemines::field::tile::Coordintes;
use spacemines::field::Field;

fn at(x: u8, y: u8) -> Coordintes {
    Coordintes { x, y }
}

fn disclosed(f: &Field) -> Vec<bool> {
    f.get_field().iter().map(|t| t.revealed).collect()
}

/// The cells a disclosure of `start` uncovers, found by walking the board.
fn expected_region(f: &Field, start: Coordintes) -> Vec<bool> {
    let limit = f.get_limit();
    let tiles = f.get_field();
    let idx = |c: &Coordintes| c.x as usize + c.y as usize * limit.x as usize;
    let mut want: Vec<bool> = tiles.iter().map(|t| t.revealed).collect();
    if tiles[idx(&start)].is_mine || tiles[idx(&start)].revealed {
        return want;
    }
    let mut grown = vec![false; tiles.len()];
    let mut stack = vec![start];
    want[idx(&start)] = true;
    while let Some(c) = stack.pop() {
        if grown[idx(&c)] || tiles[idx(&c)].value != 0 || tiles[idx(&c)].revealed {
            continue;
        }
        grown[idx(&c)] = true;
        for dy in -1i16..=1 {
            for dx in -1i16..=1 {
                let (nx, ny) = (c.x as i16 + dx, c.y as i16 + dy);
                if nx < 0 || ny < 0 || nx >= limit.x as i16 || ny >= limit.y as i16 {
                    continue;
                }
                let n = at(nx as u8, ny as u8);
                want[idx(&n)] = true;
                stack.push(n);
            }
        }
    }
    want
}

#[test]
fn a_single_cell_board_is_won_by_one_disclosure() {
    let mut f = Field::new(1, 1, 0);
    assert!(!f.victory());
    let t = f.disclose(&at(0, 0)).unwrap();
    assert!(t.revealed);
    assert!(!t.is_mine);
    assert_eq!(t.value, 0);
    assert!(f.get_field()[0].revealed);
    assert!(f.victory());
}

#[test]
fn the_centre_of_an_empty_board_uncovers_all_nine_cells() {
    let mut f = Field::new(3, 3, 0);
    let t = f.disclose(&at(1, 1)).unwrap();
    assert!(t.revealed);
    assert_eq!(disclosed(&f), vec![true; 9]);
    assert!(f.victory());
}

#[test]
fn any_cell_of_a_board_without_mines_uncovers_the_whole_board() {
    for (w, h) in [(1u8, 1u8), (1, 6), (6, 1), (4, 7), (12, 9)] {
        for y in 0..h {
            for x in 0..w {
                let mut f = Field::new(w, h, 0);
                if (x + y) % 2 == 0 {
                    f.init(&at(0, 0), 5).unwrap();
                }
                f.disclose(&at(x, y)).unwrap();
                assert!(disclosed(&f).iter().all(|r| *r));
                assert!(f.victory());
                f.disclose(&at(x, y)).unwrap();
                assert!(disclosed(&f).iter().all(|r| *r));
            }
        }
    }
}

#[test]
fn a_full_board_is_won_by_flags_only() {
    let mut f = Field::new(2, 2, 4);
    f.init(&at(0, 0), 3).unwrap();
    assert!(f.get_field().iter().all(|t| t.is_mine));
    assert!(!f.victory());
    let cells = [at(0, 0), at(1, 0), at(0, 1), at(1, 1)];
    for (k, c) in cells.iter().enumerate() {
        assert!(!f.victory());
        let t = f.disclose(c).unwrap();
        assert!(t.is_mine && !t.revealed);
        assert!(!f.victory());
        f.flag(c).unwrap();
        assert_eq!(f.num_flags(), k as u16 + 1);
    }
    assert!(f.victory());
    assert!(f.get_field().iter().all(|t| !t.revealed));
    f.flag(&at(1, 0)).unwrap();
    assert!(!f.victory());
}

#[test]
fn disclosing_off_the_board_fails_and_changes_nothing() {
    for (w, h, mines) in [(3u8, 3u8, 0u16), (5, 4, 6), (1, 1, 1)] {
        let mut f = Field::new(w, h, mines);
        f.init(&at(0, 0), 8).unwrap();
        f.flag(&at(0, 0)).unwrap();
        let before: Vec<_> =
            f.get_field().iter().map(|t| (t.value, t.is_mine, t.flag, t.unknown, t.revealed)).collect();
        for c in [at(w, 0), at(0, h), at(w, h), at(255, 255)] {
            assert_eq!(f.disclose(&c).map(|t| t.revealed), Err(Error::OutOfBounds));
        }
        let after: Vec<_> =
            f.get_field().iter().map(|t| (t.value, t.is_mine, t.flag, t.unknown, t.revealed)).collect();
        assert_eq!(before, after);
        assert_eq!(f.get_num_mines(), mines);
        assert!(f.is_initialized());
    }
}

#[test]
fn a_numbered_cell_is_disclosed_alone() {
    let mut f = Field::new(3, 3, 8);
    f.init(&at(1, 1), 21).unwrap();
    assert_eq!(f.get_value(at(1, 1)), Ok(8));
    let t = f.disclose(&at(1, 1)).unwrap();
    assert!(t.revealed && !t.is_mine);
    assert_eq!(t.value, 8);
    let mut want = vec![false; 9];
    want[4] = true;
    assert_eq!(disclosed(&f), want);
    assert!(!f.victory());
}

#[test]
fn a_mine_is_handed_back_undisclosed() {
    let mut f = Field::new(3, 3, 8);
    f.init(&at(1, 1), 21).unwrap();
    let t = f.disclose(&at(0, 0)).unwrap();
    assert!(t.is_mine);
    assert!(!t.revealed);
    assert_eq!(disclosed(&f), vec![false; 9]);
}

#[test]
fn disclosure_stops_at_the_numbered_border() {
    for seed in 0..60u64 {
        let (w, h, mines) = (12u8, 10u8, 9u16);
        let start = at((seed % 12) as u8, (seed % 10) as u8);
        let mut f = Field::new(w, h, mines);
        f.init(&start, seed).unwrap();
        let want = expected_region(&f, start);
        let t = f.disclose(&start).unwrap();
        assert!(t.revealed);
        assert_eq!(disclosed(&f), want);
        for t in f.get_field() {
            assert!(!(t.is_mine && t.revealed));
        }
        let again = at(((seed + 5) % 12) as u8, ((seed + 3) % 10) as u8);
        let want = expected_region(&f, again);
        f.disclose(&again).unwrap();
        assert_eq!(disclosed(&f), want);
        for t in f.get_field() {
            assert!(!(t.is_mine && t.revealed));
        }
    }
}

#[test]
fn disclosure_uncovers_flagged_cells_it_reaches() {
    let mut f = Field::new(4, 1, 0);
    f.flag(&at(2, 0)).unwrap();
    f.disclose(&at(0, 0)).unwrap();
    assert_eq!(disclosed(&f), vec![true; 4]);
    assert_eq!(f.is_flag(&at(2, 0)), Ok(true));
}

#[test]
fn a_disclosed_cell_stays_disclosed() {
    let mut f = Field::new(8, 8, 10);
    f.init(&at(4, 4), 17).unwrap();
    f.disclose(&at(4, 4)).unwrap();
    let first = disclosed(&f);
    for y in 0..8 {
        for x in 0..8 {
            f.disclose(&at(x, y)).unwrap();
            f.flag(&at(x, y)).unwrap();
            f.mark_unknown(&at(x, y)).unwrap();
        }
    }
    let last = disclosed(&f);
    for (a, b) in first.iter().zip(last.iter()) {
        assert!(!*a || *b);
    }
    for t in f.get_field() {
        assert_eq!(t.revealed, !t.is_mine);
    }
}

#[test]
fn victory_needs_every_cell_disclosed_or_flagged() {
    let mut f = Field::new(2, 1, 1);
    f.init(&at(0, 0), 2).unwrap();
    assert_eq!(f.is_mine(&at(1, 0)), Ok(true));
    assert!(!f.victory());
    f.disclose(&at(0, 0)).unwrap();
    assert!(!f.victory());
    f.mark_unknown(&at(1, 0)).unwrap();
    assert!(!f.victory());
    f.flag(&at(1, 0)).unwrap();
    assert!(f.victory());
    let mut g = Field::new(2, 2, 1);
    for c in [at(0, 0), at(1, 0), at(0, 1), at(1, 1)] {
        g.flag(&c).unwrap();
    }
    assert!(g.victory());
}

#[test]
fn a_board_without_cells_is_won() {
    let f = Field::new(0, 0, 0);
    assert!(f.victory());
    assert_eq!(f.num_flags(), 0);
}
