use rand::rngs::StdRng;
use rand::{Rng, SeedableRng};
use spacemines::error::Error;
use spacemines::field::placement::lay_mine;
use spacemines::field::tile::{Coordintes, Tile};
use spacemines::field::Field;

fn at(x: u8, y: u8) -> Coordintes {
    Coordintes { x, y }
}

fn mines_around(tiles: &[Tile], w: u8, h: u8, x: u8, y: u8) -> u8 {
    let mut n = 0;
    for dy in -1i16..=1 {
        for dx in -1i16..=1 {
            let (nx, ny) = (x as i16 + dx, y as i16 + dy);
            if (dx, dy) != (0, 0) && nx >= 0 && ny >= 0 && nx < w as i16 && ny < h as i16 {
                if tiles[nx as usize + ny as usize * w as usize].is_mine {
                    n += 1;
                }
            }
        }
    }
    n
}

fn check_placed(f: &Field, w: u8, h: u8, mines: u16, start: Coordintes) {
    let tiles = f.get_field();
    assert!(f.is_initialized());
    assert_eq!(tiles.len(), w as usize * h as usize);
    assert_eq!(tiles.iter().filter(|t| t.is_mine).count(), mines as usize);
    for y in 0..h {
        for x in 0..w {
            let t = &tiles[x as usize + y as usize * w as usize];
            if !t.is_mine {
                assert_eq!(t.value, mines_around(&tiles, w, h, x, y));
                assert_eq!(f.get_value(at(x, y)), Ok(t.value));
            }
            assert_eq!(f.is_mine(&at(x, y)), Ok(t.is_mine));
        }
    }
    if (mines as usize) < tiles.len() {
        assert_eq!(f.is_mine(&start), Ok(false));
    }
}

#[test]
fn a_new_board_is_blank() {
    let f = Field::new(9, 7, 10);
    assert_eq!(f.size(), 63);
    assert_eq!(f.get_limit(), at(9, 7));
    assert_eq!(f.get_num_mines(), 10);
    assert!(!f.is_initialized());
    assert_eq!(f.num_flags(), 0);
    assert!(!f.victory());
    let tiles = f.get_field();
    assert_eq!(tiles.len(), 63);
    for t in &tiles {
        assert_eq!(t.value, 0);
        assert!(!t.is_mine && !t.flag && !t.unknown && !t.revealed);
    }
}

#[test]
fn the_number_of_mines_is_clamped_to_the_number_of_cells() {
    assert_eq!(Field::new(3, 3, 9).get_num_mines(), 9);
    assert_eq!(Field::new(3, 3, 10).get_num_mines(), 9);
    assert_eq!(Field::new(3, 3, 65535).get_num_mines(), 9);
    assert_eq!(Field::new(255, 255, 65535).get_num_mines(), 65025);
    assert_eq!(Field::new(255, 255, 65024).get_num_mines(), 65024);
    assert_eq!(Field::new(1, 1, 0).get_num_mines(), 0);
}

#[test]
fn queries_outside_the_board_are_refused() {
    let mut f = Field::new(4, 3, 2);
    for c in [at(4, 0), at(0, 3), at(4, 3), at(255, 255)] {
        assert_eq!(f.is_mine(&c), Err(Error::OutOfBounds));
        assert_eq!(f.is_flag(&c), Err(Error::OutOfBounds));
        assert_eq!(f.is_unknown(&c), Err(Error::OutOfBounds));
        assert_eq!(f.get_value(c), Err(Error::OutOfBounds));
        assert_eq!(f.flag(&c), Err(Error::OutOfBounds));
        assert_eq!(f.mark_unknown(&c), Err(Error::OutOfBounds));
        assert_eq!(f.init(&c, 1), Err(Error::OutOfBounds));
    }
    assert!(!f.is_initialized());
    assert_eq!(f.num_flags(), 0);
}

#[test]
fn flag_toggles_and_clears_unknown() {
    let mut f = Field::new(3, 3, 0);
    let c = at(1, 2);
    assert_eq!(f.flag(&c), Ok(()));
    assert_eq!(f.is_flag(&c), Ok(true));
    assert_eq!(f.is_unknown(&c), Ok(false));
    assert_eq!(f.num_flags(), 1);
    assert_eq!(f.flag(&c), Ok(()));
    assert_eq!(f.is_flag(&c), Ok(false));
    assert_eq!(f.num_flags(), 0);
    assert_eq!(f.mark_unknown(&c), Ok(()));
    assert_eq!(f.is_unknown(&c), Ok(true));
    assert_eq!(f.flag(&c), Ok(()));
    assert_eq!(f.is_flag(&c), Ok(true));
    assert_eq!(f.is_unknown(&c), Ok(false));
    assert_eq!(f.is_flag(&at(0, 0)), Ok(false));
}

#[test]
fn mark_unknown_toggles_and_clears_the_flag() {
    let mut f = Field::new(3, 3, 0);
    let c = at(2, 0);
    assert_eq!(f.mark_unknown(&c), Ok(()));
    assert_eq!(f.is_unknown(&c), Ok(true));
    assert_eq!(f.is_flag(&c), Ok(false));
    assert_eq!(f.mark_unknown(&c), Ok(()));
    assert_eq!(f.is_unknown(&c), Ok(false));
    assert_eq!(f.flag(&c), Ok(()));
    assert_eq!(f.mark_unknown(&c), Ok(()));
    assert_eq!(f.is_unknown(&c), Ok(true));
    assert_eq!(f.is_flag(&c), Ok(false));
    assert_eq!(f.num_flags(), 0);
}

#[test]
fn a_cell_never_carries_both_markers() {
    let mut f = Field::new(2, 2, 1);
    let c = at(1, 1);
    let calls = [true, false, false, true, true, false, true, false, false, false, true];
    for flag in calls {
        if flag {
            f.flag(&c).unwrap();
        } else {
            f.mark_unknown(&c).unwrap();
        }
        assert!(!(f.is_flag(&c).unwrap() && f.is_unknown(&c).unwrap()));
    }
    let t = f.get_field()[3];
    assert!(t.flag && !t.unknown);
}

#[test]
fn num_flags_counts_the_flagged_cells() {
    let mut f = Field::new(5, 4, 3);
    for c in [at(0, 0), at(4, 3), at(2, 2), at(1, 3)] {
        f.flag(&c).unwrap();
    }
    f.mark_unknown(&at(3, 3)).unwrap();
    assert_eq!(f.num_flags(), 4);
    f.flag(&at(2, 2)).unwrap();
    assert_eq!(f.num_flags(), 3);
    f.mark_unknown(&at(0, 0)).unwrap();
    assert_eq!(f.num_flags(), 2);
}

#[test]
fn laying_a_mine_raises_the_counts_around_it() {
    let limit = at(3, 3);
    let mut tiles = vec![Tile::new(); 9];
    assert!(lay_mine(&mut tiles, &limit, &at(1, 1)));
    for (i, t) in tiles.iter().enumerate() {
        if i == 4 {
            assert!(t.is_mine);
            assert_eq!(t.value, 0);
        } else {
            assert!(!t.is_mine);
            assert_eq!(t.value, 1);
        }
    }
    assert!(lay_mine(&mut tiles, &limit, &at(0, 0)));
    let values: Vec<u8> = tiles.iter().map(|t| t.value).collect();
    assert_eq!(values, vec![1, 2, 1, 2, 0, 1, 1, 1, 1]);
    let mines: Vec<bool> = tiles.iter().map(|t| t.is_mine).collect();
    assert_eq!(mines, vec![true, false, false, false, true, false, false, false, false]);
}

#[test]
fn laying_a_mine_twice_or_off_the_board_does_nothing() {
    let limit = at(3, 2);
    let mut tiles = vec![Tile::new(); 6];
    assert!(lay_mine(&mut tiles, &limit, &at(2, 1)));
    let values: Vec<u8> = tiles.iter().map(|t| t.value).collect();
    assert_eq!(values, vec![0, 1, 1, 0, 1, 0]);
    assert!(!lay_mine(&mut tiles, &limit, &at(2, 1)));
    assert!(!lay_mine(&mut tiles, &limit, &at(3, 0)));
    assert!(!lay_mine(&mut tiles, &limit, &at(0, 2)));
    let again: Vec<u8> = tiles.iter().map(|t| t.value).collect();
    assert_eq!(again, values);
    assert_eq!(tiles.iter().filter(|t| t.is_mine).count(), 1);
}

#[test]
fn laying_a_mine_keeps_markers_and_disclosure() {
    let limit = at(2, 2);
    let mut tiles = vec![Tile::new(); 4];
    tiles[0].flag = true;
    tiles[1].unknown = true;
    tiles[2].revealed = true;
    assert!(lay_mine(&mut tiles, &limit, &at(0, 0)));
    assert!(tiles[0].flag && tiles[0].is_mine);
    assert!(tiles[1].unknown && tiles[1].value == 1);
    assert!(tiles[2].revealed && tiles[2].value == 1);
    assert_eq!(tiles[3].value, 1);
}

#[test]
fn placement_puts_the_right_number_of_mines_and_counts() {
    for (w, h, mines, seed) in [
        (9u8, 9u8, 10u16, 1u64),
        (16, 16, 40, 2),
        (30, 16, 99, 3),
        (8, 8, 8, 69),
        (5, 5, 24, 4),
        (1, 7, 3, 5),
        (2, 1, 1, 6),
        (3, 3, 0, 7),
    ] {
        let start = at(w / 2, h / 2);
        let mut f = Field::new(w, h, mines);
        assert_eq!(f.init(&start, seed), Ok(()));
        check_placed(&f, w, h, mines, start);
    }
}

#[test]
fn the_first_cell_is_never_a_mine() {
    for seed in 0..200u64 {
        let start = at((seed % 4) as u8, (seed % 3) as u8);
        let mut f = Field::new(4, 3, 11);
        assert_eq!(f.init(&start, seed), Ok(()));
        check_placed(&f, 4, 3, 11, start);
        let tiles = f.get_field();
        for (i, t) in tiles.iter().enumerate() {
            assert_eq!(t.is_mine, i != start.x as usize + start.y as usize * 4);
        }
        assert_eq!(f.get_value(start), Ok(mines_around(&tiles, 4, 3, start.x, start.y)));
    }
}

#[test]
fn a_full_board_is_all_mines_whatever_the_seed() {
    for seed in [0u64, 1, 42, u64::MAX] {
        let mut f = Field::new(4, 5, 20);
        assert_eq!(f.init(&at(3, 4), seed), Ok(()));
        assert!(f.is_initialized());
        assert!(f.get_field().iter().all(|t| t.is_mine && t.value == 0));
    }
    let mut g = Field::new(4, 5, 65535);
    assert_eq!(g.init(&at(0, 0), 9), Ok(()));
    assert!(g.get_field().iter().all(|t| t.is_mine));
}

#[test]
fn placement_happens_once() {
    let mut f = Field::new(6, 6, 5);
    assert_eq!(f.init(&at(0, 0), 11), Ok(()));
    let before = f.get_field();
    assert_eq!(f.init(&at(0, 0), 11), Err(Error::AlreadyInitialized));
    assert_eq!(f.init(&at(5, 5), 12), Err(Error::AlreadyInitialized));
    assert_eq!(f.init(&at(6, 6), 12), Err(Error::OutOfBounds));
    let after = f.get_field();
    for (a, b) in before.iter().zip(after.iter()) {
        assert_eq!((a.is_mine, a.value), (b.is_mine, b.value));
    }
    let mut full = Field::new(2, 2, 4);
    assert_eq!(full.init(&at(1, 1), 0), Ok(()));
    assert_eq!(full.init(&at(1, 1), 0), Err(Error::AlreadyInitialized));
}

#[test]
fn the_same_seed_gives_the_same_layout() {
    let layout = |seed: u64, start: Coordintes| {
        let mut f = Field::new(16, 16, 40);
        f.init(&start, seed).unwrap();
        f.get_field().iter().map(|t| (t.is_mine, t.value)).collect::<Vec<_>>()
    };
    assert_eq!(layout(1234, at(3, 3)), layout(1234, at(3, 3)));
    assert_ne!(layout(1234, at(3, 3)), layout(1235, at(3, 3)));
}

#[test]
fn placement_keeps_markers_and_disclosed_cells() {
    let mut f = Field::new(5, 5, 6);
    f.flag(&at(0, 0)).unwrap();
    f.mark_unknown(&at(4, 4)).unwrap();
    assert_eq!(f.init(&at(2, 2), 77), Ok(()));
    assert_eq!(f.is_flag(&at(0, 0)), Ok(true));
    assert_eq!(f.is_unknown(&at(4, 4)), Ok(true));
    assert_eq!(f.num_flags(), 1);
    assert!(f.get_field().iter().all(|t| !t.revealed));
    check_placed(&f, 5, 5, 6, at(2, 2));
}

#[test]
fn error_messages_name_the_failure() {
    assert_eq!(Error::OutOfBounds.message(), "requested coordinates are outside the grid");
    assert_eq!(Error::AlreadyInitialized.message(), "field already initialized");
}

#[test]
fn placement_follows_the_generator() {
    for (w, h, mines, seed) in [(3u8, 12u8, 20u16, 31u64), (12, 3, 35, 32), (9, 9, 10, 33), (1, 40, 39, 34)] {
        let start = at(w - 1, h / 2);
        let mut f = Field::new(w, h, mines);
        f.init(&start, seed).unwrap();

        let mut want = vec![false; w as usize * h as usize];
        let mut rng = StdRng::seed_from_u64(seed);
        let mut laid = 0;
        while laid < mines {
            let x: u8 = rng.gen_range(0..w);
            let y: u8 = rng.gen_range(0..h);
            let i = x as usize + y as usize * w as usize;
            if (x, y) != (start.x, start.y) && !want[i] {
                want[i] = true;
                laid += 1;
            }
        }
        let got: Vec<bool> = f.get_field().iter().map(|t| t.is_mine).collect();
        assert_eq!(got, want);
    }
}
