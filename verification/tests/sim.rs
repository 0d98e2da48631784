use colorlife::Universe;

fn pack(r: u32, g: u32, b: u32) -> u32 {
    (r << 16) | (g << 8) | b
}

#[test]
fn new_all_dead() {
    let u = Universe::new(8, 8);
    assert_eq!(u.width(), 8);
    assert_eq!(u.height(), 8);
    for row in 0..8 {
        for col in 0..8 {
            assert_eq!(u.get_cell(row, col), 0);
        }
    }
    assert!(!u.is_ghost_active());
}

#[test]
fn get_cell_roundtrip() {
    let mut u = Universe::new(8, 8);
    u.set_cell(2, 3, 10, 20, 30);
    assert_eq!(u.get_cell(2, 3), pack(10, 20, 30));
    assert_eq!(u.get_cell(3, 2), 0);
}

#[test]
fn toroidal_wrap_corner_neighbor() {
    // The live cell at (0,0) sees (4,4) and (4,0) through the wrap, so it
    // has 2 neighbors and survives; without wrap it would be alone and die.
    let mut u = Universe::new(5, 5);
    u.set_cell(0, 0, 100, 110, 120);
    u.set_cell(4, 4, 10, 10, 10);
    u.set_cell(0, 4, 10, 10, 10);
    u.tick();
    assert_eq!(u.get_cell(0, 0), pack(100, 110, 120));
}

#[test]
fn stasis_block_keeps_colors() {
    // Each cell of a 2x2 block has exactly 3 live neighbors.
    let mut u = Universe::new(6, 6);
    u.set_cell(2, 2, 10, 20, 30);
    u.set_cell(2, 3, 40, 50, 60);
    u.set_cell(3, 2, 70, 80, 90);
    u.set_cell(3, 3, 100, 110, 120);
    u.tick();
    assert_eq!(u.get_cell(2, 2), pack(10, 20, 30));
    assert_eq!(u.get_cell(2, 3), pack(40, 50, 60));
    assert_eq!(u.get_cell(3, 2), pack(70, 80, 90));
    assert_eq!(u.get_cell(3, 3), pack(100, 110, 120));
}

#[test]
fn birth_takes_mean_color() {
    // A vertical blinker: the dead cells beside its middle have exactly 3
    // live neighbors and are born with the truncated channel means.
    let mut u = Universe::new(6, 6);
    u.set_cell(1, 2, 30, 60, 91);
    u.set_cell(2, 2, 60, 90, 120);
    u.set_cell(3, 2, 90, 121, 150);
    u.tick();
    // (30+60+90)/3 = 60, (60+90+121)/3 = 90, (91+120+150)/3 = 120
    assert_eq!(u.get_cell(2, 1), pack(60, 90, 120));
    assert_eq!(u.get_cell(2, 3), pack(60, 90, 120));
    // The former top of the blinker had a single live neighbor and died.
    assert_eq!(u.get_cell(1, 2), 0);
}

#[test]
fn death_rules() {
    // A lone live cell dies.
    let mut u = Universe::new(6, 6);
    u.set_cell(2, 2, 200, 200, 200);
    u.tick();
    assert_eq!(u.get_cell(2, 2), 0);

    // Two adjacent live cells (1 neighbor each) both die, and a dead cell
    // with only 2 live neighbors stays dead.
    let mut v = Universe::new(6, 6);
    v.set_cell(2, 2, 200, 200, 200);
    v.set_cell(2, 3, 200, 200, 200);
    v.tick();
    assert_eq!(v.get_cell(2, 2), 0);
    assert_eq!(v.get_cell(2, 3), 0);
    assert_eq!(v.get_cell(3, 2), 0);
}

#[test]
fn overcrowded_center_dies() {
    // The center of a full 3x3 block has 8 live neighbors and dies.
    let mut u = Universe::new(7, 7);
    for row in 2..5 {
        for col in 2..5 {
            u.set_cell(row, col, 50, 60, 70);
        }
    }
    u.tick();
    assert_eq!(u.get_cell(3, 3), 0);
}

#[test]
fn seed_circle_uses_palette_colors() {
    let mut u = Universe::new(40, 40);
    u.seed_circle(vec![0xFF0000, 0x00AA55]);
    let mut alive = 0;
    for row in 0..40 {
        for col in 0..40 {
            let c = u.get_cell(row, col);
            if c != 0 {
                alive += 1;
                assert!(c == 0xFF0000 || c == 0x00AA55, "unexpected color {c:#x}");
            }
        }
    }
    assert!(alive >= 9, "expected at least one full cluster, got {alive}");
}

#[test]
fn seed_person_places_one_color() {
    let mut u = Universe::new(10, 10);
    u.seed_person(5, 6, 7, 30);
    let mut alive = 0;
    for row in 0..10 {
        for col in 0..10 {
            let c = u.get_cell(row, col);
            if c != 0 {
                alive += 1;
                assert_eq!(c, pack(5, 6, 7));
            }
        }
    }
    assert!(alive >= 1);
}

#[test]
fn ghost_lifecycle() {
    let mut u = Universe::new(30, 30);
    let mut spawned = false;
    for _ in 0..1500 {
        u.tick();
        if u.is_ghost_active() {
            spawned = true;
            break;
        }
    }
    assert!(spawned, "no ghost spawned within 1500 generations");
    let mut steps = 0;
    while u.is_ghost_active() {
        let x = u.ghost_x();
        let y = u.ghost_y();
        assert!(x >= 0 && x < 30);
        assert!(y >= 0 && y < 30);
        u.tick();
        steps += 1;
        assert!(steps <= 31, "ghost did not finish its sweep in time");
    }
}

#[test]
fn comet_stays_on_small_grid() {
    // Comets fire by generation 180 at the latest; on a 9x7 grid every
    // impact is near an edge, and all writes stay inside the grid.
    let mut u = Universe::new(9, 7);
    for _ in 0..400 {
        u.tick();
    }
    assert_eq!(u.width(), 9);
    assert_eq!(u.height(), 7);
    for row in 0..7 {
        for col in 0..9 {
            let c = u.get_cell(row, col);
            assert_eq!(c >> 24, 0);
        }
    }
}

#[test]
fn same_seed_same_run() {
    let mut a = Universe::new(12, 12);
    let mut b = Universe::new(12, 12);
    a.set_seed(99);
    b.set_seed(99);
    a.seed_circle(vec![0x112233, 0x445566]);
    b.seed_circle(vec![0x112233, 0x445566]);
    for _ in 0..50 {
        a.tick();
        b.tick();
    }
    for row in 0..12 {
        for col in 0..12 {
            assert_eq!(a.get_cell(row, col), b.get_cell(row, col));
        }
    }
}
