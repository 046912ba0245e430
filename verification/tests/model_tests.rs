use worms_state::model::{
    Cell, CellType, Opponent, Player, PlayerWorm, Position, State, Weapon,
};

fn worm(id: u32, x: u32, y: u32) -> PlayerWorm {
    PlayerWorm {
        id,
        health: 100,
        position: Position { x, y },
        digging_range: 1,
        movement_range: 1,
        weapon: Weapon { damage: 1, range: 3 },
    }
}

fn grid_state(size: u32) -> State {
    let mut map: Vec<Vec<Cell>> = Vec::new();
    for y in 0..size {
        let mut row: Vec<Cell> = Vec::new();
        for x in 0..size {
            row.push(Cell { x, y, cell_type: CellType::Air, occupier: None, powerup: None });
        }
        map.push(row);
    }
    State {
        current_round: 1,
        max_rounds: 10,
        map_size: size,
        current_worm_id: 2,
        consecutive_do_nothing_count: 0,
        my_player: Player {
            id: 1,
            score: 0,
            health: 300,
            worms: vec![worm(1, 0, 0), worm(2, 1, 1), worm(3, 2, 2)],
        },
        opponents: vec![Opponent { id: 2, score: 0, worms: vec![] }],
        map,
    }
}

#[test]
fn west_decreases_x_or_underflows_to_none() {
    let p = Position { x: 5, y: 7 };
    assert_eq!(p.west(0), Some(Position { x: 5, y: 7 }));
    assert_eq!(p.west(5), Some(Position { x: 0, y: 7 }));
    assert_eq!(p.west(6), None);
    assert_eq!(p.west(u32::MAX), None);
}

#[test]
fn north_decreases_y_or_underflows_to_none() {
    let p = Position { x: 5, y: 7 };
    assert_eq!(p.north(0), Some(Position { x: 5, y: 7 }));
    assert_eq!(p.north(7), Some(Position { x: 5, y: 0 }));
    assert_eq!(p.north(8), None);
}

#[test]
fn east_never_reaches_the_bound() {
    let bound = 10u32;
    for x in 0..bound {
        for d in 0..=bound {
            let p = Position { x, y: 3 };
            match p.east(d, bound) {
                Some(q) => {
                    assert!(q.x < bound);
                    assert_eq!(q.x, x + d);
                    assert_eq!(q.y, 3);
                }
                None => assert!(x + d >= bound),
            }
        }
    }
    // Stepping by the full bound from anywhere inside always leaves the map.
    assert_eq!(Position { x: 0, y: 0 }.east(bound, bound), None);
    // Overflow of the coordinate is treated as out of bounds, never wrapped.
    assert_eq!(Position { x: u32::MAX, y: 0 }.east(u32::MAX, u32::MAX), None);
}

#[test]
fn south_never_reaches_the_bound() {
    let bound = 10u32;
    for y in 0..bound {
        for d in 0..=bound {
            let p = Position { x: 3, y };
            match p.south(d, bound) {
                Some(q) => {
                    assert!(q.y < bound);
                    assert_eq!(q.y, y + d);
                    assert_eq!(q.x, 3);
                }
                None => assert!(y + d >= bound),
            }
        }
    }
    assert_eq!(Position { x: 0, y: 0 }.south(bound, bound), None);
}

#[test]
fn cell_at_finds_the_unique_matching_cell() {
    let size = 4u32;
    let st = grid_state(size);
    for y in 0..size {
        for x in 0..size {
            let c = st.cell_at(&Position { x, y });
            assert_eq!(c.x, x);
            assert_eq!(c.y, y);
            // The grid is fully populated with unique coordinates, so the
            // match is exactly the cell stored at row y, column x.
            assert_eq!(*c, st.map[y as usize][x as usize]);
        }
    }
}

#[test]
fn active_worm_matches_current_worm_id() {
    let st = grid_state(4);
    let w = st.active_worm();
    assert_eq!(w.id, 2);
    assert_eq!(w.position, Position { x: 1, y: 1 });
}
