use battleship::text::decimal_string;
use battleship::{
    get_random_coordinate, reverse_rows_of_cols, transpose, Board, Coordinate, Difficulty, Game,
    Position, Rule, Ship, ShipType, Status, COLS, ROWS,
};
use std::collections::{BTreeMap, BTreeSet};

fn cells_of(board: &Board, id: u128) -> Vec<Coordinate> {
    let mut out = Vec::new();
    for row in &board.positions {
        for p in row {
            if p.ship_id == Some(id) {
                out.push(p.coordinate);
            }
        }
    }
    out
}

fn all_ship_cells(board: &Board) -> BTreeSet<Coordinate> {
    let mut out = BTreeSet::new();
    for row in &board.positions {
        for p in row {
            if p.ship_id.is_some() {
                out.insert(p.coordinate);
            }
        }
    }
    out
}

#[test]
fn first_shot_allowed_under_every_rule() {
    for rule in [Rule::Default, Rule::Fury, Rule::Charge] {
        let game = Game::new(rule, Difficulty::Easy);
        assert!(game.is_valid_rule(0));
    }
}

#[test]
fn charge_grows_with_sunk_computer_ships() {
    let mut game = Game::new(Rule::Charge, Difficulty::Easy);
    let target = game.computer().player_board().ships[0].id;
    let shots: BTreeSet<Coordinate> = cells_of(game.computer().player_board(), target).into_iter().collect();
    let msg = game.fire(&shots, false);
    assert_eq!(msg, "You have sunk a ship.");
    assert!(game.is_valid_rule(1));
    assert!(!game.is_valid_rule(2));
}

#[test]
fn fury_shrinks_with_sunk_human_ships() {
    let mut game = Game::new(Rule::Fury, Difficulty::Easy);
    game.turn = 1;
    let target = game.player().player_board().ships[2].id;
    let shots: BTreeSet<Coordinate> = cells_of(game.player().player_board(), target).into_iter().collect();
    let msg = game.fire(&shots, true);
    assert_eq!(msg, "Computer have sunk a ship.");
    assert!(game.is_user_turn());
    assert!(game.is_valid_rule(2));
    assert!(!game.is_valid_rule(3));
}

#[test]
fn fresh_fleet_has_four_distinct_ships_without_overlap() {
    let board = Board::new(true);
    let kinds: Vec<ShipType> = board.ships.iter().map(|s| s.ship_type).collect();
    assert_eq!(kinds, vec![ShipType::X, ShipType::V, ShipType::H, ShipType::I]);
    let sizes: Vec<usize> = board.ships.iter().map(|s| cells_of(&board, s.id).len()).collect();
    assert_eq!(sizes, vec![5, 5, 7, 3]);
    assert_eq!(all_ship_cells(&board).len(), 20);
    for row in &board.positions {
        for p in row {
            assert_eq!(p.status == Status::Live, p.ship_id.is_some());
        }
    }
    assert!(board.ships.iter().all(|s| s.alive));
}

#[test]
fn hit_then_kill_answers_every_cell() {
    let mut board = Board::new(true);
    let ship = board.ships[3];
    let cells = cells_of(&board, ship.id);
    assert_eq!(cells.len(), 3);

    let mut first = BTreeSet::new();
    first.insert(cells[0]);
    let (res, lost) = board.take_fire(&first);
    assert_eq!(res.len(), 1);
    assert_eq!(res[&cells[0]], Status::Hit);
    assert!(!lost);

    let rest: BTreeSet<Coordinate> = cells[1..].iter().copied().collect();
    let (res, lost) = board.take_fire(&rest);
    assert!(!lost);
    assert_eq!(res.len(), 3);
    for c in &cells {
        assert_eq!(res[c], Status::Kill);
    }
    assert!(!board.find_ship(ship.id).unwrap().alive);
}

#[test]
fn order_of_shots_decides_repeated_cells() {
    let ship = Ship { id: 7, rotation: 90, alive: true, ship_type: ShipType::I };
    let mut board = Board::empty();
    assert!(ship.draw(&mut board.positions, (0, 0)));
    board.ships.push(ship);
    // cells (0,1), (1,1), (2,1): hit the top and bottom first
    board.positions[0][1].status = Status::Hit;
    board.positions[2][1].status = Status::Hit;

    // the already-hit (0,1) comes before the sinking (1,1), so it ends as Kill
    let mut shots = BTreeSet::new();
    shots.insert((0, 1));
    shots.insert((1, 1));
    let mut first = board.clone();
    let (res, lost) = first.take_fire(&shots);
    assert_eq!(res[&(0, 1)], Status::Kill);
    assert_eq!(res[&(1, 1)], Status::Kill);
    assert_eq!(res[&(2, 1)], Status::Kill);
    assert!(lost);

    // the already-hit (2,1) comes after the sinking (1,1), so it is answered Miss
    let mut shots = BTreeSet::new();
    shots.insert((1, 1));
    shots.insert((2, 1));
    let (res, lost) = board.take_fire(&shots);
    assert_eq!(res[&(0, 1)], Status::Kill);
    assert_eq!(res[&(1, 1)], Status::Kill);
    assert_eq!(res[&(2, 1)], Status::Miss);
    assert!(lost);
    assert_eq!(board.positions[2][1].status, Status::Hit);
    assert_eq!(board.positions[1][1].status, Status::Kill);
}

#[test]
fn miss_on_empty_and_struck_cells() {
    let mut board = Board::new(false);
    board.positions[4][4].status = Status::Hit;
    let mut shots = BTreeSet::new();
    shots.insert((4, 4));
    shots.insert((9, 9));
    let (res, lost) = board.take_fire(&shots);
    assert_eq!(res[&(4, 4)], Status::Miss);
    assert_eq!(res[&(9, 9)], Status::Miss);
    assert_eq!(board.positions[4][4].status, Status::Hit);
    assert_eq!(board.positions[9][9].status, Status::Miss);
    // no ships at all: nothing is afloat
    assert!(lost);
}

#[test]
fn summary_variants() {
    let mut board = Board::new(false);
    let mut res = BTreeMap::new();
    res.insert((1, 1), Status::Miss);
    res.insert((2, 2), Status::Miss);
    assert_eq!(board.update_status(res, false), "You have 0 hit. You missed 2.");

    let mut res = BTreeMap::new();
    res.insert((5, 5), Status::Kill);
    res.insert((6, 6), Status::Kill);
    res.insert((7, 7), Status::Miss);
    assert_eq!(board.update_status(res, true), "Computer have sunk a ship. Computer missed 1.");

    let mut res = BTreeMap::new();
    for c in 0..10 {
        for r in 0..10 {
            if r < 5 {
                res.insert((r, c), Status::Hit);
            }
        }
    }
    let mut fresh = Board::new(false);
    assert_eq!(fresh.update_status(res, false), "You have 50 hit.");
}

#[test]
fn tracking_board_keeps_answers_unless_killed() {
    let mut board = Board::new(false);
    let mut res = BTreeMap::new();
    res.insert((0, 0), Status::Hit);
    res.insert((0, 1), Status::Miss);
    board.update_status(res, false);
    let mut res = BTreeMap::new();
    res.insert((0, 0), Status::Miss);
    res.insert((0, 1), Status::Kill);
    board.update_status(res, false);
    assert_eq!(board.positions[0][0].status, Status::Hit);
    assert_eq!(board.positions[0][1].status, Status::Kill);
}

#[test]
fn bot_targets_only_unanswered_cells() {
    let mut game = Game::new(Rule::Fury, Difficulty::Hard);
    for r in 0..ROWS {
        for c in 0..COLS {
            if (r, c) != (2, 3) && (r, c) != (8, 8) {
                game.machine.tracking.positions[r][c].status = if r == 2 { Status::Hit } else { Status::Miss };
            }
        }
    }
    let shots = game.generate_bot_firing_coordinates();
    let expected: BTreeSet<Coordinate> = [(2, 3), (8, 8)].into_iter().collect();
    assert_eq!(shots, expected);
}

#[test]
fn hard_bot_without_hits_fires_its_count() {
    let mut game = Game::new(Rule::Default, Difficulty::Hard);
    game.machine.tracking.positions[0][0].status = Status::Miss;
    let shots = game.generate_bot_firing_coordinates();
    assert_eq!(shots.len(), 1);
    assert!(!shots.contains(&(0, 0)));
}

#[test]
fn charge_bot_counts_sunk_human_ships() {
    let mut game = Game::new(Rule::Charge, Difficulty::Hard);
    game.human.own.ships[0].alive = false;
    game.human.own.ships[1].alive = false;
    let shots = game.generate_bot_firing_coordinates();
    assert_eq!(shots.len(), 3);
}

#[test]
fn rotations_compose_the_transforms() {
    for kind in [ShipType::X, ShipType::V, ShipType::H, ShipType::I] {
        let base = kind.get_shape(90);
        assert_eq!(kind.get_shape(360), reverse_rows_of_cols(transpose(base)));
        assert_eq!(kind.get_shape(0), base);
        assert_eq!(kind.get_shape(45), base);
    }
    assert_eq!(
        ShipType::I.get_shape(180),
        [
            [Status::Space, Status::Space, Status::Space],
            [Status::Live, Status::Live, Status::Live],
            [Status::Space, Status::Space, Status::Space],
        ]
    );
}

#[test]
fn fire_passes_turn_and_declares_winner() {
    let mut game = Game::new(Rule::Default, Difficulty::Easy);
    let all = all_ship_cells(game.computer().player_board());
    let msg = game.fire(&all, false);
    assert_eq!(msg, "You won 🙌");
    assert_eq!(game.winner, Some(0));
    assert!(game.is_won());
    assert!(!game.is_user_turn());

    let mut game = Game::new(Rule::Default, Difficulty::Easy);
    game.turn = 1;
    let all = all_ship_cells(game.player().player_board());
    let msg = game.fire(&all, true);
    assert_eq!(msg, "You lost 🙁");
    assert_eq!(game.winner, Some(1));
    assert!(game.is_user_turn());
}

#[test]
fn bot_fire_passes_turn() {
    let mut game = Game::new(Rule::Fury, Difficulty::Easy);
    game.turn = 1;
    let msg = game.bot_fire();
    assert!(msg.starts_with("Computer have "));
    assert!(game.is_user_turn());
    assert!(!game.is_won());
    let marked = game
        .computer()
        .opponent_board()
        .positions
        .iter()
        .flatten()
        .filter(|p| p.status != Status::Space)
        .count();
    assert_eq!(marked, 4);
}

#[test]
fn random_coordinates_respect_the_margin() {
    for _ in 0..200 {
        let (r, c) = get_random_coordinate(3);
        assert!(r < 7 && c < 7);
        let (r, c) = get_random_coordinate(9);
        assert_eq!((r, c), (0, 0));
    }
}

#[test]
fn new_ships_get_a_rotation_and_fresh_identifiers() {
    let a = Ship::new(ShipType::V);
    let b = Ship::new(ShipType::V);
    assert!([90, 180, 270, 360].contains(&a.rotation));
    assert!(a.alive);
    assert_ne!(a.id, b.id);
}

#[test]
fn displayed_status_of_cells() {
    let mut board = Board::new(true);
    let id = board.ships[0].id;
    let c = cells_of(&board, id)[0];
    let (pos, ship) = board.find_position_and_ship(c);
    assert_eq!(pos.get_status(ship), Status::Live);
    board.ships[0].alive = false;
    let (pos, ship) = board.find_position_and_ship(c);
    assert_eq!(ship.unwrap().id, id);
    assert_eq!(pos.get_status(ship), Status::Kill);
    let empty = Position::new((0, 0));
    assert_eq!(empty.get_status(None), Status::Space);
}

#[test]
fn glyphs_and_numbers() {
    assert_eq!(Status::Live.glyph(), "🚀");
    assert_eq!(Status::Miss.glyph(), "❌");
    assert_eq!(Status::Hit.glyph(), "💥");
    assert_eq!(Status::Kill.glyph(), "💀");
    assert_eq!(Status::Space.glyph(), " ");
    assert_eq!(decimal_string(0), "0");
    assert_eq!(decimal_string(7), "7");
    assert_eq!(decimal_string(105), "105");
}

#[test]
fn board_lookups() {
    let board = Board::new(true);
    let id = board.ships[1].id;
    assert_eq!(board.pos_by_ship(id).len(), 5);
    assert_eq!(board.alive_pos_by_ship(id).len(), 5);
    assert_eq!(board.positions().len(), 100);
    assert_eq!(board.ships_alive().len(), 4);
    assert_eq!(board.as_grid().len(), 10);
    assert!(board.find_ship(u128::MAX).is_none() || board.ships.iter().any(|s| s.id == u128::MAX));
}
