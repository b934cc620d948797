use battleship::{
    get_random_coordinate, reverse_cols_of_rows, reverse_rows_of_cols, transpose, Board,
    Difficulty, Game, Position, Rule, Ship, ShipType, Status, COLS, ROWS, SHIP_SIZE,
};
use std::collections::{BTreeMap, BTreeSet};

fn empty_positions() -> Vec<Vec<Position>> {
    (0..ROWS)
        .map(|r| (0..COLS).map(|c| Position::new((r, c))).collect::<Vec<_>>())
        .collect::<Vec<_>>()
}

fn render(positions: &[Vec<Position>]) -> String {
    positions
        .iter()
        .map(|row| row.iter().map(|c| c.to_string()).collect::<Vec<_>>().join(""))
        .collect::<Vec<_>>()
        .join("\n")
}

#[test]
fn test_game_is_valid_rule() {
    let mut game = Game::new(Rule::Default, Difficulty::Easy);
    assert!(game.is_valid_rule(0));
    assert!(!game.is_valid_rule(1));

    game.rule = Rule::Fury;

    assert!(game.is_valid_rule(0));
    assert!(game.is_valid_rule(3));
    assert!(!game.is_valid_rule(4));

    game.rule = Rule::Charge;

    assert!(game.is_valid_rule(0));
    assert!(!game.is_valid_rule(1));
}

#[test]
fn test_game_fire() {
    let mut game = Game::new(Rule::Default, Difficulty::Easy);

    let mut shots = BTreeSet::new();
    shots.insert((1, 1));
    shots.insert((3, 3));

    let msg = game.fire(&shots, false);

    assert!(!msg.is_empty());
    assert!(!game.is_user_turn());
    assert!(!game.winner.is_some());
}

#[test]
fn test_game_generate_firing_coordinates() {
    let game = Game::new(Rule::Default, Difficulty::Easy);

    let shots = game.generate_bot_firing_coordinates();
    assert_eq!(shots.len(), 1);

    let game = Game::new(Rule::Charge, Difficulty::Easy);

    let shots = game.generate_bot_firing_coordinates();
    assert_eq!(shots.len(), 1);

    let game = Game::new(Rule::Fury, Difficulty::Easy);

    let shots = game.generate_bot_firing_coordinates();
    assert_eq!(shots.len(), 4);
}

#[test]
fn test_get_random_coordinate() {
    assert!(get_random_coordinate(SHIP_SIZE) < (ROWS, COLS));
}

#[test]
fn test_reverse_rows_of_cols() {
    let ship = [
        [Status::Live, Status::Live, Status::Space],
        [Status::Space, Status::Live, Status::Space],
        [Status::Space, Status::Space, Status::Live],
    ];
    let expected = [
        [Status::Space, Status::Space, Status::Live],
        [Status::Space, Status::Live, Status::Space],
        [Status::Live, Status::Live, Status::Space],
    ];
    assert_eq!(reverse_rows_of_cols(ship), expected);
}

#[test]
fn test_reverse_cols_of_rows() {
    let ship = [
        [Status::Live, Status::Live, Status::Space],
        [Status::Space, Status::Live, Status::Space],
        [Status::Space, Status::Space, Status::Space],
    ];
    let expected = [
        [Status::Space, Status::Live, Status::Live],
        [Status::Space, Status::Live, Status::Space],
        [Status::Space, Status::Space, Status::Space],
    ];
    assert_eq!(reverse_cols_of_rows(ship), expected);
}

#[test]
fn test_transpose() {
    let ship = [
        [Status::Live, Status::Live, Status::Space],
        [Status::Space, Status::Live, Status::Space],
        [Status::Space, Status::Space, Status::Space],
    ];
    let expected = [
        [Status::Live, Status::Space, Status::Space],
        [Status::Live, Status::Live, Status::Space],
        [Status::Space, Status::Space, Status::Space],
    ];
    assert_eq!(transpose(ship), expected);
}

#[test]
fn test_ship_type_get_shape() {
    let ship = ShipType::H;
    assert_eq!(
        ship.get_shape(90),
        [
            [Status::Live, Status::Space, Status::Live],
            [Status::Live, Status::Live, Status::Live],
            [Status::Live, Status::Space, Status::Live],
        ]
    );
    assert_eq!(
        ship.get_shape(180),
        [
            [Status::Live, Status::Live, Status::Live],
            [Status::Space, Status::Live, Status::Space],
            [Status::Live, Status::Live, Status::Live],
        ]
    );
    let ship = ShipType::V;
    assert_eq!(
        ship.get_shape(270),
        [
            [Status::Space, Status::Live, Status::Space],
            [Status::Live, Status::Space, Status::Live],
            [Status::Live, Status::Space, Status::Live],
        ]
    );
    assert_eq!(
        ship.get_shape(360),
        [
            [Status::Live, Status::Live, Status::Space],
            [Status::Space, Status::Space, Status::Live],
            [Status::Live, Status::Live, Status::Space],
        ]
    );
}

#[test]
fn test_ship_is_overlapping() {
    let ship = Ship::new(ShipType::H);

    assert!(!ship.is_overlapping(&[], (0, 0)));
    assert!(!ship.is_overlapping(&[vec![]], (0, 0)));

    let mut positions = empty_positions();
    // no overlap on an empty grid
    assert!(!ship.is_overlapping(&positions, (0, 0)));

    positions[1][5] = Position {
        coordinate: (1, 5),
        ship_id: Some(123),
        status: Status::Live,
    };
    // overlap once a live cell lies under the ship
    assert!(ship.is_overlapping(&positions, (1, 5)));
}

#[test]
fn test_ship_draw() {
    let ship = Ship {
        id: 123,
        rotation: 90,
        alive: true,
        ship_type: ShipType::H,
    };
    let mut positions = empty_positions();
    assert!(ship.draw(&mut positions, (5, 5)));
    let p = render(&positions);
    assert_eq!(p, "          \n          \n          \n          \n          \n     🚀 🚀  \n     🚀🚀🚀  \n     🚀 🚀  \n          \n          ");
    assert!(ship.is_overlapping(&positions, (5, 5)));
}

#[test]
fn test_board_new() {
    let opponent_board = Board::new(false);

    // a tracking board starts empty
    assert_eq!(opponent_board.to_string(), "          \n          \n          \n          \n          \n          \n          \n          \n          \n          ");

    let my_board = Board::new(true);

    assert_eq!(my_board.ships.len(), 4);
    assert_eq!(my_board.positions.len(), ROWS);
    // every ship is drawn with all of its cells
    my_board.ships.iter().for_each(|it| {
        let found = my_board
            .positions
            .iter()
            .flat_map(|pr| pr.iter())
            .filter(|pc| pc.ship_id == Some(it.id))
            .collect::<Vec<_>>();
        match it.ship_type {
            ShipType::X => assert!(found.len() == 5, "ship X not placed!"),
            ShipType::V => assert!(found.len() == 5, "ship V not placed!"),
            ShipType::H => assert!(found.len() == 7, "ship H not placed!"),
            ShipType::I => assert!(found.len() == 3, "ship I not placed!"),
        }
    })
}

#[test]
fn test_board_take_fire() {
    let mut board = Board::new(true);

    board.positions[1][1].status = Status::Space;
    board.positions[3][3].status = Status::Live;

    let mut shots = BTreeSet::new();
    shots.insert((1, 1));
    shots.insert((3, 3));

    let (res, lost) = board.take_fire(&shots);
    assert_eq!(res.get(&(1, 1)).unwrap(), &Status::Miss);
    assert_eq!(res.get(&(3, 3)).unwrap(), &Status::Hit);
    assert!(!lost);

    let mut board = Board::new(true);

    // every cell of the first ship is hit but one
    let ship_id = board.ships[0].id;
    let mut pos = board
        .positions
        .iter_mut()
        .flat_map(|pr| pr.iter_mut())
        .filter(|pc| pc.ship_id == Some(ship_id))
        .collect::<Vec<_>>();

    pos.iter_mut().skip(1).for_each(|p| p.status = Status::Hit);
    let c = pos.iter().take(1).map(|p| p.coordinate).collect::<Vec<_>>();

    let mut shots = BTreeSet::new();
    shots.insert(c[0]);

    let (res, lost) = board.take_fire(&shots);
    assert_eq!(res.get(&c[0]).unwrap(), &Status::Kill);
    assert!(!lost);
}

#[test]
fn test_board_update_status() {
    let mut board = Board::new(false);

    let mut res = BTreeMap::new();
    res.insert((1, 1), Status::Miss);
    res.insert((3, 3), Status::Hit);
    res.insert((0, 2), Status::Kill);

    let message = board.update_status(res, false);
    assert_eq!(message, "You have sunk a ship. You missed 1.");

    let mut res = BTreeMap::new();
    res.insert((3, 3), Status::Hit);
    res.insert((0, 2), Status::Hit);

    let message = board.update_status(res.clone(), false);
    assert_eq!(message, "You have 2 hit.");
    let message = board.update_status(res, true);
    assert_eq!(message, "Computer have 2 hit.");
}
