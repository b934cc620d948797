//! Players, turns, the shot-count rules and the computer's targeting.

use crate::board::{
    alive_count, cells, count_answers, fleet, get_random_coordinate, in_bounds, mirrored,
    shot_order, summary, volley, Board, Coordinate, COLS, ROWS,
};
use crate::random::choose_from;
use crate::shape::Status;
use std::collections::BTreeSet;
use vstd::prelude::*;

verus! {

broadcast use vstd::laws_cmp::group_laws_cmp;

/// How many shots a side may fire in one turn.
#[derive(PartialEq, Eq, Structural, Debug, Clone, Copy)]
pub enum Rule {
    /// One shot per turn.
    Default,
    /// As many shots as the human has ships afloat.
    Fury,
    /// One shot, plus one for each of the computer's ships already sunk.
    Charge,
}

/// How the computer picks its targets.
#[derive(PartialEq, Eq, Structural, Debug, Clone, Copy)]
pub enum Difficulty {
    /// Uniformly random cells.
    Easy,
    /// Cells near earlier hits, when there are any.
    Hard,
}

/// A side of the game: its own board with its fleet, and the board on which it tracks the
/// answers to its shots.
#[derive(Debug, Clone)]
pub struct Player {
    pub is_bot: bool,
    pub own: Board,
    pub tracking: Board,
}

/// Both boards well formed; four ships of its own, none on the tracking board.
pub open spec fn player_wf(p: Player) -> bool {
    &&& p.own.wf()
    &&& p.own.ships@.len() == 4
    &&& p.tracking.wf()
    &&& p.tracking.ships@.len() == 0
}

/// A fresh side: its fleet placed, its tracking board empty.
pub open spec fn fresh_player(p: Player) -> bool {
    &&& player_wf(p)
    &&& fleet(p.own)
    &&& forall|i: int, j: int| 0 <= i < 10 && 0 <= j < 10 ==> #[trigger] p.tracking.grid()[i][j]
        == crate::board::Position::new_spec((i as usize, j as usize))
}

impl Player {
    pub open spec fn own_board(&self) -> Board {
        self.own
    }

    pub open spec fn tracking_board(&self) -> Board {
        self.tracking
    }

    /// The human side.
    pub fn new() -> (r: Player)
        ensures
            !r.is_bot,
            fresh_player(r),
    {
        Player { is_bot: false, own: Board::new(true), tracking: Board::new(false) }
    }

    pub fn player_board_mut(&mut self) -> (r: &mut Board)
        ensures
            *r == old(self).own,
            *final(self) == (Player { own: *final(r), ..*old(self) }),
    {
        &mut self.own
    }

    pub fn player_board(&self) -> (r: &Board)
        ensures
            *r == self.own,
    {
        &self.own
    }

    pub fn opponent_board_mut(&mut self) -> (r: &mut Board)
        ensures
            *r == old(self).tracking,
            *final(self) == (Player { tracking: *final(r), ..*old(self) }),
    {
        &mut self.tracking
    }

    pub fn opponent_board(&self) -> (r: &Board)
        ensures
            *r == self.tracking,
    {
        &self.tracking
    }
}

impl Default for Player {
    /// The computer's side.
    fn default() -> (r: Player)
        ensures
            r.is_bot,
            fresh_player(r),
    {
        Player { is_bot: true, ..Player::new() }
    }
}

/// A game: the rule and difficulty, the human (player 0) and the computer (player 1), the
/// winner once there is one, and whose turn it is.
pub struct Game {
    pub rule: Rule,
    pub difficulty: Difficulty,
    pub human: Player,
    pub machine: Player,
    pub winner: Option<usize>,
    pub turn: usize,
}

/// Whether a turn that already holds `n` shots may take another.
pub open spec fn rule_allows(rule: Rule, human: Player, machine: Player, n: int) -> bool {
    match rule {
        Rule::Default => n < 1,
        Rule::Fury => n < alive_count(human.own.ships@),
        Rule::Charge => n <= machine.own.ships@.len() - alive_count(machine.own.ships@),
    }
}

/// How many shots the computer fires in one turn. Under `Charge` it counts the ships that
/// the computer has sunk on the human's side.
pub open spec fn bot_shot_count(rule: Rule, human: Player, machine: Player) -> int {
    match rule {
        Rule::Default => 1,
        Rule::Fury => alive_count(machine.own.ships@) as int,
        Rule::Charge => human.own.ships@.len() - alive_count(human.own.ships@) + 1,
    }
}

/// `shots` is a valid volley for the computer in `g`: only cells of its tracking board that
/// hold no answer yet, `bot_shot_count` of them, or every such cell when there are fewer.
pub open spec fn bot_targets(g: Game, shots: Set<Coordinate>) -> bool {
    &&& shots.finite()
    &&& forall|k: Coordinate| #[trigger] shots.contains(k) ==> in_bounds(k) && !resolved(g.machine.tracking, k)
    &&& shots.len() <= bot_shot_count(g.rule, g.human, g.machine)
    &&& shots.len() == bot_shot_count(g.rule, g.human, g.machine) || forall|k: Coordinate|
        in_bounds(k) && !resolved(g.machine.tracking, k) ==> #[trigger] shots.contains(k)
}

/// A tracked cell that already holds an answer.
pub open spec fn resolved(b: Board, k: Coordinate) -> bool {
    let s = b.grid()[k.0 as int][k.1 as int].status;
    s != Status::Live && s != Status::Space
}

pub proof fn lemma_alive_count_bound(ships: Seq<crate::board::Ship>)
    ensures
        alive_count(ships) <= ships.len(),
{
    ships.lemma_filter_len(|s: crate::board::Ship| s.alive);
}

impl Game {
    pub open spec fn wf(&self) -> bool {
        &&& self.turn < 2
        &&& player_wf(self.human)
        &&& player_wf(self.machine)
    }

    pub open spec fn side(&self, i: int) -> Player {
        if i == 0 {
            self.human
        } else {
            self.machine
        }
    }

    /// A new game: the human moves first, and both fleets are freshly placed.
    pub fn new(rule: Rule, difficulty: Difficulty) -> (r: Game)
        ensures
            r.wf(),
            r.rule == rule,
            r.difficulty == difficulty,
            r.turn == 0,
            r.winner is None,
            fresh_player(r.human),
            !r.human.is_bot,
            fresh_player(r.machine),
            r.machine.is_bot,
    {
        Game { turn: 0, winner: None, human: Player::new(), machine: Player::default(), rule, difficulty }
    }

    fn player_by_turn_mut(&mut self, turn: usize) -> (r: &mut Player)
        requires
            turn < 2,
        ensures
            *r == old(self).side(turn as int),
            turn == 0 ==> *final(self) == (Game { human: *final(r), ..*old(self) }),
            turn == 1 ==> *final(self) == (Game { machine: *final(r), ..*old(self) }),
    {
        if turn == 0 {
            &mut self.human
        } else {
            &mut self.machine
        }
    }

    pub fn is_user_turn(&self) -> (r: bool)
        ensures
            r == (self.turn == 0),
    {
        self.turn == 0
    }

    pub fn is_won(&self) -> (r: bool)
        ensures
            r == (self.winner is Some),
    {
        self.winner.is_some()
    }

    pub fn player(&self) -> (r: &Player)
        ensures
            *r == self.human,
    {
        &self.human
    }

    pub fn computer(&self) -> (r: &Player)
        ensures
            *r == self.machine,
    {
        &self.machine
    }

    /// Whether a turn that already holds `existing_shots` shots may take another.
    pub fn is_valid_rule(&self, existing_shots: usize) -> (r: bool)
        ensures
            r == rule_allows(self.rule, self.human, self.machine, existing_shots as int),
    {
        match self.rule {
            Rule::Default => existing_shots < 1,
            Rule::Fury => existing_shots < self.player().player_board().ships_alive().len(),
            Rule::Charge => {
                let board = self.computer().player_board();
                let alive = board.ships_alive().len();
                proof {
                    lemma_alive_count_bound(board.ships@);
                }
                existing_shots <= board.ships.len() - alive
            },
        }
    }
}

/// How many tries the computer's random targeting gets before it takes the first free cells
/// in row-major order.
pub const TARGETING_ATTEMPTS: usize = 10000;

/// The outcome of `g.fire(shots, bot)` as the state `h` and the message `msg`: the side
/// whose turn it is fires at the other side's own board, the answers are mirrored on its
/// tracking board, the turn passes, and when no defending ship is left afloat the firing
/// side wins and the message announces the end of the game from the human's point of view.
pub open spec fn fired(g: Game, h: Game, shots: Set<Coordinate>, bot: bool, msg: Seq<char>) -> bool {
    let att = g.turn as int;
    let def = 1 - att;
    let v = volley((g.side(def).own.grid(), g.side(def).own.ships@, Map::empty()), shot_order(shots));
    let lost = alive_count(v.1) == 0;
    &&& h.rule == g.rule
    &&& h.difficulty == g.difficulty
    &&& h.side(def).own.grid() == v.0
    &&& h.side(def).own.ships@ == v.1
    &&& h.side(def).tracking == g.side(def).tracking
    &&& h.side(def).is_bot == g.side(def).is_bot
    &&& h.side(att).own == g.side(att).own
    &&& h.side(att).is_bot == g.side(att).is_bot
    &&& h.side(att).tracking.ships@ == g.side(att).tracking.ships@
    &&& forall|i: int, j: int| 0 <= i < 10 && 0 <= j < 10 ==> #[trigger] h.side(att).tracking.grid()[i][j]
        == mirrored(g.side(att).tracking.grid()[i][j], (i as usize, j as usize), v.2)
    &&& h.turn == def
    &&& h.winner == if lost { Some(g.turn) } else { g.winner }
    &&& msg == if lost {
        if bot {
            "You lost 🙁"@
        } else {
            "You won 🙌"@
        }
    } else {
        summary(
            count_answers(v.2, Status::Kill),
            count_answers(v.2, Status::Hit),
            count_answers(v.2, Status::Miss),
            bot,
        )
    }
}

pub proof fn lemma_volley_keeps_ship_count(v: crate::board::Volley, s: Seq<Coordinate>)
    ensures
        volley(v, s).1.len() == v.1.len(),
    decreases s.len(),
{
    if s.len() > 0 {
        lemma_volley_keeps_ship_count(v, s.drop_last());
        let w = volley(v, s.drop_last());
        let p = w.0[s.last().0 as int][s.last().1 as int];
        if p.status == Status::Live && p.ship_id is Some && crate::board::has_ship(w.1, p.ship_id.unwrap()) {
            crate::board::lemma_ship_index(w.1, p.ship_id.unwrap());
        }
    }
}

impl Game {
    /// Resolves a volley of the side whose turn it is against the other side's fleet,
    /// mirrors the answers on the firing side's tracking board and passes the turn.
    pub fn fire(&mut self, shots: &BTreeSet<Coordinate>, bot: bool) -> (msg: String)
        requires
            old(self).wf(),
        ensures
            final(self).wf(),
            fired(*old(self), *final(self), shots@, bot, msg@),
    {
        let ghost g = *self;
        let player_index = self.turn;
        let opponent_index = 1 - player_index;
        let opponent = self.player_by_turn_mut(opponent_index);
        let opponent_board = opponent.player_board_mut();
        let (response, lost) = opponent_board.take_fire(shots);
        proof {
            lemma_volley_keeps_ship_count(
                (g.side(opponent_index as int).own.grid(), g.side(opponent_index as int).own.ships@, Map::empty()),
                shot_order(shots@),
            );
        }
        let player = self.player_by_turn_mut(player_index);
        let message = player.opponent_board_mut().update_status(response, bot);
        self.turn = opponent_index;
        if lost {
            self.winner = Some(player_index);
            if bot {
                String::from_str("You lost 🙁")
            } else {
                String::from_str("You won 🙌")
            }
        } else {
            message
        }
    }

    /// The computer's targets for one turn: as many as `bot_shot_count` asks, all on cells of
    /// its tracking board that hold no answer yet (or every such cell, when there are fewer).
    pub fn generate_bot_firing_coordinates(&self) -> (r: BTreeSet<Coordinate>)
        requires
            self.wf(),
        ensures
            bot_targets(*self, r@),
    {
        let number_of_shots: usize = match self.rule {
            Rule::Default => 1,
            Rule::Fury => self.computer().player_board().ships_alive().len(),
            Rule::Charge => {
                let board = self.player().player_board();
                let alive = board.ships_alive().len();
                proof {
                    lemma_alive_count_bound(board.ships@);
                }
                board.ships.len() - alive + 1
            },
        };
        let tracking = self.computer().opponent_board();
        let ghost tb = self.machine.tracking;
        let previous = tracking.positions();
        let mut hits: Vec<Coordinate> = Vec::new();
        let mut i: usize = 0;
        while i < previous.len()
            invariant
                i <= previous@.len(),
                forall|k: int| 0 <= k < hits@.len() ==> in_bounds(#[trigger] hits@[k]),
                tb.wf(),
                previous@ == cells(tb.grid()),
            decreases previous@.len() - i,
        {
            let p = previous[i];
            if p.status == Status::Hit {
                proof {
                    crate::board::lemma_cells_member(tb.grid(), i as int);
                }
                hits.push(p.coordinate);
            }
            i = i + 1;
        }
        let mut shots: BTreeSet<Coordinate> = BTreeSet::new();
        let mut attempts: usize = 0;
        while shots.len() < number_of_shots && attempts < TARGETING_ATTEMPTS
            invariant
                tb == self.machine.tracking,
                tb.wf(),
                *tracking == tb,
                forall|k: int| 0 <= k < hits@.len() ==> in_bounds(#[trigger] hits@[k]),
                shots@.finite(),
                shots@.len() <= number_of_shots,
                forall|k: Coordinate| #[trigger] shots@.contains(k) ==> in_bounds(k) && !resolved(tb, k),
            decreases TARGETING_ATTEMPTS - attempts,
        {
            let shot = if self.difficulty == Difficulty::Easy || hits.len() == 0 {
                get_random_coordinate(0)
            } else {
                let coord = match choose_from(hits.as_slice()) {
                    Some(c) => c,
                    None => (0, 0),
                };
                let offsets: [i64; 5] = [-2, -1, 0, 1, 2];
                let dx = match choose_from(offsets.as_slice()) {
                    Some(d) => d,
                    None => 0,
                };
                let dy = match choose_from(offsets.as_slice()) {
                    Some(d) => d,
                    None => 0,
                };
                proof {
                    if hits@.len() > 0 {
                        let k = choose|k: int| 0 <= k < hits@.len() && hits@[k] == coord;
                        assert(in_bounds(hits@[k]));
                    }
                    let a = choose|k: int| 0 <= k < 5 && offsets@[k] == dx;
                    let b = choose|k: int| 0 <= k < 5 && offsets@[k] == dy;
                }
                let x = coord.0 as i64 + dx;
                let y = coord.1 as i64 + dy;
                let x = if x >= ROWS as i64 || x < 0 {
                    coord.0
                } else {
                    x as usize
                };
                let y = if y >= COLS as i64 || y < 0 {
                    coord.1
                } else {
                    y as usize
                };
                (x, y)
            };
            if !tracking.is_resolved(shot) {
                shots.insert(shot);
            }
            attempts = attempts + 1;
        }
        let mut r: usize = 0;
        while r < ROWS
            invariant
                tb == self.machine.tracking,
                tb.wf(),
                *tracking == tb,
                r <= 10,
                shots@.finite(),
                shots@.len() <= number_of_shots,
                forall|k: Coordinate| #[trigger] shots@.contains(k) ==> in_bounds(k) && !resolved(tb, k),
                shots@.len() == number_of_shots || forall|k: Coordinate|
                    k.0 < r && k.1 < 10 && !resolved(tb, k) ==> #[trigger] shots@.contains(k),
            decreases 10 - r,
        {
            let mut c: usize = 0;
            while c < COLS
                invariant
                    tb == self.machine.tracking,
                    tb.wf(),
                    *tracking == tb,
                    r < 10,
                    c <= 10,
                    shots@.finite(),
                    shots@.len() <= number_of_shots,
                    forall|k: Coordinate| #[trigger] shots@.contains(k) ==> in_bounds(k) && !resolved(tb, k),
                    shots@.len() == number_of_shots || forall|k: Coordinate|
                        (k.0 < r || (k.0 == r && k.1 < c)) && k.1 < 10 && !resolved(tb, k) ==> #[trigger] shots@.contains(k),
                decreases 10 - c,
            {
                if shots.len() < number_of_shots && !tracking.is_resolved((r, c)) {
                    shots.insert((r, c));
                }
                c = c + 1;
            }
            r = r + 1;
        }
        shots
    }

    /// The computer's turn: it picks its targets and fires them.
    pub fn bot_fire(&mut self) -> (msg: String)
        requires
            old(self).wf(),
        ensures
            final(self).wf(),
            exists|shots: Set<Coordinate>| bot_targets(*old(self), shots) && fired(*old(self), *final(self), shots, true, msg@),
    {
        let shots = self.generate_bot_firing_coordinates();
        self.fire(&shots, true)
    }
}

/// Every turn may take its first shot: under `Fury` this needs at least one of the human's
/// ships afloat; under `Default` and `Charge` it always holds.
pub proof fn lemma_first_shot_allowed(rule: Rule, human: Player, machine: Player)
    requires
        rule == Rule::Fury ==> alive_count(human.own.ships@) > 0,
    ensures
        rule_allows(rule, human, machine, 0),
{
    lemma_alive_count_bound(machine.own.ships@);
}

/// The computer fires exactly `bot_shot_count` shots whenever its tracking board has at
/// least that many cells without an answer: one under `Default`, and under `Fury` as many
/// as its ships afloat.
pub proof fn lemma_bot_volley_size(g: Game, shots: Set<Coordinate>, free: Set<Coordinate>)
    requires
        bot_targets(g, shots),
        forall|k: Coordinate| #[trigger] free.contains(k) ==> in_bounds(k) && !resolved(g.machine.tracking, k),
        free.finite(),
        free.len() >= bot_shot_count(g.rule, g.human, g.machine),
    ensures
        shots.len() == bot_shot_count(g.rule, g.human, g.machine),
        g.rule == Rule::Default ==> shots.len() == 1,
        g.rule == Rule::Fury ==> shots.len() == alive_count(g.machine.own.ships@),
{
    if shots.len() != bot_shot_count(g.rule, g.human, g.machine) {
        assert(free.subset_of(shots));
        vstd::set_lib::lemma_len_subset(free, shots);
    }
}

/// Firing always passes the turn to the other side, and a game without a winner gets one
/// exactly when the defending side has no ship left afloat: the side that fired.
pub proof fn lemma_fire_turn_and_winner(g: Game, h: Game, shots: Set<Coordinate>, bot: bool, msg: Seq<char>)
    requires
        g.wf(),
        fired(g, h, shots, bot, msg),
    ensures
        h.turn == 1 - g.turn,
        g.winner is None ==> (h.winner is Some <==> alive_count(h.side(1 - g.turn).own.ships@) == 0),
        g.winner is None && h.winner is Some ==> h.winner == Some(g.turn),
{
}

} // verus!
