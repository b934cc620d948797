//! Grid cells, ships and boards, and how a board answers a volley of shots.

use crate::random::{choose_from, new_identifier, random_below};
use crate::text::{decimal, decimal_string};
use crate::shape::{at, is_rotation, lemma_rotated_size, live_count_of, ship_size, is_rotation_of, rotated_at, status_glyph, ShipShape, ShipType, Status, SHIP_SIZE};
use std::collections::{BTreeMap, BTreeSet};
use vstd::prelude::*;

verus! {

broadcast use vstd::laws_cmp::group_laws_cmp;

/// Number of rows of a board.
pub const ROWS: usize = 10;

/// Number of columns of a board.
pub const COLS: usize = 10;

/// A `(row, col)` pair; pairs order lexicographically, which on a board is row-major order.
pub type Coordinate = (usize, usize);

pub open spec fn in_bounds(k: Coordinate) -> bool {
    k.0 < 10 && k.1 < 10
}

/// The coordinates of row `r`, left to right.
pub open spec fn row_coords(r: int) -> Seq<Coordinate> {
    Seq::new(10, |c: int| (r as usize, c as usize))
}

/// The coordinates of the first `n` rows in row-major order.
pub open spec fn coords_upto(n: int) -> Seq<Coordinate>
    decreases n,
{
    if n <= 0 {
        Seq::empty()
    } else {
        coords_upto(n - 1) + row_coords(n - 1)
    }
}

/// Every coordinate of a board, in increasing order.
pub open spec fn grid_coords() -> Seq<Coordinate> {
    coords_upto(10)
}

/// One grid cell.
#[derive(PartialEq, Eq, Debug, Clone, Copy)]
pub struct Position {
    pub status: Status,
    pub coordinate: Coordinate,
    /// The identifier of the ship drawn over this cell, if any.
    pub ship_id: Option<u128>,
}

/// A ship: its identifier, the rotation of its template, whether it is still afloat, and its kind.
#[derive(PartialEq, Eq, Structural, Debug, Clone, Copy)]
pub struct Ship {
    pub id: u128,
    pub rotation: u16,
    pub alive: bool,
    pub ship_type: ShipType,
}

/// A ten by ten grid of cells (row-major) and the ships that own some of them.
#[derive(Debug, Clone)]
pub struct Board {
    pub positions: Vec<Vec<Position>>,
    pub ships: Vec<Ship>,
}

/// A grid as rows of cells.
pub type Grid = Seq<Seq<Position>>;

/// The cells of the first `n` rows in row-major order.
pub open spec fn cells_upto(g: Grid, n: int) -> Seq<Position>
    decreases n,
{
    if n <= 0 {
        Seq::empty()
    } else {
        cells_upto(g, n - 1) + g[n - 1]
    }
}

/// Every cell of a grid in row-major order.
pub open spec fn cells(g: Grid) -> Seq<Position> {
    cells_upto(g, g.len() as int)
}

/// Cells that belong to ship `id`.
pub open spec fn owned_by(id: u128) -> spec_fn(Position) -> bool {
    |p: Position| p.ship_id == Some(id)
}

/// Cells that belong to ship `id` and have not been struck.
pub open spec fn live_owned_by(id: u128) -> spec_fn(Position) -> bool {
    |p: Position| p.ship_id == Some(id) && p.status == Status::Live
}

/// The cells owned by ship `id` (`live_only`: those still `Live`), in row-major order.
pub open spec fn ship_cells(g: Grid, id: u128, live_only: bool) -> Seq<Position> {
    if live_only {
        cells(g).filter(live_owned_by(id))
    } else {
        cells(g).filter(owned_by(id))
    }
}

/// Ten rows of ten cells, each holding its own coordinate.
pub open spec fn grid_wf(g: Grid) -> bool {
    &&& g.len() == 10
    &&& forall|r: int| 0 <= r < 10 ==> #[trigger] g[r].len() == 10
    &&& forall|r: int, c: int| 0 <= r < 10 && 0 <= c < 10 ==> #[trigger] g[r][c].coordinate == (r as usize, c as usize)
}

/// `i` is the first index of a ship with identifier `id`.
pub open spec fn is_first_with_id(ships: Seq<Ship>, id: u128, i: int) -> bool {
    &&& 0 <= i < ships.len()
    &&& ships[i].id == id
    &&& forall|j: int| 0 <= j < i ==> ships[j].id != id
}

pub open spec fn has_ship(ships: Seq<Ship>, id: u128) -> bool {
    exists|i: int| 0 <= i < ships.len() && ships[i].id == id
}

/// The index of the first ship with identifier `id` (meaningful when there is one).
pub open spec fn ship_index(ships: Seq<Ship>, id: u128) -> int {
    choose|i: int| is_first_with_id(ships, id, i)
}

/// Number of ships still afloat.
pub open spec fn alive_count(ships: Seq<Ship>) -> nat {
    ships.filter(|s: Ship| s.alive).len()
}

pub proof fn lemma_ship_index(ships: Seq<Ship>, id: u128)
    requires
        has_ship(ships, id),
    ensures
        is_first_with_id(ships, id, ship_index(ships, id)),
{
    let w = choose|i: int| 0 <= i < ships.len() && ships[i].id == id;
    lemma_exists_first(ships, id, w);
}

proof fn lemma_exists_first(ships: Seq<Ship>, id: u128, w: int)
    requires
        0 <= w < ships.len(),
        ships[w].id == id,
    ensures
        exists|i: int| is_first_with_id(ships, id, i),
    decreases w,
{
    if exists|j: int| 0 <= j < w && ships[j].id == id {
        let j = choose|j: int| 0 <= j < w && ships[j].id == id;
        lemma_exists_first(ships, id, j);
    } else {
        assert(is_first_with_id(ships, id, w));
    }
}

pub proof fn lemma_first_unique(ships: Seq<Ship>, id: u128, i: int)
    requires
        is_first_with_id(ships, id, i),
    ensures
        ship_index(ships, id) == i,
{
    lemma_ship_index(ships, id);
    let k = ship_index(ships, id);
    if k < i {
        assert(ships[k].id != id);
    } else if i < k {
        assert(ships[i].id != id);
    }
}

/// Every cell of row `r` of the grid is among its cells.
pub proof fn lemma_cells_contains(g: Grid, r: int, c: int)
    requires
        0 <= r < g.len(),
        0 <= c < g[r].len(),
    ensures
        cells(g).contains(g[r][c]),
{
    lemma_cells_upto_contains(g, g.len() as int, r, c);
}

proof fn lemma_cells_upto_contains(g: Grid, n: int, r: int, c: int)
    requires
        0 <= r < n <= g.len(),
        0 <= c < g[r].len(),
    ensures
        cells_upto(g, n).contains(g[r][c]),
    decreases n,
{
    let a = cells_upto(g, n - 1);
    assert(cells_upto(g, n) == a + g[n - 1]);
    if r == n - 1 {
        assert((a + g[r])[a.len() + c] == g[r][c]);
    } else {
        lemma_cells_upto_contains(g, n - 1, r, c);
        let k = choose|k: int| 0 <= k < a.len() && a[k] == g[r][c];
        assert((a + g[n - 1])[k] == g[r][c]);
    }
}

impl Position {
    /// An empty, unrevealed cell at `coordinate`.
    pub fn new(coordinate: Coordinate) -> (r: Position)
        ensures
            r == (Position { status: Status::Space, coordinate, ship_id: None }),
    {
        Position { coordinate, status: Status::Space, ship_id: None }
    }

    /// The status to show for this cell: `Kill` when its ship has sunk, else its own status.
    pub fn get_status(&self, ship: Option<&Ship>) -> (r: Status)
        ensures
            r == (if ship is Some && !ship.unwrap().alive { Status::Kill } else { self.status }),
    {
        match ship {
            Some(s) if !s.alive => Status::Kill,
            _ => self.status,
        }
    }

    /// The glyph this cell is drawn with.
    pub fn to_string(&self) -> (r: String)
        ensures
            r@ == status_glyph(self.status),
    {
        String::from_str(self.status.glyph())
    }
}

impl Board {
    /// The grid as rows of cells.
    pub open spec fn grid(&self) -> Grid {
        self.positions@.map_values(|row: Vec<Position>| row@)
    }

    pub open spec fn wf(&self) -> bool {
        grid_wf(self.grid())
    }

    /// A board of empty cells and no ships.
    pub fn empty() -> (r: Board)
        ensures
            r.wf(),
            r.ships@ == Seq::<Ship>::empty(),
            forall|i: int, j: int| 0 <= i < 10 && 0 <= j < 10 ==> #[trigger] r.grid()[i][j] == Position::new_spec((i as usize, j as usize)),
    {
        let mut positions: Vec<Vec<Position>> = Vec::new();
        let mut r: usize = 0;
        while r < ROWS
            invariant
                r <= 10,
                positions@.len() == r,
                forall|i: int| 0 <= i < r ==> #[trigger] positions@[i]@.len() == 10,
                forall|i: int, j: int| 0 <= i < r && 0 <= j < 10 ==> #[trigger] positions@[i]@[j] == Position::new_spec((i as usize, j as usize)),
            decreases 10 - r,
        {
            let mut row: Vec<Position> = Vec::new();
            let mut c: usize = 0;
            while c < COLS
                invariant
                    r < 10,
                    c <= 10,
                    row@.len() == c,
                    forall|j: int| 0 <= j < c ==> #[trigger] row@[j] == Position::new_spec((r, j as usize)),
                decreases 10 - c,
            {
                row.push(Position::new((r, c)));
                c = c + 1;
            }
            positions.push(row);
            r = r + 1;
        }
        let b = Board { positions, ships: Vec::new() };
        assert(b.wf());
        b
    }
}

impl Board {
    /// The cells owned by ship `id` (`live_only`: only those still `Live`), in row-major order.
    fn cells_of_ship(&self, id: u128, live_only: bool) -> (r: Vec<Position>)
        requires
            self.wf(),
        ensures
            r@ == ship_cells(self.grid(), id, live_only),
    {
        let ghost g = self.grid();
        let ghost pred = if live_only { live_owned_by(id) } else { owned_by(id) };
        let mut out: Vec<Position> = Vec::new();
        let mut r: usize = 0;
        while r < ROWS
            invariant
                self.wf(),
                g == self.grid(),
                pred == (if live_only { live_owned_by(id) } else { owned_by(id) }),
                r <= 10,
                out@ == cells_upto(g, r as int).filter(pred),
            decreases 10 - r,
        {
            let row = &self.positions[r];
            let ghost before = cells_upto(g, r as int);
            let mut c: usize = 0;
            while c < COLS
                invariant
                    self.wf(),
                    g == self.grid(),
                    pred == (if live_only { live_owned_by(id) } else { owned_by(id) }),
                    r < 10,
                    c <= 10,
                    row@ == g[r as int],
                    before == cells_upto(g, r as int),
                    out@ == (before + g[r as int].subrange(0, c as int)).filter(pred),
                decreases 10 - c,
            {
                let p = row[c];
                let ghost prev = before + g[r as int].subrange(0, c as int);
                assert(before + g[r as int].subrange(0, c as int + 1) == prev.push(p));
                proof {
                    prev.lemma_filter_push(p, pred);
                }
                let keep = match p.ship_id {
                    Some(x) => x == id && (!live_only || p.status == Status::Live),
                    None => false,
                };
                if keep {
                    out.push(p);
                }
                c = c + 1;
            }
            assert(g[r as int].subrange(0, 10) == g[r as int]);
            assert(cells_upto(g, r as int + 1) == before + g[r as int]);
            r = r + 1;
        }
        out
    }

    /// The cells owned by ship `id`, in row-major order.
    pub fn pos_by_ship(&self, id: u128) -> (r: Vec<Position>)
        requires
            self.wf(),
        ensures
            r@ == ship_cells(self.grid(), id, false),
    {
        self.cells_of_ship(id, false)
    }

    /// The cells owned by ship `id` that are still `Live`, in row-major order.
    pub fn alive_pos_by_ship(&self, id: u128) -> (r: Vec<Position>)
        requires
            self.wf(),
        ensures
            r@ == ship_cells(self.grid(), id, true),
    {
        self.cells_of_ship(id, true)
    }

    /// Every cell of the board in row-major order.
    pub fn positions(&self) -> (r: Vec<Position>)
        requires
            self.wf(),
        ensures
            r@ == cells(self.grid()),
    {
        let ghost g = self.grid();
        let mut out: Vec<Position> = Vec::new();
        let mut r: usize = 0;
        while r < ROWS
            invariant
                self.wf(),
                g == self.grid(),
                r <= 10,
                out@ == cells_upto(g, r as int),
            decreases 10 - r,
        {
            let row = &self.positions[r];
            let mut c: usize = 0;
            while c < COLS
                invariant
                    self.wf(),
                    g == self.grid(),
                    r < 10,
                    c <= 10,
                    row@ == g[r as int],
                    out@ == cells_upto(g, r as int) + g[r as int].subrange(0, c as int),
                decreases 10 - c,
            {
                out.push(row[c]);
                assert(cells_upto(g, r as int) + g[r as int].subrange(0, c as int + 1)
                    == (cells_upto(g, r as int) + g[r as int].subrange(0, c as int)).push(row@[c as int]));
                c = c + 1;
            }
            assert(g[r as int].subrange(0, 10) == g[r as int]);
            r = r + 1;
        }
        out
    }

    /// The ships still afloat, in order.
    pub fn ships_alive(&self) -> (r: Vec<Ship>)
        ensures
            r@ == self.ships@.filter(|s: Ship| s.alive),
    {
        let mut out: Vec<Ship> = Vec::new();
        let mut i: usize = 0;
        while i < self.ships.len()
            invariant
                i <= self.ships@.len(),
                out@ == self.ships@.subrange(0, i as int).filter(|s: Ship| s.alive),
            decreases self.ships@.len() - i,
        {
            let s = self.ships[i];
            assert(self.ships@.subrange(0, i as int + 1) == self.ships@.subrange(0, i as int).push(s));
            proof {
                self.ships@.subrange(0, i as int).lemma_filter_push(s, |s: Ship| s.alive);
            }
            if s.alive {
                out.push(s);
            }
            i = i + 1;
        }
        assert(self.ships@.subrange(0, self.ships@.len() as int) == self.ships@);
        out
    }

    /// The index of the first ship with identifier `id`.
    fn find_ship_index(&self, id: u128) -> (r: Option<usize>)
        ensures
            r matches Some(i) ==> is_first_with_id(self.ships@, id, i as int) && i == ship_index(self.ships@, id),
            r is None <==> !has_ship(self.ships@, id),
    {
        let mut i: usize = 0;
        while i < self.ships.len()
            invariant
                i <= self.ships@.len(),
                forall|j: int| 0 <= j < i ==> self.ships@[j].id != id,
            decreases self.ships@.len() - i,
        {
            if self.ships[i].id == id {
                proof {
                    lemma_first_unique(self.ships@, id, i as int);
                }
                return Some(i);
            }
            i = i + 1;
        }
        None
    }

    /// The first ship with identifier `id`.
    pub fn find_ship(&self, id: u128) -> (r: Option<&Ship>)
        ensures
            r matches Some(s) ==> has_ship(self.ships@, id) && *s == self.ships@[ship_index(self.ships@, id)],
            r is None <==> !has_ship(self.ships@, id),
    {
        match self.find_ship_index(id) {
            Some(i) => Some(&self.ships[i]),
            None => None,
        }
    }

    /// The cell at `coordinate` and the ship drawn over it, if that ship is on this board.
    pub fn find_position_and_ship(&self, coordinate: Coordinate) -> (r: (&Position, Option<&Ship>))
        requires
            self.wf(),
            in_bounds(coordinate),
        ensures
            *r.0 == self.grid()[coordinate.0 as int][coordinate.1 as int],
            r.1 matches Some(s) ==> (r.0.ship_id matches Some(id) && has_ship(self.ships@, id)
                && *s == self.ships@[ship_index(self.ships@, id)]),
            r.1 is None <==> (r.0.ship_id matches Some(id) ==> !has_ship(self.ships@, id)),
    {
        assert(self.grid()[coordinate.0 as int] == self.positions@[coordinate.0 as int]@);
        let pos = &self.positions[coordinate.0][coordinate.1];
        match pos.ship_id {
            Some(id) => (pos, self.find_ship(id)),
            None => (pos, None),
        }
    }
}

/// The defender's grid and ships, and the answer given so far to each shot coordinate.
pub type Volley = (Grid, Seq<Ship>, Map<Coordinate, Status>);

/// `g` with the status of the cell at `k` replaced by `s`.
pub open spec fn set_status(g: Grid, k: Coordinate, s: Status) -> Grid {
    let p = g[k.0 as int][k.1 as int];
    g.update(k.0 as int, g[k.0 as int].update(k.1 as int, Position { status: s, ..p }))
}

/// The coordinates of the given cells, each answered `Kill`.
pub open spec fn kill_map(cs: Seq<Position>) -> Map<Coordinate, Status> {
    Map::new(
        |k: Coordinate| exists|i: int| 0 <= i < cs.len() && cs[i].coordinate == k,
        |k: Coordinate| Status::Kill,
    )
}

/// One shot at `shot`. A `Live` cell is hit; when it is the last `Live` cell of a ship on
/// the board, that ship sinks and every cell it owns is answered `Kill`. Any other cell is
/// answered `Miss`, and its stored status changes only if it was not already `Hit` or `Kill`.
pub open spec fn shot_result(v: Volley, shot: Coordinate) -> Volley {
    let g = v.0;
    let ships = v.1;
    let resp = v.2;
    let p = g[shot.0 as int][shot.1 as int];
    if p.status == Status::Live {
        if p.ship_id is Some && ship_cells(g, p.ship_id.unwrap(), true).len() <= 1
            && has_ship(ships, p.ship_id.unwrap()) {
            let id = p.ship_id.unwrap();
            let i = ship_index(ships, id);
            (
                set_status(g, shot, Status::Kill),
                ships.update(i, Ship { alive: false, ..ships[i] }),
                resp.union_prefer_right(kill_map(ship_cells(g, id, false))).insert(shot, Status::Kill),
            )
        } else {
            (set_status(g, shot, Status::Hit), ships, resp.insert(shot, Status::Hit))
        }
    } else if p.status != Status::Hit && p.status != Status::Kill {
        (set_status(g, shot, Status::Miss), ships, resp.insert(shot, Status::Miss))
    } else {
        (g, ships, resp.insert(shot, Status::Miss))
    }
}

/// The shots taken one after another, in order.
pub open spec fn volley(v: Volley, shots: Seq<Coordinate>) -> Volley
    decreases shots.len(),
{
    if shots.len() == 0 {
        v
    } else {
        shot_result(volley(v, shots.drop_last()), shots.last())
    }
}

/// The coordinates of `shots` that lie on the board, in increasing order.
pub open spec fn shot_order(shots: Set<Coordinate>) -> Seq<Coordinate> {
    grid_coords().filter(|k: Coordinate| shots.contains(k))
}

impl Board {
    /// Fires one shot at `(r, c)`, recording the answers in `response`.
    fn fire_at(&mut self, r: usize, c: usize, response: &mut BTreeMap<Coordinate, Status>)
        requires
            old(self).wf(),
            r < 10,
            c < 10,
        ensures
            final(self).wf(),
            (final(self).grid(), final(self).ships@, final(response)@)
                == shot_result((old(self).grid(), old(self).ships@, old(response)@), (r, c)),
    {
        let ghost g = self.grid();
        assert(self.grid()[r as int] == self.positions@[r as int]@);
        let pos = self.positions[r][c];
        let mut status = Status::Miss;
        if pos.status == Status::Live {
            status = Status::Hit;
            if let Some(id) = pos.ship_id {
                let alive = self.alive_pos_by_ship(id);
                if alive.len() <= 1 {
                    if let Some(i) = self.find_ship_index(id) {
                        status = Status::Kill;
                        self.ships[i].alive = false;
                        let owned = self.pos_by_ship(id);
                        let ghost cs = owned@;
                        let ghost base = response@;
                        let mut k: usize = 0;
                        while k < owned.len()
                            invariant
                                k <= owned@.len(),
                                cs == owned@,
                                response@ == base.union_prefer_right(kill_map(cs.subrange(0, k as int))),
                            decreases owned@.len() - k,
                        {
                            let q = owned[k];
                            response.insert(q.coordinate, Status::Kill);
                            assert(response@ =~= base.union_prefer_right(kill_map(cs.subrange(0, k as int + 1)))) by {
                                let a = cs.subrange(0, k as int);
                                let b = cs.subrange(0, k as int + 1);
                                assert forall|x: Coordinate| #[trigger] kill_map(b).dom().contains(x)
                                    <==> (kill_map(a).dom().contains(x) || x == q.coordinate) by {
                                    if exists|j: int| 0 <= j < a.len() && a[j].coordinate == x {
                                        let j = choose|j: int| 0 <= j < a.len() && a[j].coordinate == x;
                                        assert(b[j] == a[j]);
                                    }
                                    if x == q.coordinate {
                                        assert(b[k as int] == q);
                                    }
                                    if exists|j: int| 0 <= j < b.len() && b[j].coordinate == x {
                                        let j = choose|j: int| 0 <= j < b.len() && b[j].coordinate == x;
                                        if j < k {
                                            assert(a[j] == b[j]);
                                        }
                                    }
                                }
                            }
                            k = k + 1;
                        }
                        assert(cs.subrange(0, cs.len() as int) == cs);
                    }
                }
            }
        }
        if pos.status != Status::Hit && pos.status != Status::Kill {
            self.positions[r][c].status = status;
            assert(self.grid() =~= set_status(g, (r, c), status));
        }
        response.insert((r, c), status);
    }

    /// Takes a volley of shots, in increasing coordinate order, and answers each coordinate
    /// on the board. Also says whether no ship is left afloat.
    pub fn take_fire(&mut self, shots: &BTreeSet<Coordinate>) -> (res: (BTreeMap<Coordinate, Status>, bool))
        requires
            old(self).wf(),
        ensures
            final(self).wf(),
            (final(self).grid(), final(self).ships@, res.0@)
                == volley((old(self).grid(), old(self).ships@, Map::empty()), shot_order(shots@)),
            res.1 == (alive_count(final(self).ships@) == 0),
    {
        let ghost start: Volley = (self.grid(), self.ships@, Map::empty());
        let ghost inside = |k: Coordinate| shots@.contains(k);
        let mut response: BTreeMap<Coordinate, Status> = BTreeMap::new();
        let mut r: usize = 0;
        while r < ROWS
            invariant
                self.wf(),
                r <= 10,
                inside == (|k: Coordinate| shots@.contains(k)),
                (self.grid(), self.ships@, response@) == volley(start, coords_upto(r as int).filter(inside)),
            decreases 10 - r,
        {
            let ghost before = coords_upto(r as int);
            let mut c: usize = 0;
            while c < COLS
                invariant
                    self.wf(),
                    r < 10,
                    c <= 10,
                    before == coords_upto(r as int),
                    inside == (|k: Coordinate| shots@.contains(k)),
                    (self.grid(), self.ships@, response@)
                        == volley(start, (before + row_coords(r as int).subrange(0, c as int)).filter(inside)),
                decreases 10 - c,
            {
                let ghost prev = before + row_coords(r as int).subrange(0, c as int);
                assert(before + row_coords(r as int).subrange(0, c as int + 1) == prev.push((r, c)));
                proof {
                    prev.lemma_filter_push((r, c), inside);
                }
                if shots.contains(&(r, c)) {
                    let ghost done = prev.filter(inside);
                    assert(prev.push((r, c)).filter(inside) == done.push((r, c)));
                    assert(done.push((r, c)).drop_last() == done);
                    self.fire_at(r, c, &mut response);
                }
                c = c + 1;
            }
            assert(row_coords(r as int).subrange(0, 10) == row_coords(r as int));
            assert(coords_upto(r as int + 1) == before + row_coords(r as int));
            r = r + 1;
        }
        let alive = self.ships_alive();
        (response, alive.len() == 0)
    }
}

/// Coordinates whose answer is `st`.
pub open spec fn answered(resp: Map<Coordinate, Status>, st: Status) -> spec_fn(Coordinate) -> bool {
    |k: Coordinate| resp.contains_key(k) && resp[k] == st
}

/// Number of coordinates on the board answered `st`.
pub open spec fn count_answers(resp: Map<Coordinate, Status>, st: Status) -> nat {
    grid_coords().filter(answered(resp, st)).len()
}

/// A tracked cell at `k` after the answers `resp`: an answer replaces an unrevealed status
/// (`Space` or `Live`), and a `Kill` replaces any status.
pub open spec fn mirrored(p: Position, k: Coordinate, resp: Map<Coordinate, Status>) -> Position {
    if resp.contains_key(k) && (p.status == Status::Space || p.status == Status::Live
        || resp[k] == Status::Kill) {
        Position { status: resp[k], ..p }
    } else {
        p
    }
}

/// Who the summary speaks of.
pub open spec fn subject(bot: bool) -> Seq<char> {
    if bot {
        "Computer"@
    } else {
        "You"@
    }
}

/// The summary of a volley: a sinking if there was one, else the number of hits, then the
/// number of misses when there were any.
pub open spec fn summary(kills: nat, hits: nat, misses: nat, bot: bool) -> Seq<char> {
    let head = if bot {
        "Computer have "@
    } else {
        "You have "@
    };
    let middle = if kills > 0 {
        "sunk a ship."@
    } else {
        decimal(hits) + " hit."@
    };
    let tail = if misses > 0 {
        " "@ + subject(bot) + " missed "@ + decimal(misses) + "."@
    } else {
        Seq::empty()
    };
    head + middle + tail
}

pub proof fn lemma_coords_upto_len(n: int)
    requires
        0 <= n,
    ensures
        coords_upto(n).len() == 10 * n,
    decreases n,
{
    if n > 0 {
        lemma_coords_upto_len(n - 1);
    }
}

impl Board {
    /// Records the answers to a volley on this tracking board and summarises them; `bot`
    /// says whether the computer fired.
    pub fn update_status(&mut self, response: BTreeMap<Coordinate, Status>, bot: bool) -> (msg: String)
        requires
            old(self).wf(),
        ensures
            final(self).wf(),
            final(self).ships@ == old(self).ships@,
            forall|i: int, j: int| 0 <= i < 10 && 0 <= j < 10 ==> #[trigger] final(self).grid()[i][j]
                == mirrored(old(self).grid()[i][j], (i as usize, j as usize), response@),
            msg@ == summary(
                count_answers(response@, Status::Kill),
                count_answers(response@, Status::Hit),
                count_answers(response@, Status::Miss),
                bot,
            ),
    {
        let ghost g0 = self.grid();
        let ghost resp = response@;
        let mut kill_count: usize = 0;
        let mut hit_count: usize = 0;
        let mut miss_count: usize = 0;
        let mut r: usize = 0;
        while r < ROWS
            invariant
                self.wf(),
                self.ships@ == old(self).ships@,
                g0 == old(self).grid(),
                resp == response@,
                r <= 10,
                forall|i: int, j: int| 0 <= i < 10 && 0 <= j < 10 ==> #[trigger] self.grid()[i][j]
                    == if i < r { mirrored(g0[i][j], (i as usize, j as usize), resp) } else { g0[i][j] },
                kill_count == coords_upto(r as int).filter(answered(resp, Status::Kill)).len(),
                hit_count == coords_upto(r as int).filter(answered(resp, Status::Hit)).len(),
                miss_count == coords_upto(r as int).filter(answered(resp, Status::Miss)).len(),
                kill_count <= 10 * r,
                hit_count <= 10 * r,
                miss_count <= 10 * r,
            decreases 10 - r,
        {
            let ghost before = coords_upto(r as int);
            proof {
                lemma_coords_upto_len(r as int);
            }
            let mut c: usize = 0;
            while c < COLS
                invariant
                    self.wf(),
                    self.ships@ == old(self).ships@,
                    r < 10,
                    c <= 10,
                    before == coords_upto(r as int),
                    before.len() == 10 * r,
                    resp == response@,
                    forall|i: int, j: int| 0 <= i < 10 && 0 <= j < 10 ==> #[trigger] self.grid()[i][j]
                        == if i < r || (i == r && j < c) { mirrored(g0[i][j], (i as usize, j as usize), resp) } else { g0[i][j] },
                    kill_count == (before + row_coords(r as int).subrange(0, c as int)).filter(answered(resp, Status::Kill)).len(),
                    hit_count == (before + row_coords(r as int).subrange(0, c as int)).filter(answered(resp, Status::Hit)).len(),
                    miss_count == (before + row_coords(r as int).subrange(0, c as int)).filter(answered(resp, Status::Miss)).len(),
                    kill_count <= 10 * r + c,
                    hit_count <= 10 * r + c,
                    miss_count <= 10 * r + c,
                decreases 10 - c,
            {
                let ghost prev = before + row_coords(r as int).subrange(0, c as int);
                assert(before + row_coords(r as int).subrange(0, c as int + 1) == prev.push((r, c)));
                proof {
                    prev.lemma_filter_push((r, c), answered(resp, Status::Kill));
                    prev.lemma_filter_push((r, c), answered(resp, Status::Hit));
                    prev.lemma_filter_push((r, c), answered(resp, Status::Miss));
                }
                assert(self.grid()[r as int] == self.positions@[r as int]@);
                match response.get(&(r, c)) {
                    Some(st) => {
                        let status = *st;
                        assert(resp.contains_key((r, c)) && resp[(r, c)] == status);
                        let old_status = self.positions[r][c].status;
                        if old_status == Status::Space || old_status == Status::Live || status == Status::Kill {
                            let ghost gb = self.grid();
                            self.positions[r][c].status = status;
                            assert(self.grid() =~= set_status(gb, (r, c), status));
                        }
                        match status {
                            Status::Miss => miss_count = miss_count + 1,
                            Status::Hit => hit_count = hit_count + 1,
                            Status::Kill => kill_count = kill_count + 1,
                            _ => {},
                        }
                    },
                    None => {
                        assert(!resp.contains_key((r, c)));
                    },
                }
                c = c + 1;
            }
            assert(row_coords(r as int).subrange(0, 10) == row_coords(r as int));
            assert(coords_upto(r as int + 1) == before + row_coords(r as int));
            r = r + 1;
        }
        let mut msg = if bot {
            String::from_str("Computer have ")
        } else {
            String::from_str("You have ")
        };
        if kill_count > 0 {
            msg.append("sunk a ship.");
        } else {
            let n = decimal_string(hit_count);
            msg.append(n.as_str());
            msg.append(" hit.");
        }
        if miss_count > 0 {
            msg.append(" ");
            msg.append(if bot { "Computer" } else { "You" });
            msg.append(" missed ");
            let n = decimal_string(miss_count);
            msg.append(n.as_str());
            msg.append(".");
        }
        msg
    }
}

/// Ship `s` drawn with its top-left corner at `a` covers cell `(r, c)`.
pub open spec fn occupies(s: Ship, a: Coordinate, r: int, c: int) -> bool {
    &&& a.0 <= r < a.0 + 3
    &&& a.1 <= c < a.1 + 3
    &&& rotated_at(s.ship_type, s.rotation, r - a.0, c - a.1) == Status::Live
}

/// Rows `a.0 .. a.0 + 3` exist and are at least `a.1 + 3` long, or the grid is degenerate
/// (no rows, or an empty first row).
pub open spec fn fits_or_degenerate(g: Seq<Vec<Position>>, a: Coordinate) -> bool {
    g.len() == 0 || g[0]@.len() == 0 || (a.0 + 3 <= g.len() && forall|i: int|
        a.0 <= i < a.0 + 3 ==> a.1 + 3 <= #[trigger] g[i]@.len())
}

impl Ship {
    /// A new, afloat ship of kind `ship_type` with a fresh random identifier and a rotation
    /// drawn from 90, 180, 270 and 360.
    pub fn new(ship_type: ShipType) -> (r: Ship)
        ensures
            r.ship_type == ship_type,
            r.alive,
            is_rotation(r.rotation),
    {
        let rotations: [u16; 4] = [90, 180, 270, 360];
        let rotation = match choose_from(rotations.as_slice()) {
            Some(x) => x,
            None => 0,
        };
        proof {
            let k = choose|k: int| 0 <= k < 4 && rotations@[k] == rotation;
        }
        Ship { id: new_identifier(), rotation, alive: true, ship_type }
    }

    /// The template of this ship turned by its rotation.
    pub fn shape(&self) -> (r: ShipShape)
        ensures
            is_rotation_of(r, self.ship_type, self.rotation),
    {
        self.ship_type.get_shape(self.rotation)
    }

    /// Whether some occupied cell of this ship, drawn at `start_cord`, falls on a `Live` cell.
    /// A degenerate grid never overlaps.
    pub fn is_overlapping(&self, positions: &[Vec<Position>], start_cord: Coordinate) -> (r: bool)
        requires
            fits_or_degenerate(positions@, start_cord),
        ensures
            r == (positions@.len() > 0 && positions@[0]@.len() > 0 && exists|i: int, j: int|
                0 <= i < 3 && 0 <= j < 3 && rotated_at(self.ship_type, self.rotation, i, j) == Status::Live
                    && #[trigger] positions@[start_cord.0 + i]@[start_cord.1 + j].status == Status::Live),
    {
        if positions.len() == 0 || positions[0].len() == 0 {
            return false;
        }
        let shape = self.shape();
        let mut i: usize = 0;
        while i < SHIP_SIZE
            invariant
                fits_or_degenerate(positions@, start_cord),
                positions@.len() > 0 && positions@[0]@.len() > 0,
                is_rotation_of(shape, self.ship_type, self.rotation),
                i <= 3,
                forall|a: int, b: int| 0 <= a < i && 0 <= b < 3 && rotated_at(self.ship_type, self.rotation, a, b) == Status::Live
                    ==> #[trigger] positions@[start_cord.0 + a]@[start_cord.1 + b].status != Status::Live,
            decreases 3 - i,
        {
            let mut j: usize = 0;
            while j < SHIP_SIZE
                invariant
                    fits_or_degenerate(positions@, start_cord),
                    positions@.len() > 0 && positions@[0]@.len() > 0,
                    is_rotation_of(shape, self.ship_type, self.rotation),
                    i < 3,
                    j <= 3,
                    forall|a: int, b: int| 0 <= a < i && 0 <= b < 3 && rotated_at(self.ship_type, self.rotation, a, b) == Status::Live
                        ==> #[trigger] positions@[start_cord.0 + a]@[start_cord.1 + b].status != Status::Live,
                    forall|b: int| 0 <= b < j && rotated_at(self.ship_type, self.rotation, i as int, b) == Status::Live
                        ==> #[trigger] positions@[start_cord.0 + i]@[start_cord.1 + b].status != Status::Live,
                decreases 3 - j,
            {
                assert(at(shape, i as int, j as int) == rotated_at(self.ship_type, self.rotation, i as int, j as int));
                assert(positions@.len() == positions.len());
                assert(positions@[start_cord.0 + i].len() == positions@[start_cord.0 + i]@.len());
                if shape[i][j] == Status::Live && positions[start_cord.0 + i][start_cord.1 + j].status == Status::Live {
                    return true;
                }
                j = j + 1;
            }
            i = i + 1;
        }
        false
    }

    /// Draws this ship with its top-left corner at `start_cord`: each cell it occupies
    /// becomes `Live` and owned by it. Says whether any cell was drawn; a degenerate grid is
    /// left as it is.
    pub fn draw(&self, positions: &mut Vec<Vec<Position>>, start_cord: Coordinate) -> (r: bool)
        requires
            fits_or_degenerate(old(positions)@, start_cord),
        ensures
            final(positions)@.len() == old(positions)@.len(),
            forall|x: int| 0 <= x < old(positions)@.len() ==> #[trigger] final(positions)@[x]@.len() == old(positions)@[x]@.len(),
            forall|x: int, y: int| 0 <= x < old(positions)@.len() && 0 <= y < old(positions)@[x]@.len()
                ==> #[trigger] final(positions)@[x]@[y] == if old(positions)@.len() > 0 && old(positions)@[0]@.len() > 0
                    && occupies(*self, start_cord, x, y) {
                    Position { status: Status::Live, ship_id: Some(self.id), ..old(positions)@[x]@[y] }
                } else {
                    old(positions)@[x]@[y]
                },
            r == (old(positions)@.len() > 0 && old(positions)@[0]@.len() > 0 && exists|i: int, j: int|
                0 <= i < 3 && 0 <= j < 3 && #[trigger] rotated_at(self.ship_type, self.rotation, i, j) == Status::Live),
    {
        if positions.len() == 0 || positions[0].len() == 0 {
            return false;
        }
        let ghost p0 = positions@;
        let shape = self.shape();
        let mut drawn = false;
        let mut i: usize = 0;
        while i < SHIP_SIZE
            invariant
                fits_or_degenerate(p0, start_cord),
                p0.len() > 0 && p0[0]@.len() > 0,
                is_rotation_of(shape, self.ship_type, self.rotation),
                i <= 3,
                positions@.len() == p0.len(),
                forall|x: int| 0 <= x < p0.len() ==> #[trigger] positions@[x]@.len() == p0[x]@.len(),
                forall|x: int, y: int| 0 <= x < p0.len() && 0 <= y < p0[x]@.len()
                    ==> #[trigger] positions@[x]@[y] == if occupies(*self, start_cord, x, y) && x < start_cord.0 + i {
                        Position { status: Status::Live, ship_id: Some(self.id), ..p0[x]@[y] }
                    } else {
                        p0[x]@[y]
                    },
                drawn == exists|a: int, b: int| 0 <= a < i && 0 <= b < 3 && #[trigger] rotated_at(self.ship_type, self.rotation, a, b) == Status::Live,
            decreases 3 - i,
        {
            let mut j: usize = 0;
            while j < SHIP_SIZE
                invariant
                    fits_or_degenerate(p0, start_cord),
                    p0.len() > 0 && p0[0]@.len() > 0,
                    is_rotation_of(shape, self.ship_type, self.rotation),
                    i < 3,
                    j <= 3,
                    positions@.len() == p0.len(),
                    forall|x: int| 0 <= x < p0.len() ==> #[trigger] positions@[x]@.len() == p0[x]@.len(),
                    forall|x: int, y: int| 0 <= x < p0.len() && 0 <= y < p0[x]@.len()
                        ==> #[trigger] positions@[x]@[y] == if occupies(*self, start_cord, x, y)
                            && (x < start_cord.0 + i || (x == start_cord.0 + i && y < start_cord.1 + j)) {
                            Position { status: Status::Live, ship_id: Some(self.id), ..p0[x]@[y] }
                        } else {
                            p0[x]@[y]
                        },
                    drawn == ((exists|a: int, b: int| 0 <= a < i && 0 <= b < 3 && #[trigger] rotated_at(self.ship_type, self.rotation, a, b) == Status::Live)
                        || exists|b: int| 0 <= b < j && #[trigger] rotated_at(self.ship_type, self.rotation, i as int, b) == Status::Live),
                decreases 3 - j,
            {
                assert(at(shape, i as int, j as int) == rotated_at(self.ship_type, self.rotation, i as int, j as int));
                assert(positions@.len() == positions.len());
                assert(positions@[start_cord.0 + i].len() == positions@[start_cord.0 + i]@.len());
                if shape[i][j] == Status::Live {
                    let x = start_cord.0 + i;
                    let y = start_cord.1 + j;
                    let ghost before = positions@;
                    positions[x][y].status = Status::Live;
                    positions[x][y].ship_id = Some(self.id);
                    assert(positions@ =~= before.update(x as int, positions@[x as int]));
                    drawn = true;
                }
                j = j + 1;
            }
            i = i + 1;
        }
        drawn
    }
}

/// How many random placements a ship gets before the board falls back to a fixed layout.
pub const PLACEMENT_ATTEMPTS: usize = 1000;

/// A uniformly random coordinate whose row and column both lie below `10 - threshold`.
pub fn get_random_coordinate(threshold: usize) -> (r: Coordinate)
    requires
        threshold < 10,
    ensures
        r.0 < 10 - threshold,
        r.1 < 10 - threshold,
{
    (random_below(ROWS - threshold), random_below(COLS - threshold))
}

/// Cell `(r, c)` agrees with ships `b.ships` drawn at `anchors`: it is `Live` exactly when
/// some ship owns it, and ship `k` owns it exactly when ship `k` covers it.
pub open spec fn cell_placed(b: Board, anchors: Seq<Coordinate>, r: int, c: int) -> bool {
    let p = b.grid()[r][c];
    &&& (p.status == Status::Live <==> p.ship_id is Some)
    &&& (p.status == Status::Live || p.status == Status::Space)
    &&& forall|k: int| 0 <= k < anchors.len() ==> (p.ship_id == Some(b.ships@[k].id)
        <==> #[trigger] occupies(b.ships@[k], anchors[k], r, c))
    &&& (p.ship_id is Some ==> exists|k: int| 0 <= k < anchors.len() && p.ship_id == Some(#[trigger] b.ships@[k].id))
}

/// The ships of `b` are afloat, have distinct identifiers, and are drawn without overlap,
/// ship `k` with its top-left corner at `anchors[k]`.
pub open spec fn placed(b: Board, anchors: Seq<Coordinate>) -> bool {
    &&& b.wf()
    &&& anchors.len() == b.ships@.len()
    &&& forall|k: int| 0 <= k < anchors.len() ==> (#[trigger] anchors[k]).0 < 7 && anchors[k].1 < 7
    &&& forall|k: int| 0 <= k < anchors.len() ==> (#[trigger] b.ships@[k]).alive
    &&& forall|k1: int, k2: int| 0 <= k1 < anchors.len() && 0 <= k2 < anchors.len() && k1 != k2
        ==> (#[trigger] b.ships@[k1]).id != (#[trigger] b.ships@[k2]).id
    &&& forall|r: int, c: int| 0 <= r < 10 && 0 <= c < 10 ==> #[trigger] cell_placed(b, anchors, r, c)
}

/// A board with its own fleet: one afloat ship each of X, V, H and I, in that order, with
/// distinct identifiers, drawn without overlap at top-left corners inside the board's margin.
pub open spec fn fleet(b: Board) -> bool {
    &&& b.ships@.len() == 4
    &&& b.ships@[0].ship_type == ShipType::X
    &&& b.ships@[1].ship_type == ShipType::V
    &&& b.ships@[2].ship_type == ShipType::H
    &&& b.ships@[3].ship_type == ShipType::I
    &&& exists|anchors: Seq<Coordinate>| placed(b, anchors)
}

impl Board {
    /// Draws `ship` at `anchor` when its identifier is new on this board and it overlaps no
    /// `Live` cell; says whether it did.
    fn try_place(&mut self, ship: Ship, anchor: Coordinate, anchors: Ghost<Seq<Coordinate>>) -> (r: bool)
        requires
            placed(*old(self), anchors@),
            anchor.0 < 7,
            anchor.1 < 7,
            ship.alive,
        ensures
            r ==> placed(*final(self), anchors@.push(anchor)) && final(self).ships@ == old(self).ships@.push(ship),
            !r ==> *final(self) == *old(self),
            r == ((forall|k: int| 0 <= k < old(self).ships@.len() ==> (#[trigger] old(self).ships@[k]).id != ship.id)
                && !(exists|i: int, j: int| 0 <= i < 3 && 0 <= j < 3
                    && rotated_at(ship.ship_type, ship.rotation, i, j) == Status::Live
                    && #[trigger] old(self).grid()[anchor.0 + i][anchor.1 + j].status == Status::Live)),
    {
        let mut i: usize = 0;
        while i < self.ships.len()
            invariant
                i <= self.ships@.len(),
                forall|k: int| 0 <= k < i ==> (#[trigger] self.ships@[k]).id != ship.id,
            decreases self.ships@.len() - i,
        {
            if self.ships[i].id == ship.id {
                return false;
            }
            i = i + 1;
        }
        let ghost g0 = self.grid();
        assert forall|x: int| anchor.0 <= x < anchor.0 + 3 implies anchor.1 + 3 <= #[trigger] self.positions@[x]@.len() by {
            assert(self.grid()[x] == self.positions@[x]@);
        }
        assert(self.positions@[0]@ == g0[0]);
        if ship.is_overlapping(self.positions.as_slice(), anchor) {
            let ghost pv = self.positions@;
            let ghost (wi, wj) = choose|i: int, j: int| 0 <= i < 3 && 0 <= j < 3
                && rotated_at(ship.ship_type, ship.rotation, i, j) == Status::Live
                && #[trigger] pv[anchor.0 + i]@[anchor.1 + j].status == Status::Live;
            assert(g0[anchor.0 + wi] == pv[anchor.0 + wi]@);
            assert(g0[anchor.0 + wi][anchor.1 + wj].status == Status::Live);
            return false;
        }
        assert forall|i: int, j: int| 0 <= i < 3 && 0 <= j < 3
            && rotated_at(ship.ship_type, ship.rotation, i, j) == Status::Live
            implies #[trigger] g0[anchor.0 + i][anchor.1 + j].status != Status::Live by {
            assert(g0[anchor.0 + i] == self.positions@[anchor.0 + i]@);
        }
        let ghost old_board = *self;
        ship.draw(&mut self.positions, anchor);
        self.ships.push(ship);
        let ghost na = anchors@.push(anchor);
        assert forall|r: int| 0 <= r < 10 implies #[trigger] self.grid()[r].len() == 10 by {
            assert(self.grid()[r] == self.positions@[r]@);
            assert(g0[r] == old_board.positions@[r]@);
        }
        assert forall|r: int, c: int| 0 <= r < 10 && 0 <= c < 10 implies #[trigger] self.grid()[r][c].coordinate == (r as usize, c as usize) by {
            assert(self.grid()[r] == self.positions@[r]@);
            assert(g0[r] == old_board.positions@[r]@);
        }
        assert(self.wf());
        assert forall|r: int, c: int| 0 <= r < 10 && 0 <= c < 10 implies #[trigger] cell_placed(*self, na, r, c) by {
            assert(cell_placed(old_board, anchors@, r, c));
            assert(self.grid()[r] == self.positions@[r]@);
            assert(g0[r] == old_board.positions@[r]@);
            let k = anchors@.len() as int;
            assert(self.ships@[k] == ship);
            if occupies(ship, anchor, r, c) {
                assert(g0[anchor.0 + (r - anchor.0)][anchor.1 + (c - anchor.1)].status != Status::Live);
            }
            let p = self.grid()[r][c];
            if p.ship_id is Some {
                if !occupies(ship, anchor, r, c) {
                    let k0 = choose|k0: int| 0 <= k0 < anchors@.len() && g0[r][c].ship_id == Some(#[trigger] old_board.ships@[k0].id);
                    assert(self.ships@[k0] == old_board.ships@[k0]);
                } else {
                    assert(self.ships@[k] == ship);
                }
            }
            assert forall|k1: int| 0 <= k1 < na.len() implies (p.ship_id == Some(self.ships@[k1].id)
                <==> #[trigger] occupies(self.ships@[k1], na[k1], r, c)) by {
                if k1 < k {
                    assert(self.ships@[k1] == old_board.ships@[k1]);
                    assert(na[k1] == anchors@[k1]);
                }
            }
        }
        assert forall|k1: int, k2: int| 0 <= k1 < na.len() && 0 <= k2 < na.len() && k1 != k2
            implies (#[trigger] self.ships@[k1]).id != (#[trigger] self.ships@[k2]).id by {
            let k = anchors@.len() as int;
            if k1 < k && k2 < k {
                assert(self.ships@[k1] == old_board.ships@[k1]);
                assert(self.ships@[k2] == old_board.ships@[k2]);
            } else if k1 < k {
                assert(self.ships@[k1] == old_board.ships@[k1]);
            } else if k2 < k {
                assert(self.ships@[k2] == old_board.ships@[k2]);
            }
        }
        assert forall|k1: int| 0 <= k1 < na.len() implies (#[trigger] self.ships@[k1]).alive by {
            if k1 < anchors@.len() {
                assert(self.ships@[k1] == old_board.ships@[k1]);
            }
        }
        assert forall|k1: int| 0 <= k1 < na.len() implies (#[trigger] na[k1]).0 < 7 && na[k1].1 < 7 by {
            if k1 < anchors@.len() {
                assert(na[k1] == anchors@[k1]);
            }
        }
        true
    }
}

impl Board {
    /// The fleet at fixed corners: X, V, H and I unrotated at (0, 0), (0, 4), (4, 0) and
    /// (4, 4), with identifiers 0 to 3.
    fn fixed_fleet() -> (r: Board)
        ensures
            fleet(r),
    {
        let mut b = Board::empty();
        let ghost mut anchors: Seq<Coordinate> = Seq::empty();
        assert forall|r: int, c: int| 0 <= r < 10 && 0 <= c < 10 implies #[trigger] cell_placed(b, anchors, r, c) by {
            assert(b.grid()[r][c] == Position::new_spec((r as usize, c as usize)));
        }
        let types = ShipType::get_initial_ships();
        let corners: [Coordinate; 4] = [(0, 0), (0, 4), (4, 0), (4, 4)];
        let mut k: usize = 0;
        while k < 4
            invariant
                k <= 4,
                placed(b, anchors),
                b.ships@.len() == k,
                anchors == corners@.subrange(0, k as int),
                corners@ == seq![(0usize, 0usize), (0usize, 4usize), (4usize, 0usize), (4usize, 4usize)],
                types@ == seq![ShipType::X, ShipType::V, ShipType::H, ShipType::I],
                forall|j: int| 0 <= j < k ==> (#[trigger] b.ships@[j]).id == j as u128 && b.ships@[j].ship_type == types@[j],
            decreases 4 - k,
        {
            let ship = Ship { id: k as u128, rotation: 90, alive: true, ship_type: types[k] };
            let a = corners[k];
            assert forall|i: int, j: int| 0 <= i < 3 && 0 <= j < 3
                && rotated_at(ship.ship_type, ship.rotation, i, j) == Status::Live
                implies #[trigger] b.grid()[a.0 + i][a.1 + j].status != Status::Live by {
                let r = a.0 + i;
                let c = a.1 + j;
                assert(cell_placed(b, anchors, r, c));
                let p = b.grid()[r][c];
                if p.status == Status::Live {
                    let k0 = choose|k0: int| 0 <= k0 < anchors.len() && p.ship_id == Some(#[trigger] b.ships@[k0].id);
                    assert(occupies(b.ships@[k0], anchors[k0], r, c));
                    assert(anchors[k0] == corners@[k0]);
                }
            }
            let ok = b.try_place(ship, a, Ghost(anchors));
            assert(ok);
            proof {
                anchors = anchors.push(a);
                assert(anchors == corners@.subrange(0, k as int + 1));
            }
            k = k + 1;
        }
        b
    }

    /// A new board. A board of one's own (`is_self`) gets its fleet: each ship is drawn at a
    /// random top-left corner inside the board's margin, with a fresh random rotation and
    /// identifier after each refused attempt; should a ship find no room within the allowed
    /// attempts, the fixed fleet layout is used instead. A tracking board is empty.
    pub fn new(is_self: bool) -> (r: Board)
        ensures
            r.wf(),
            is_self ==> fleet(r),
            !is_self ==> r.ships@.len() == 0 && forall|i: int, j: int| 0 <= i < 10 && 0 <= j < 10
                ==> #[trigger] r.grid()[i][j] == Position::new_spec((i as usize, j as usize)),
    {
        let mut board = Board::empty();
        if !is_self {
            return board;
        }
        let ghost mut anchors: Seq<Coordinate> = Seq::empty();
        assert forall|r: int, c: int| 0 <= r < 10 && 0 <= c < 10 implies #[trigger] cell_placed(board, anchors, r, c) by {
            assert(board.grid()[r][c] == Position::new_spec((r as usize, c as usize)));
        }
        let types = ShipType::get_initial_ships();
        let mut k: usize = 0;
        while k < 4
            invariant
                is_self,
                k <= 4,
                placed(board, anchors),
                board.ships@.len() == k,
                types@ == seq![ShipType::X, ShipType::V, ShipType::H, ShipType::I],
                forall|j: int| 0 <= j < k ==> (#[trigger] board.ships@[j]).ship_type == types@[j],
            decreases 4 - k,
        {
            let mut attempts: usize = 0;
            let mut done = false;
            while !done && attempts < PLACEMENT_ATTEMPTS
                invariant
                    is_self,
                    k < 4,
                    placed(board, anchors),
                    !done ==> board.ships@.len() == k,
                    done ==> board.ships@.len() == k + 1 && board.ships@[k as int].ship_type == types@[k as int],
                    forall|j: int| 0 <= j < k ==> (#[trigger] board.ships@[j]).ship_type == types@[j],
                    types@ == seq![ShipType::X, ShipType::V, ShipType::H, ShipType::I],
                decreases PLACEMENT_ATTEMPTS - attempts,
            {
                let ship = Ship::new(types[k]);
                let a = get_random_coordinate(SHIP_SIZE);
                let ghost before = board.ships@;
                if board.try_place(ship, a, Ghost(anchors)) {
                    proof {
                        anchors = anchors.push(a);
                        assert(board.ships@[k as int] == ship);
                        assert forall|j: int| 0 <= j < k implies (#[trigger] board.ships@[j]).ship_type == types@[j] by {
                            assert(board.ships@[j] == before[j]);
                        }
                    }
                    done = true;
                }
                attempts = attempts + 1;
            }
            if !done {
                return Board::fixed_fleet();
            }
            k = k + 1;
        }
        board
    }
}

/// The glyphs of a row of cells, left to right.
pub open spec fn row_text(row: Seq<Position>) -> Seq<char>
    decreases row.len(),
{
    if row.len() == 0 {
        Seq::empty()
    } else {
        row_text(row.drop_last()) + status_glyph(row.last().status)
    }
}

/// The given lines joined with newlines.
pub open spec fn joined_lines(lines: Seq<Seq<char>>) -> Seq<char>
    decreases lines.len(),
{
    if lines.len() == 0 {
        Seq::empty()
    } else if lines.len() == 1 {
        lines[0]
    } else {
        joined_lines(lines.drop_last()) + "\n"@ + lines.last()
    }
}

impl Board {
    /// Each row of the board as the glyphs of its cells.
    pub fn as_grid(&self) -> (r: Vec<String>)
        ensures
            r@.len() == self.positions@.len(),
            forall|i: int| 0 <= i < r@.len() ==> (#[trigger] r@[i])@ == row_text(self.positions@[i]@),
    {
        let mut out: Vec<String> = Vec::new();
        let mut i: usize = 0;
        while i < self.positions.len()
            invariant
                i <= self.positions@.len(),
                out@.len() == i,
                forall|k: int| 0 <= k < i ==> (#[trigger] out@[k])@ == row_text(self.positions@[k]@),
            decreases self.positions@.len() - i,
        {
            let row = &self.positions[i];
            let mut line = String::new();
            let mut j: usize = 0;
            while j < row.len()
                invariant
                    j <= row@.len(),
                    line@ == row_text(row@.subrange(0, j as int)),
                decreases row@.len() - j,
            {
                line.append(row[j].status.glyph());
                assert(row@.subrange(0, j as int + 1).drop_last() == row@.subrange(0, j as int));
                j = j + 1;
            }
            assert(row@.subrange(0, row@.len() as int) == row@);
            out.push(line);
            i = i + 1;
        }
        out
    }

    /// The board drawn as text: the rows of `as_grid`, joined with newlines.
    pub fn to_string(&self) -> (r: String)
        ensures
            r@ == joined_lines(self.positions@.map_values(|row: Vec<Position>| row_text(row@))),
    {
        let rows = self.as_grid();
        let ghost lines = self.positions@.map_values(|row: Vec<Position>| row_text(row@));
        let mut out = String::new();
        let mut i: usize = 0;
        while i < rows.len()
            invariant
                rows@.len() == lines.len(),
                lines == self.positions@.map_values(|row: Vec<Position>| row_text(row@)),
                forall|k: int| 0 <= k < rows@.len() ==> (#[trigger] rows@[k])@ == row_text(self.positions@[k]@),
                i <= rows@.len(),
                out@ == joined_lines(lines.subrange(0, i as int)),
            decreases rows@.len() - i,
        {
            assert(lines.subrange(0, i as int + 1).drop_last() == lines.subrange(0, i as int));
            if i > 0 {
                out.append("\n");
            }
            out.append(rows[i].as_str());
            i = i + 1;
        }
        assert(lines.subrange(0, lines.len() as int) == lines);
        out
    }
}

/// Each cell of a well-formed grid lies on the board.
pub proof fn lemma_cells_member(g: Grid, i: int)
    requires
        grid_wf(g),
        0 <= i < cells(g).len(),
    ensures
        in_bounds(cells(g)[i].coordinate),
{
    lemma_cells_upto_member(g, 10, i);
}

proof fn lemma_cells_upto_member(g: Grid, n: int, i: int)
    requires
        grid_wf(g),
        0 <= n <= 10,
        0 <= i < cells_upto(g, n).len(),
    ensures
        in_bounds(cells_upto(g, n)[i].coordinate),
    decreases n,
{
    let a = cells_upto(g, n - 1);
    assert(cells_upto(g, n) == a + g[n - 1]);
    if i < a.len() {
        lemma_cells_upto_member(g, n - 1, i);
    } else {
        assert((a + g[n - 1])[i] == g[n - 1][i - a.len()]);
    }
}

impl Board {
    /// Whether the cell at `k` already holds an answer (anything but `Live` or `Space`).
    pub fn is_resolved(&self, k: Coordinate) -> (r: bool)
        requires
            self.wf(),
            in_bounds(k),
        ensures
            r == (self.grid()[k.0 as int][k.1 as int].status != Status::Live
                && self.grid()[k.0 as int][k.1 as int].status != Status::Space),
    {
        assert(self.grid()[k.0 as int] == self.positions@[k.0 as int]@);
        let s = self.positions[k.0][k.1].status;
        s != Status::Live && s != Status::Space
    }
}

/// How a single shot is answered: at a `Live` cell whose ship (present on the board) has
/// exactly that one `Live` cell left, every cell the ship owns is answered `Kill`; at a
/// `Live` cell whose ship has two or more `Live` cells left, `Hit`; at any other cell, `Miss`.
pub proof fn lemma_shot_answers(v: Volley, shot: Coordinate)
    requires
        grid_wf(v.0),
        in_bounds(shot),
    ensures
        ({
            let p = v.0[shot.0 as int][shot.1 as int];
            let w = shot_result(v, shot);
            &&& (p.status == Status::Live && p.ship_id is Some && ship_cells(v.0, p.ship_id.unwrap(), true).len() == 1
                && has_ship(v.1, p.ship_id.unwrap())) ==> forall|r: int, c: int|
                0 <= r < 10 && 0 <= c < 10 && v.0[r][c].ship_id == p.ship_id
                    ==> #[trigger] w.2.contains_key((r as usize, c as usize)) && w.2[(r as usize, c as usize)] == Status::Kill
            &&& (p.status == Status::Live && p.ship_id is Some && ship_cells(v.0, p.ship_id.unwrap(), true).len() >= 2)
                ==> w.2[shot] == Status::Hit
            &&& p.status != Status::Live ==> w.2[shot] == Status::Miss
        }),
{
    let p = v.0[shot.0 as int][shot.1 as int];
    let w = shot_result(v, shot);
    if p.status == Status::Live && p.ship_id is Some && ship_cells(v.0, p.ship_id.unwrap(), true).len() == 1
        && has_ship(v.1, p.ship_id.unwrap()) {
        let id = p.ship_id.unwrap();
        let cs = ship_cells(v.0, id, false);
        assert forall|r: int, c: int| 0 <= r < 10 && 0 <= c < 10 && v.0[r][c].ship_id == p.ship_id
            implies #[trigger] w.2.contains_key((r as usize, c as usize)) && w.2[(r as usize, c as usize)] == Status::Kill by {
            let q = v.0[r][c];
            lemma_cells_contains(v.0, r, c);
            let k = choose|k: int| 0 <= k < cells(v.0).len() && cells(v.0)[k] == q;
            cells(v.0).lemma_filter_contains(owned_by(id), k);
            assert(cs.contains(q));
            let i = choose|i: int| 0 <= i < cs.len() && cs[i] == q;
            assert(cs[i].coordinate == (r as usize, c as usize));
            assert(kill_map(cs).contains_key((r as usize, c as usize)));
        }
    }
}

/// The board cells owned by ship `id`.
pub open spec fn owned_coords(b: Board, id: u128) -> Set<Coordinate> {
    Set::new(|k: Coordinate| in_bounds(k) && b.grid()[k.0 as int][k.1 as int].ship_id == Some(id))
}

/// The board cells that ship `s` covers when drawn at `a`.
pub open spec fn footprint(s: Ship, a: Coordinate) -> Set<Coordinate> {
    Set::new(|k: Coordinate| in_bounds(k) && occupies(s, a, k.0 as int, k.1 as int))
}

/// The covered cells among the first `n` cells of the three by three window at `a`, taken
/// row by row.
pub open spec fn window_upto(s: Ship, a: Coordinate, n: int) -> Set<Coordinate>
    decreases n,
{
    if n <= 0 {
        Set::empty()
    } else {
        let prev = window_upto(s, a, n - 1);
        let i = (n - 1) / 3;
        let j = (n - 1) % 3;
        if rotated_at(s.ship_type, s.rotation, i, j) == Status::Live {
            prev.insert(((a.0 + i) as usize, (a.1 + j) as usize))
        } else {
            prev
        }
    }
}

/// How many of the first `n` cells of the template window are occupied.
pub open spec fn window_count(s: Ship, n: int) -> nat
    decreases n,
{
    if n <= 0 {
        0
    } else {
        window_count(s, n - 1) + if rotated_at(s.ship_type, s.rotation, (n - 1) / 3, (n - 1) % 3) == Status::Live {
            1nat
        } else {
            0nat
        }
    }
}

/// Cell `m` of the template window at `a`, counted row by row, is occupied and lies at `k`.
pub open spec fn window_hit(s: Ship, a: Coordinate, m: int, k: Coordinate) -> bool {
    rotated_at(s.ship_type, s.rotation, m / 3, m % 3) == Status::Live && k == ((a.0 + m / 3) as usize, (a.1 + m % 3) as usize)
}

proof fn lemma_window(s: Ship, a: Coordinate, n: int)
    requires
        a.0 < 7,
        a.1 < 7,
        0 <= n <= 9,
    ensures
        window_upto(s, a, n).finite(),
        window_upto(s, a, n).len() == window_count(s, n),
        forall|k: Coordinate| #[trigger] window_upto(s, a, n).contains(k) <==> exists|m: int| 0 <= m < n && #[trigger] window_hit(s, a, m, k),
    decreases n,
{
    if n > 0 {
        lemma_window(s, a, n - 1);
        let prev = window_upto(s, a, n - 1);
        let m = n - 1;
        let k = ((a.0 + m / 3) as usize, (a.1 + m % 3) as usize);
        if rotated_at(s.ship_type, s.rotation, m / 3, m % 3) == Status::Live {
            if prev.contains(k) {
                let m2 = choose|m2: int| 0 <= m2 < n - 1 && #[trigger] window_hit(s, a, m2, k);
                assert(m2 / 3 == m / 3 && m2 % 3 == m % 3);
                assert(false);
            }
        }
        assert forall|k2: Coordinate| #[trigger] window_upto(s, a, n).contains(k2) <==> exists|m3: int| 0 <= m3 < n && #[trigger] window_hit(s, a, m3, k2) by {
            if exists|m3: int| 0 <= m3 < n && #[trigger] window_hit(s, a, m3, k2) {
                let m3 = choose|m3: int| 0 <= m3 < n && #[trigger] window_hit(s, a, m3, k2);
                if m3 < n - 1 {
                    assert(prev.contains(k2));
                }
            }
            if window_upto(s, a, n).contains(k2) && !prev.contains(k2) {
                assert(window_hit(s, a, m, k2));
            }
        }
    }
}

/// The cells a ship covers are as many as the occupied cells of its turned template.
pub proof fn lemma_footprint_size(s: Ship, a: Coordinate)
    requires
        a.0 < 7,
        a.1 < 7,
    ensures
        footprint(s, a).finite(),
        footprint(s, a).len() == window_count(s, 9),
        window_count(s, 9) == ship_size(s.ship_type),
{
    lemma_window(s, a, 9);
    let w = window_upto(s, a, 9);
    assert forall|k: Coordinate| #[trigger] footprint(s, a).contains(k) <==> w.contains(k) by {
        if footprint(s, a).contains(k) {
            let m = (k.0 - a.0) * 3 + (k.1 - a.1);
            assert(m / 3 == k.0 - a.0 && m % 3 == k.1 - a.1);
            assert(window_hit(s, a, m, k));
        }
    }
    assert(footprint(s, a) =~= w);
    reveal_with_fuel(window_count, 10);
    assert(window_count(s, 9) == live_count_of(s.ship_type, s.rotation));
    lemma_rotated_size(s.ship_type, s.rotation);
}

/// A board with its own fleet: each of its four ships owns exactly the cells it covers,
/// which number 5 for X and V, 7 for H and 3 for I, and no cell belongs to two ships.
pub proof fn lemma_fleet_cells(b: Board)
    requires
        fleet(b),
    ensures
        forall|k: int| 0 <= k < 4 ==> (#[trigger] owned_coords(b, b.ships@[k].id)).finite()
            && owned_coords(b, b.ships@[k].id).len() == ship_size(b.ships@[k].ship_type),
        forall|k1: int, k2: int| 0 <= k1 < 4 && 0 <= k2 < 4 && k1 != k2 ==> (#[trigger] owned_coords(b, b.ships@[k1].id)).disjoint(
            #[trigger] owned_coords(b, b.ships@[k2].id)),
{
    let anchors = choose|anchors: Seq<Coordinate>| placed(b, anchors);
    assert forall|k: int| 0 <= k < 4 implies (#[trigger] owned_coords(b, b.ships@[k].id)).finite()
        && owned_coords(b, b.ships@[k].id).len() == ship_size(b.ships@[k].ship_type) by {
        let s = b.ships@[k];
        let a = anchors[k];
        assert(a.0 < 7 && a.1 < 7);
        assert forall|x: Coordinate| #[trigger] owned_coords(b, s.id).contains(x) <==> footprint(s, a).contains(x) by {
            if in_bounds(x) {
                assert(cell_placed(b, anchors, x.0 as int, x.1 as int));
            }
        }
        assert(owned_coords(b, s.id) =~= footprint(s, a));
        lemma_footprint_size(s, a);
    }
    assert forall|k1: int, k2: int| 0 <= k1 < 4 && 0 <= k2 < 4 && k1 != k2 implies (#[trigger] owned_coords(b, b.ships@[k1].id)).disjoint(
        #[trigger] owned_coords(b, b.ships@[k2].id)) by {
        assert(b.ships@[k1].id != b.ships@[k2].id);
    }
}

impl Position {
    pub open spec fn new_spec(coordinate: Coordinate) -> Position {
        Position { status: Status::Space, coordinate, ship_id: None }
    }
}

} // verus!
