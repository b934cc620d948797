//! Cell statuses and the three by three ship templates with their rotations.

use vstd::prelude::*;

verus! {

/// Side length of the square footprint that every ship template occupies.
pub const SHIP_SIZE: usize = 3;

/// What a single grid cell shows.
#[derive(PartialEq, Eq, Structural, Debug, Clone, Copy)]
pub enum Status {
    Live,
    Miss,
    Hit,
    Kill,
    Space,
}

impl Status {
    /// The glyph that a cell with this status is drawn with.
    pub fn glyph(&self) -> (r: &'static str)
        ensures
            r@ == status_glyph(*self),
    {
        match *self {
            Status::Live => "🚀",
            Status::Miss => "❌",
            Status::Hit => "💥",
            Status::Kill => "💀",
            Status::Space => " ",
        }
    }
}

pub open spec fn status_glyph(s: Status) -> Seq<char> {
    match s {
        Status::Live => "🚀"@,
        Status::Miss => "❌"@,
        Status::Hit => "💥"@,
        Status::Kill => "💀"@,
        Status::Space => " "@,
    }
}

/// A three by three occupancy pattern; `Live` marks an occupied cell.
pub type ShipShape = [[Status; 3]; 3];

/// Entry `(i, j)` of a shape.
pub open spec fn at(s: ShipShape, i: int, j: int) -> Status {
    s[i][j]
}

/// Reflection across the main diagonal.
pub open spec fn transposed(s: ShipShape, t: ShipShape) -> bool {
    forall|i: int, j: int| 0 <= i < 3 && 0 <= j < 3 ==> #[trigger] at(t, i, j) == at(s, j, i)
}

/// Left-right mirror: each row read backwards.
pub open spec fn cols_reversed(s: ShipShape, t: ShipShape) -> bool {
    forall|i: int, j: int| 0 <= i < 3 && 0 <= j < 3 ==> #[trigger] at(t, i, j) == at(s, i, 2 - j)
}

/// Top-bottom mirror: the rows in reverse order.
pub open spec fn rows_reversed(s: ShipShape, t: ShipShape) -> bool {
    forall|i: int, j: int| 0 <= i < 3 && 0 <= j < 3 ==> #[trigger] at(t, i, j) == at(s, 2 - i, j)
}

/// Swaps row and column indices.
pub fn transpose(inp: ShipShape) -> (out: ShipShape)
    ensures
        transposed(inp, out),
{
    [
        [inp[0][0], inp[1][0], inp[2][0]],
        [inp[0][1], inp[1][1], inp[2][1]],
        [inp[0][2], inp[1][2], inp[2][2]],
    ]
}

/// Reverses the order of the cells within each row.
pub fn reverse_cols_of_rows(inp: ShipShape) -> (out: ShipShape)
    ensures
        cols_reversed(inp, out),
{
    [
        [inp[0][2], inp[0][1], inp[0][0]],
        [inp[1][2], inp[1][1], inp[1][0]],
        [inp[2][2], inp[2][1], inp[2][0]],
    ]
}

/// Reverses the order of the rows.
pub fn reverse_rows_of_cols(inp: ShipShape) -> (out: ShipShape)
    ensures
        rows_reversed(inp, out),
{
    [inp[2], inp[1], inp[0]]
}

/// The four ship kinds, named after the letter each template resembles.
#[derive(PartialEq, Eq, Structural, Debug, Clone, Copy)]
pub enum ShipType {
    X,
    V,
    H,
    I,
}

/// The unrotated template of a ship kind.
pub open spec fn template(t: ShipType) -> ShipShape {
    match t {
        ShipType::X => [
            [Status::Live, Status::Space, Status::Live],
            [Status::Space, Status::Live, Status::Space],
            [Status::Live, Status::Space, Status::Live],
        ],
        ShipType::V => [
            [Status::Live, Status::Space, Status::Live],
            [Status::Live, Status::Space, Status::Live],
            [Status::Space, Status::Live, Status::Space],
        ],
        ShipType::H => [
            [Status::Live, Status::Space, Status::Live],
            [Status::Live, Status::Live, Status::Live],
            [Status::Live, Status::Space, Status::Live],
        ],
        ShipType::I => [
            [Status::Space, Status::Live, Status::Space],
            [Status::Space, Status::Live, Status::Space],
            [Status::Space, Status::Live, Status::Space],
        ],
    }
}

/// Entry `(i, j)` of the template of `t` turned by `rotation`: 180 is the transpose read
/// backwards along each row, 270 is both mirrors, 360 is the transpose with its rows
/// reversed, and every other value leaves the template as it is.
pub open spec fn rotated_at(t: ShipType, rotation: u16, i: int, j: int) -> Status {
    let b = template(t);
    if rotation == 180 {
        at(b, 2 - j, i)
    } else if rotation == 270 {
        at(b, 2 - i, 2 - j)
    } else if rotation == 360 {
        at(b, j, 2 - i)
    } else {
        at(b, i, j)
    }
}

/// `s` is the template of `t` turned by `rotation`.
pub open spec fn is_rotation_of(s: ShipShape, t: ShipType, rotation: u16) -> bool {
    forall|i: int, j: int| 0 <= i < 3 && 0 <= j < 3 ==> #[trigger] at(s, i, j) == rotated_at(t, rotation, i, j)
}

/// The rotation values a ship is created with.
pub open spec fn is_rotation(r: u16) -> bool {
    r == 90 || r == 180 || r == 270 || r == 360
}

/// Number of occupied cells of a ship kind.
pub open spec fn ship_size(t: ShipType) -> nat {
    match t {
        ShipType::X => 5,
        ShipType::V => 5,
        ShipType::H => 7,
        ShipType::I => 3,
    }
}

impl ShipType {
    /// The template of this kind turned by `rotation`.
    pub fn get_shape(&self, rotation: u16) -> (r: ShipShape)
        ensures
            is_rotation_of(r, *self, rotation),
    {
        let shape = match *self {
            ShipType::X => [
                [Status::Live, Status::Space, Status::Live],
                [Status::Space, Status::Live, Status::Space],
                [Status::Live, Status::Space, Status::Live],
            ],
            ShipType::V => [
                [Status::Live, Status::Space, Status::Live],
                [Status::Live, Status::Space, Status::Live],
                [Status::Space, Status::Live, Status::Space],
            ],
            ShipType::H => [
                [Status::Live, Status::Space, Status::Live],
                [Status::Live, Status::Live, Status::Live],
                [Status::Live, Status::Space, Status::Live],
            ],
            ShipType::I => [
                [Status::Space, Status::Live, Status::Space],
                [Status::Space, Status::Live, Status::Space],
                [Status::Space, Status::Live, Status::Space],
            ],
        };
        assert(shape == template(*self));
        if rotation == 180 {
            reverse_cols_of_rows(transpose(shape))
        } else if rotation == 270 {
            reverse_rows_of_cols(reverse_cols_of_rows(shape))
        } else if rotation == 360 {
            reverse_rows_of_cols(transpose(shape))
        } else {
            shape
        }
    }

    /// One ship of each kind, in the order X, V, H, I.
    pub fn get_initial_ships() -> (r: [ShipType; 4])
        ensures
            r[0] == ShipType::X,
            r[1] == ShipType::V,
            r[2] == ShipType::H,
            r[3] == ShipType::I,
    {
        [ShipType::X, ShipType::V, ShipType::H, ShipType::I]
    }
}

/// Each rotation is the composition of transforms that names it: 180 is
/// `reverse_cols_of_rows(transpose(..))`, 270 is `reverse_rows_of_cols(reverse_cols_of_rows(..))`
/// and 360 is `reverse_rows_of_cols(transpose(..))`, all applied to the template.
pub proof fn lemma_rotation_compositions(t: ShipType, a: ShipShape, b: ShipShape, c: ShipShape, d: ShipShape, e: ShipShape)
    requires
        transposed(template(t), a),
        cols_reversed(a, b),
        cols_reversed(template(t), c),
        rows_reversed(c, d),
        rows_reversed(a, e),
    ensures
        is_rotation_of(b, t, 180),
        is_rotation_of(d, t, 270),
        is_rotation_of(e, t, 360),
        is_rotation_of(template(t), t, 90),
{
    assert forall|i: int, j: int| 0 <= i < 3 && 0 <= j < 3 implies at(b, i, j) == rotated_at(t, 180, i, j) by {
        assert(at(b, i, j) == at(a, i, 2 - j));
        assert(at(a, i, 2 - j) == at(template(t), 2 - j, i));
    }
    assert forall|i: int, j: int| 0 <= i < 3 && 0 <= j < 3 implies at(d, i, j) == rotated_at(t, 270, i, j) by {
        assert(at(d, i, j) == at(c, 2 - i, j));
        assert(at(c, 2 - i, j) == at(template(t), 2 - i, 2 - j));
    }
    assert forall|i: int, j: int| 0 <= i < 3 && 0 <= j < 3 implies at(e, i, j) == rotated_at(t, 360, i, j) by {
        assert(at(e, i, j) == at(a, 2 - i, j));
        assert(at(a, 2 - i, j) == at(template(t), j, 2 - i));
    }
}

/// Number of occupied cells of a shape.
pub open spec fn live_count(s: ShipShape) -> nat {
    let one = |i: int, j: int| if at(s, i, j) == Status::Live { 1nat } else { 0nat };
    one(0, 0) + one(0, 1) + one(0, 2) + one(1, 0) + one(1, 1) + one(1, 2) + one(2, 0) + one(2, 1) + one(2, 2)
}

/// Turning a template never changes how many cells it occupies: 5 for X and V, 7 for H and
/// 3 for I.
pub proof fn lemma_rotation_keeps_size(s: ShipShape, t: ShipType, rotation: u16)
    requires
        is_rotation_of(s, t, rotation),
    ensures
        live_count(s) == ship_size(t),
{
    assert(at(s, 0, 0) == rotated_at(t, rotation, 0, 0));
    assert(at(s, 0, 1) == rotated_at(t, rotation, 0, 1));
    assert(at(s, 0, 2) == rotated_at(t, rotation, 0, 2));
    assert(at(s, 1, 0) == rotated_at(t, rotation, 1, 0));
    assert(at(s, 1, 1) == rotated_at(t, rotation, 1, 1));
    assert(at(s, 1, 2) == rotated_at(t, rotation, 1, 2));
    assert(at(s, 2, 0) == rotated_at(t, rotation, 2, 0));
    assert(at(s, 2, 1) == rotated_at(t, rotation, 2, 1));
    assert(at(s, 2, 2) == rotated_at(t, rotation, 2, 2));
}

/// Number of occupied cells of the template of `t` turned by `rotation`.
pub open spec fn live_count_of(t: ShipType, rotation: u16) -> nat {
    let one = |i: int, j: int| if rotated_at(t, rotation, i, j) == Status::Live { 1nat } else { 0nat };
    one(0, 0) + one(0, 1) + one(0, 2) + one(1, 0) + one(1, 1) + one(1, 2) + one(2, 0) + one(2, 1) + one(2, 2)
}

/// Whatever the rotation, the template of `t` occupies `ship_size(t)` cells.
pub proof fn lemma_rotated_size(t: ShipType, rotation: u16)
    ensures
        live_count_of(t, rotation) == ship_size(t),
{
}

} // verus!
