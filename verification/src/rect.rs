//! Rooms as rectangles, and the places in them where things are spawned.

use vstd::prelude::*;

verus! {

/// A rectangle of tiles from `(x1, y1)` to `(x2, y2)`.
#[derive(Clone, Copy, Debug, PartialEq, Eq, Structural)]
pub struct Rect {
    pub x1: i32,
    pub x2: i32,
    pub y1: i32,
    pub y2: i32,
}

/// The middle between two coordinates, rounded towards zero.
pub open spec fn spec_middle(a: int, b: int) -> int {
    if a + b >= 0 {
        (a + b) / 2
    } else {
        -((-(a + b)) / 2)
    }
}

/// The tile index of the place that the rolls `(roll_x, roll_y)` pick in
/// `room`, on a map of the given width, if it is the index of a tile.
pub open spec fn spec_spawn_index(room: Rect, roll_x: int, roll_y: int, width: int) -> Option<int> {
    let x = room.x1 + roll_x;
    let y = room.y1 + roll_y;
    if 0 <= x < width && 0 <= y && y * width + x <= usize::MAX {
        Some(y * width + x)
    } else {
        None
    }
}

impl Rect {
    /// The rectangle of the given width and height whose corner with the
    /// smallest coordinates is `(x, y)`.
    pub fn new(x: i32, y: i32, w: i32, h: i32) -> (r: Rect)
        requires
            i32::MIN <= x + w <= i32::MAX,
            i32::MIN <= y + h <= i32::MAX,
        ensures
            r == (Rect { x1: x, y1: y, x2: (x + w) as i32, y2: (y + h) as i32 }),
    {
        Rect { x1: x, y1: y, x2: x + w, y2: y + h }
    }

    /// Whether the two rectangles overlap, edges included.
    pub fn intersect(&self, other: &Rect) -> (r: bool)
        ensures
            r == (self.x1 <= other.x2 && self.x2 >= other.x1 && self.y1 <= other.y2 && self.y2
                >= other.y1),
    {
        self.x1 <= other.x2 && self.x2 >= other.x1 && self.y1 <= other.y2 && self.y2 >= other.y1
    }

    /// The tile in the middle of the rectangle.
    pub fn center(&self) -> (c: (i32, i32))
        ensures
            c.0 == spec_middle(self.x1 as int, self.x2 as int),
            c.1 == spec_middle(self.y1 as int, self.y2 as int),
    {
        let sx: i64 = self.x1 as i64 + self.x2 as i64;
        let sy: i64 = self.y1 as i64 + self.y2 as i64;
        ((sx / 2) as i32, (sy / 2) as i32)
    }

    /// The tile index of the place that two rolls pick in this room.
    pub fn spawn_index(&self, roll_x: i32, roll_y: i32, width: i32) -> (r: Option<usize>)
        ensures
            match r {
                Some(idx) => spec_spawn_index(*self, roll_x as int, roll_y as int, width as int)
                    == Some(idx as int),
                None => spec_spawn_index(*self, roll_x as int, roll_y as int, width as int) is None,
            },
    {
        let x: i64 = self.x1 as i64 + roll_x as i64;
        let y: i64 = self.y1 as i64 + roll_y as i64;
        if 0 <= x && x < width as i64 && 0 <= y {
            assert(0 <= y * (width as i64) <= 0x1_0000_0000 * 0x8000_0000) by (nonlinear_arith)
                requires
                    0 <= y <= 0x1_0000_0000,
                    0 < width <= 0x7fff_ffff,
            ;
            let idx: i128 = (y as i128) * (width as i128) + x as i128;
            if idx <= usize::MAX as i128 {
                Some(idx as usize)
            } else {
                None
            }
        } else {
            None
        }
    }
}

/// Whether `idx` is one of `points`.
pub fn contains_index(points: &Vec<usize>, idx: usize) -> (r: bool)
    ensures
        r == points@.contains(idx),
{
    let mut k: usize = 0;
    while k < points.len()
        invariant
            k <= points.len(),
            forall|j: int| 0 <= j < k ==> points@[j] != idx,
        decreases points.len() - k,
    {
        if points[k] == idx {
            return true;
        }
        k += 1;
    }
    false
}

/// Notes `idx` as a place to spawn at, unless it is one already, and says
/// whether it was added.
pub fn add_spawn_point(points: &mut Vec<usize>, idx: usize) -> (added: bool)
    ensures
        added == !old(points)@.contains(idx),
        final(points)@ == (if added {
            old(points)@.push(idx)
        } else {
            old(points)@
        }),
{
    if contains_index(points, idx) {
        false
    } else {
        points.push(idx);
        true
    }
}

/// How many monsters a room gets for a roll of the monster count die.
pub open spec fn spec_monster_count(roll: int) -> int {
    roll - 3
}

/// How many items a room gets for a roll of the item count die.
pub open spec fn spec_item_count(roll: int) -> int {
    roll - 1
}

/// How many monsters a room gets for a roll of the monster count die.
pub fn monster_count(roll: i32) -> (n: i32)
    requires
        roll >= 1,
    ensures
        n == spec_monster_count(roll as int),
{
    roll - 3
}

/// How many items a room gets for a roll of the item count die.
pub fn item_count(roll: i32) -> (n: i32)
    requires
        roll >= 1,
    ensures
        n == spec_item_count(roll as int),
{
    roll - 1
}

/// Adding places one by one never notes a place twice.
pub proof fn lemma_spawn_points_stay_distinct(points: Seq<usize>, idx: usize)
    requires
        points.no_duplicates(),
        !points.contains(idx),
    ensures
        points.push(idx).no_duplicates(),
{
    assert forall|i: int, j: int|
        0 <= i < points.push(idx).len() && 0 <= j < points.push(idx).len() && i
            != j implies points.push(idx)[i] != points.push(idx)[j] by {
        if i < points.len() && j < points.len() {
        } else if i < points.len() {
            assert(points.contains(points[i]));
        } else {
            assert(points.contains(points[j]));
        }
    }
}

} // verus!
