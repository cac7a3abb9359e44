//! Paths of floor cells, and the connectivity of a generated level.

use vstd::prelude::*;
use crate::dungeon::{floor_at, h_carved, joined, layout_ok, room_in_bounds, v_carved};
use crate::geometry::Rect;
use crate::map::{Tile, in_map, on_h_segment, on_v_segment};

verus! {

/// Two cells side by side, horizontally or vertically.
pub open spec fn adjacent(a: (int, int), b: (int, int)) -> bool {
    ||| (a.0 == b.0 && (a.1 - b.1 == 1 || b.1 - a.1 == 1))
    ||| (a.1 == b.1 && (a.0 - b.0 == 1 || b.0 - a.0 == 1))
}

/// A walk over floor cells of the map, each step to an adjacent cell.
pub open spec fn floor_path(map: Seq<Vec<Tile>>, p: Seq<(int, int)>) -> bool {
    &&& p.len() >= 1
    &&& forall|i: int| 0 <= i < p.len() ==> in_map((#[trigger] p[i]).0, p[i].1) && floor_at(map, p[i].0, p[i].1)
    &&& forall|i: int| 0 <= i < p.len() - 1 ==> adjacent(#[trigger] p[i], p[i + 1])
}

/// Some walk over floor cells leads from `a` to `b`.
pub open spec fn linked(map: Seq<Vec<Tile>>, a: (int, int), b: (int, int)) -> bool {
    exists|p: Seq<(int, int)>| floor_path(map, p) && p[0] == a && p.last() == b
}

proof fn lemma_h_linked(map: Seq<Vec<Tile>>, x1: int, x2: int, y: int)
    requires
        h_carved(map, x1, x2, y),
        in_map(x1, y),
        in_map(x2, y),
    ensures
        linked(map, (x1, y), (x2, y)),
{
    if x1 <= x2 {
        let p = Seq::new((x2 - x1 + 1) as nat, |i: int| (x1 + i, y));
        assert forall|i: int| 0 <= i < p.len() implies in_map((#[trigger] p[i]).0, p[i].1) && floor_at(map, p[i].0, p[i].1) by {
            assert(on_h_segment(x1, x2, y, x1 + i, y));
        }
        assert(floor_path(map, p));
        assert(p[0] == (x1, y) && p.last() == p[x2 - x1] && p.last() == (x2, y));
    } else {
        let p = Seq::new((x1 - x2 + 1) as nat, |i: int| (x1 - i, y));
        assert forall|i: int| 0 <= i < p.len() implies in_map((#[trigger] p[i]).0, p[i].1) && floor_at(map, p[i].0, p[i].1) by {
            assert(on_h_segment(x1, x2, y, x1 - i, y));
        }
        assert(floor_path(map, p));
        assert(p[0] == (x1, y) && p.last() == p[x1 - x2] && p.last() == (x2, y));
    }
}

proof fn lemma_v_linked(map: Seq<Vec<Tile>>, y1: int, y2: int, x: int)
    requires
        v_carved(map, y1, y2, x),
        in_map(x, y1),
        in_map(x, y2),
    ensures
        linked(map, (x, y1), (x, y2)),
{
    if y1 <= y2 {
        let p = Seq::new((y2 - y1 + 1) as nat, |i: int| (x, y1 + i));
        assert forall|i: int| 0 <= i < p.len() implies in_map((#[trigger] p[i]).0, p[i].1) && floor_at(map, p[i].0, p[i].1) by {
            assert(on_v_segment(y1, y2, x, x, y1 + i));
        }
        assert(floor_path(map, p));
        assert(p[0] == (x, y1) && p.last() == p[y2 - y1] && p.last() == (x, y2));
    } else {
        let p = Seq::new((y1 - y2 + 1) as nat, |i: int| (x, y1 - i));
        assert forall|i: int| 0 <= i < p.len() implies in_map((#[trigger] p[i]).0, p[i].1) && floor_at(map, p[i].0, p[i].1) by {
            assert(on_v_segment(y1, y2, x, x, y1 - i));
        }
        assert(floor_path(map, p));
        assert(p[0] == (x, y1) && p.last() == p[y1 - y2] && p.last() == (x, y2));
    }
}

/// Walks chain: from `a` to `b` and from `b` to `c` make one from `a` to `c`.
pub proof fn lemma_linked_trans(map: Seq<Vec<Tile>>, a: (int, int), b: (int, int), c: (int, int))
    requires
        linked(map, a, b),
        linked(map, b, c),
    ensures
        linked(map, a, c),
{
    let p = choose|p: Seq<(int, int)>| floor_path(map, p) && p[0] == a && p.last() == b;
    let q = choose|q: Seq<(int, int)>| floor_path(map, q) && q[0] == b && q.last() == c;
    let r = p + q.skip(1);
    assert forall|i: int| 0 <= i < r.len() implies in_map((#[trigger] r[i]).0, r[i].1) && floor_at(map, r[i].0, r[i].1) by {
        if i < p.len() {
            assert(r[i] == p[i]);
        } else {
            assert(r[i] == q[i - p.len() + 1]);
        }
    }
    assert forall|i: int| 0 <= i < r.len() - 1 implies adjacent(#[trigger] r[i], r[i + 1]) by {
        if i < p.len() - 1 {
            assert(r[i] == p[i] && r[i + 1] == p[i + 1]);
        } else if i == p.len() - 1 {
            assert(r[i] == p[i] && r[i + 1] == q[1]);
            assert(adjacent(q[0], q[1]));
        } else {
            assert(r[i] == q[i - p.len() + 1] && r[i + 1] == q[i - p.len() + 2]);
        }
    }
    assert(floor_path(map, r));
    if q.len() == 1 {
        assert(r =~= p);
    } else {
        assert(r.last() == q.last());
    }
}

/// A walk can be taken backwards.
pub proof fn lemma_linked_sym(map: Seq<Vec<Tile>>, a: (int, int), b: (int, int))
    requires
        linked(map, a, b),
    ensures
        linked(map, b, a),
{
    let p = choose|p: Seq<(int, int)>| floor_path(map, p) && p[0] == a && p.last() == b;
    let r = reversed(p);
    lemma_reversed_path(map, p);
    assert(r[0] == p.last());
    assert(r.last() == p[0]);
}

pub open spec fn reversed(p: Seq<(int, int)>) -> Seq<(int, int)> {
    Seq::new(p.len(), |i: int| p[p.len() - 1 - i])
}

proof fn lemma_reversed_path(map: Seq<Vec<Tile>>, p: Seq<(int, int)>)
    requires
        floor_path(map, p),
    ensures
        floor_path(map, reversed(p)),
{
    let r = reversed(p);
    let n = p.len() as int;
    assert forall|i: int| 0 <= i < r.len() implies in_map((#[trigger] r[i]).0, r[i].1) && floor_at(map, r[i].0, r[i].1) by {
        let k = n - 1 - i;
        assert(r[i] == p[k]);
        assert(in_map(p[k].0, p[k].1) && floor_at(map, p[k].0, p[k].1));
    }
    assert forall|i: int| 0 <= i < r.len() - 1 implies adjacent(#[trigger] r[i], r[i + 1]) by {
        let k = n - 2 - i;
        assert(r[i] == p[k + 1] && r[i + 1] == p[k]);
        assert(adjacent(p[k], p[k + 1]));
    }
}

pub open spec fn center_cell(r: Rect) -> (int, int) {
    r.spec_center()
}

proof fn lemma_joined_linked(map: Seq<Vec<Tile>>, a: Rect, b: Rect)
    requires
        joined(map, a, b),
        room_in_bounds(a),
        room_in_bounds(b),
    ensures
        linked(map, center_cell(a), center_cell(b)),
{
    let (px, py) = a.spec_center();
    let (nx, ny) = b.spec_center();
    if h_carved(map, px, nx, py) && v_carved(map, py, ny, nx) {
        lemma_h_linked(map, px, nx, py);
        lemma_v_linked(map, py, ny, nx);
        lemma_linked_trans(map, (px, py), (nx, py), (nx, ny));
    } else {
        lemma_v_linked(map, py, ny, px);
        lemma_h_linked(map, px, nx, ny);
        lemma_linked_trans(map, (px, py), (px, ny), (nx, ny));
    }
}

proof fn lemma_linked_to_first(map: Seq<Vec<Tile>>, rooms: Seq<Rect>, j: int)
    requires
        layout_ok(map, rooms),
        0 <= j < rooms.len(),
    ensures
        linked(map, center_cell(rooms[0]), center_cell(rooms[j])),
    decreases j,
{
    if j == 0 {
        let c = center_cell(rooms[0]);
        assert(room_in_bounds(rooms[0]));
        let p = seq![c];
        assert(floor_at(map, c.0, c.1)) by {
            assert(crate::map::in_interior(rooms[0], c.0, c.1));
            assert(crate::dungeon::interior_carved(map, rooms[0]));
        }
        assert(floor_path(map, p));
        assert(p[0] == c && p.last() == c);
    } else {
        lemma_linked_to_first(map, rooms, j - 1);
        assert(joined(map, rooms[j - 1], rooms[j]));
        assert(room_in_bounds(rooms[j - 1]) && room_in_bounds(rooms[j]));
        lemma_joined_linked(map, rooms[j - 1], rooms[j]);
        lemma_linked_trans(map, center_cell(rooms[0]), center_cell(rooms[j - 1]), center_cell(rooms[j]));
    }
}

/// Every two rooms the generator accepted are connected: a walk over floor
/// cells leads from the center of one to the center of the other.
pub proof fn lemma_rooms_connected(map: Seq<Vec<Tile>>, rooms: Seq<Rect>, i: int, j: int)
    requires
        layout_ok(map, rooms),
        0 <= i < rooms.len(),
        0 <= j < rooms.len(),
    ensures
        linked(map, center_cell(rooms[i]), center_cell(rooms[j])),
{
    lemma_linked_to_first(map, rooms, i);
    lemma_linked_to_first(map, rooms, j);
    lemma_linked_sym(map, center_cell(rooms[0]), center_cell(rooms[i]));
    lemma_linked_trans(map, center_cell(rooms[i]), center_cell(rooms[0]), center_cell(rooms[j]));
}

} // verus!
