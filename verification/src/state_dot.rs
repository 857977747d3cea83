//! The dot that marks a running session: eight cells that light up in turn.

use vstd::prelude::*;

verus! {

/// The cells around the centre of a grid of three by three, clockwise from the
/// upper left; each is two wide, on a grid ten wide.
pub open spec fn cells() -> Seq<(u8, u8)> {
    seq![
        (0u8, 0u8),
        (4u8, 0u8),
        (8u8, 0u8),
        (8u8, 4u8),
        (8u8, 8u8),
        (4u8, 8u8),
        (0u8, 8u8),
        (0u8, 4u8),
    ]
}

/// See [`cells`].
pub fn matrix_cells() -> (r: Vec<(u8, u8)>)
    ensures
        r@ == cells(),
{
    let mut v: Vec<(u8, u8)> = Vec::new();
    v.push((0, 0));
    v.push((4, 0));
    v.push((8, 0));
    v.push((8, 4));
    v.push((8, 8));
    v.push((4, 8));
    v.push((0, 8));
    v.push((0, 4));
    assert(v@ =~= cells());
    v
}

/// Neighbours in the order of the cells are neighbours on the grid.
pub proof fn law_cells_go_round(i: int)
    requires
        0 <= i < 8,
    ensures
        ({
            let a = cells()[i];
            let b = cells()[(i + 1) % 8];
            (a.0 == b.0 && (a.1 + 4 == b.1 || b.1 + 4 == a.1)) || (a.1 == b.1 && (a.0 + 4 == b.0
                || b.0 + 4 == a.0))
        }),
{
    if i == 7 {
        assert((i + 1) % 8 == 0);
    } else {
        assert((i + 1) % 8 == i + 1);
    }
}

/// The eight cells lie on the edge of the grid, none twice, and run clockwise
/// from the upper left: first to the right, then down, left and up.
pub proof fn law_cells_run_clockwise(r: Vec<(u8, u8)>, i: int, j: int)
    requires
        call_ensures(matrix_cells, (), r),
        0 <= i < j < 8,
    ensures
        r@.len() == 8,
        r@[i] != r@[j],
        r@[0] == (0u8, 0u8),
        i < 2 ==> r@[i + 1].0 == r@[i].0 + 4 && r@[i].1 == 0,
        2 <= i < 4 ==> r@[i + 1].1 == r@[i].1 + 4 && r@[i].0 == 8,
        4 <= i < 6 ==> r@[i + 1].0 + 4 == r@[i].0 && r@[i].1 == 8,
        6 <= i < 7 ==> r@[i + 1].1 + 4 == r@[i].1 && r@[i].0 == 0,
{
}

} // verus!
