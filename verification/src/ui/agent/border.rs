//! The way round the border of a panel.

use vstd::prelude::*;

use vstd::math::min;

use crate::graphics::Rect;

verus! {

/// How many cells the border of a panel has.
pub open spec fn perimeter(area: Rect) -> nat {
    (2 * area.width + 2 * area.height - 4) as nat
}

/// The column and row of a step along the border, from the upper left corner on:
/// the top from left to right, the right side downwards, the bottom from right to
/// left, the left side upwards.
pub open spec fn step_pos(area: Rect, step: int) -> (int, int) {
    let w = area.width as int;
    let h = area.height as int;
    if step < w {
        (area.x + step, area.y as int)
    } else if step < w + h - 1 {
        (area.x + w - 1, area.y + 1 + (step - w))
    } else if step < 2 * w + h - 2 {
        (area.x + w - 2 - (step - (w + h - 1)), area.y + h - 1)
    } else {
        (area.x as int, area.y + h - 2 - (step - (2 * w + h - 2)))
    }
}

/// The column and row of a step along the border, which is gone round again and
/// again.
pub open spec fn border_pos(area: Rect, step: nat) -> (int, int) {
    step_pos(area, (step % perimeter(area)) as int)
}

/// Returns (col, row) for a step along the border perimeter (clockwise).
/// Segments: top L→R, right T→B, bottom R→L, left B→T.
pub fn border_cell_pos(area: Rect, step: usize) -> (pos: (u16, u16))
    requires
        area.fits(),
        area.width >= 1,
        area.height >= 1,
        area.width + area.height >= 3,
    ensures
        (pos.0 as int, pos.1 as int) == border_pos(area, step as nat),
{
    let w = area.width as usize;
    let h = area.height as usize;
    let all: usize = 2 * w + 2 * h - 4;
    let step: usize = step % all;

    if step < w {
        return (area.x + step as u16, area.y);
    }
    let step: usize = step - w;
    if step < h - 1 {
        return (area.x + (area.width - 1), area.y + 1 + step as u16);
    }
    let step: usize = step - (h - 1);
    if step < w - 1 {
        return (area.x + (area.width - 2 - step as u16), area.y + (area.height - 1));
    }
    let step: usize = step - (w - 1);
    (area.x, area.y + (area.height - 2 - step as u16))
}

/// How many cells the stripe has that runs round the border.
pub open spec fn trail_len(area: Rect) -> nat {
    min(20, perimeter(area) as int / 2) as nat
}

/// The cells of the stripe that runs round the border, from its head at step `head`
/// to its tail.
pub fn border_trail(area: Rect, head: usize) -> (cells: Vec<(u16, u16)>)
    requires
        area.fits(),
        area.width >= 1,
        area.height >= 1,
    ensures
        cells@.len() == trail_len(area),
        forall|i: int|
            0 <= i < cells@.len() ==> {
                let cell = #[trigger] cells@[i];
                (cell.0 as int, cell.1 as int) == border_pos(
                    area,
                    (head + perimeter(area) - i) as nat,
                )
            },
{
    let mut cells: Vec<(u16, u16)> = Vec::new();
    let all: usize = 2 * (area.width as usize) + 2 * (area.height as usize) - 4;
    if all == 0 {
        return cells;
    }
    let len: usize = if all / 2 < 20 {
        all / 2
    } else {
        20
    };
    let start: usize = head % all;
    let mut i: usize = 0;
    while i < len
        invariant
            i <= len,
            len <= all / 2,
            area.fits(),
            area.width >= 1,
            area.height >= 1,
            all == perimeter(area),
            0 < all <= 4 * 0xffff,
            start == head % all,
            cells@.len() == i,
            forall|k: int|
                0 <= k < i ==> {
                    let cell = #[trigger] cells@[k];
                    (cell.0 as int, cell.1 as int) == border_pos(area, (head + all - k) as nat)
                },
        decreases len - i,
    {
        proof {
            lemma_same_step(head as int, all as int, i as int);
        }
        let cell = border_cell_pos(area, start + (all - i));
        cells.push(cell);
        i += 1;
    }
    cells
}

/// Whole rounds do not change where a step leads.
proof fn lemma_same_step(head: int, all: int, i: int)
    requires
        0 <= head,
        0 < all,
        0 <= i <= all,
    ensures
        (head % all + (all - i)) % all == (head + all - i) % all,
{
    vstd::arithmetic::div_mod::lemma_add_mod_noop(head, all - i, all);
    vstd::arithmetic::div_mod::lemma_add_mod_noop(head % all, all - i, all);
    vstd::arithmetic::div_mod::lemma_mod_twice(head, all);
}

/// The step after `step` is one further, or the first again.
proof fn lemma_next_step(step: nat, all: nat)
    requires
        0 < all,
    ensures
        (step + 1) % all == if step % all + 1 == all {
            0
        } else {
            step % all + 1
        },
{
    let s = step % all;
    vstd::arithmetic::div_mod::lemma_add_mod_noop(step as int, 1, all as int);
    vstd::arithmetic::div_mod::lemma_add_mod_noop(s as int, 1, all as int);
    vstd::arithmetic::div_mod::lemma_mod_twice(step as int, all as int);
    if s + 1 == all {
        vstd::arithmetic::div_mod::lemma_mod_self_0(all as int);
    } else {
        vstd::arithmetic::div_mod::lemma_small_mod(s + 1, all);
    }
}

/// The cell is one of the border of a panel.
pub open spec fn on_border(area: Rect, pos: (int, int)) -> bool {
    &&& area.x <= pos.0 < area.x + area.width
    &&& area.y <= pos.1 < area.y + area.height
    &&& pos.0 == area.x || pos.0 == area.x + area.width - 1 || pos.1 == area.y || pos.1 == area.y
        + area.height - 1
}

/// The two cells are side by side or one above the other.
pub open spec fn adjacent(a: (int, int), b: (int, int)) -> bool {
    ||| a.0 == b.0 && (a.1 == b.1 + 1 || b.1 == a.1 + 1)
    ||| a.1 == b.1 && (a.0 == b.0 + 1 || b.0 == a.0 + 1)
}

/// Every step leads to a cell of the border.
pub proof fn law_border_steps_stay_on_border(area: Rect, step: nat)
    requires
        area.width >= 1,
        area.height >= 1,
        area.width + area.height >= 3,
    ensures
        on_border(area, border_pos(area, step)),
{
    assert(0 <= step % perimeter(area) < perimeter(area));
}

/// Each step leads to a cell next to the one before.
pub proof fn law_border_steps_are_adjacent(area: Rect, step: nat)
    requires
        area.width >= 2,
        area.height >= 2,
    ensures
        adjacent(border_pos(area, step), border_pos(area, step + 1)),
{
    lemma_next_step(step, perimeter(area));
    assert(0 <= step % perimeter(area) < perimeter(area));
}

/// One round comes by each cell of the border, and by none of them twice.
pub proof fn law_border_round_visits_each_cell_once(area: Rect)
    requires
        area.width >= 2,
        area.height >= 2,
    ensures
        forall|a: nat, b: nat|
            a < b < perimeter(area) ==> #[trigger] border_pos(area, a) != #[trigger] border_pos(
                area,
                b,
            ),
        forall|pos: (int, int)| #[trigger]
            on_border(area, pos) ==> exists|step: nat|
                step < perimeter(area) && #[trigger] border_pos(area, step) == pos,
{
    let all = perimeter(area);
    assert forall|a: nat, b: nat| a < b < all implies #[trigger] border_pos(area, a)
        != #[trigger] border_pos(area, b) by {
        vstd::arithmetic::div_mod::lemma_small_mod(a, all);
        vstd::arithmetic::div_mod::lemma_small_mod(b, all);
    }
    assert forall|pos: (int, int)| #[trigger] on_border(area, pos) implies exists|step: nat|
        step < all && #[trigger] border_pos(area, step) == pos by {
        let w = area.width as int;
        let h = area.height as int;
        let col = pos.0 - area.x;
        let row = pos.1 - area.y;
        let step = if row == 0 {
            col
        } else if col == w - 1 {
            w + row - 1
        } else if row == h - 1 {
            w + h - 1 + (w - 2 - col)
        } else {
            2 * w + h - 2 + (h - 2 - row)
        };
        vstd::arithmetic::div_mod::lemma_small_mod(step as nat, all);
        assert(border_pos(area, step as nat) == pos);
    }
}

/// The head of the stripe runs round the border one cell at a time, and the stripe
/// follows it.
pub proof fn law_trail_follows_its_head(area: Rect, head: nat, i: nat)
    requires
        area.width >= 2,
        area.height >= 2,
        i + 1 < trail_len(area),
    ensures
        border_pos(area, (head + 1 + perimeter(area) - (i + 1)) as nat) == border_pos(
            area,
            (head + perimeter(area) - i) as nat,
        ),
{
}

/// A round starts at the upper left corner and goes along the top first.
pub proof fn law_border_round_starts_at_the_top(area: Rect, step: nat)
    requires
        area.width >= 2,
        area.height >= 2,
        step < area.width,
    ensures
        border_pos(area, step) == (area.x + step, area.y as int),
        border_pos(area, step + perimeter(area)) == (area.x + step, area.y as int),
{
    let all = perimeter(area);
    assert(step % all == step) by (nonlinear_arith)
        requires
            step < all,
    ;
    assert((step + all) % all == step) by (nonlinear_arith)
        requires
            step < all,
    ;
}

/// The stripe has twenty cells, but takes no more than half of the border.
pub proof fn law_trail_takes_half_of_the_border_at_most(area: Rect)
    requires
        area.width >= 2,
        area.height >= 2,
    ensures
        trail_len(area) <= 20,
        2 * trail_len(area) <= perimeter(area),
        trail_len(area) == 20 || 2 * trail_len(area) + 2 > perimeter(area),
        perimeter(area) == 2 * area.width + 2 * area.height - 4,
{
}

} // verus!
