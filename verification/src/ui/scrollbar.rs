//! The thumb of a scrollbar.

use vstd::prelude::*;

verus! {

/// The rows that the thumb covers: its share of the track is that of the view in
/// the whole, but at least one row.
pub open spec fn thumb_height(height: nat, total: nat) -> nat {
    let share = height * height / total;
    if share < 1 {
        1
    } else if share > height {
        height
    } else {
        share
    }
}

/// The first row of the thumb: the rows that it leaves free are divided as the
/// rows that are out of view.
pub open spec fn thumb_start(height: nat, total: nat, offset: nat) -> nat {
    ((height - thumb_height(height, total)) * offset) as nat / (total - height) as nat
}

/// The first row of the thumb and its height in a track of `height` rows, for a
/// view of `height` of `total` rows that begins at row `offset`.
pub fn thumb(height: u16, total: usize, offset: usize) -> (bar: (usize, usize))
    requires
        0 < height < total,
        offset <= total - height,
    ensures
        bar.0 == thumb_start(height as nat, total as nat, offset as nat),
        bar.1 == thumb_height(height as nat, total as nat),
        1 <= bar.1 <= height,
        bar.0 + bar.1 <= height,
{
    proof {
        law_thumb_stays_on_track(height as nat, total as nat, offset as nat);
        lemma_square(height as nat);
    }
    let height = height as usize;
    let share: usize = (((height as u64) * (height as u64)) / (total as u64)) as usize;
    let tall: usize = if share < 1 {
        1
    } else if share > height {
        height
    } else {
        share
    };
    let free: usize = height - tall;
    proof {
        lemma_product(free as nat, offset as nat);
    }
    let start: u128 = (free as u128 * offset as u128) / ((total - height) as u128);
    (start as usize, tall)
}

proof fn lemma_square(height: nat)
    requires
        height <= u16::MAX,
    ensures
        height * height <= 0xffff * 0xffff,
{
    assert(height * height <= 0xffff * 0xffff) by (nonlinear_arith)
        requires
            height <= 0xffff,
    ;
}

proof fn lemma_product(free: nat, offset: nat)
    requires
        free <= u16::MAX,
        offset <= usize::MAX,
    ensures
        free * offset <= u128::MAX,
{
    assert(free * offset <= 0xffff * 0xffff_ffff_ffff_ffff) by (nonlinear_arith)
        requires
            free <= 0xffff,
            offset <= 0xffff_ffff_ffff_ffff,
    ;
}

/// The thumb lies within the track.
pub proof fn law_thumb_stays_on_track(height: nat, total: nat, offset: nat)
    requires
        0 < height < total,
        offset <= total - height,
    ensures
        1 <= thumb_height(height, total) <= height,
        thumb_start(height, total, offset) + thumb_height(height, total) <= height,
{
    let tall = thumb_height(height, total);
    let free = (height - tall) as nat;
    let out = (total - height) as nat;
    assert((free * offset) / out <= free) by (nonlinear_arith)
        requires
            out > 0,
            offset <= out,
    ;
}

/// The thumb is at the top just before the first row is scrolled out of view, and
/// at the bottom when the last row is in view.
pub proof fn law_thumb_reaches_both_ends(height: nat, total: nat)
    requires
        0 < height < total,
    ensures
        thumb_start(height, total, 0) == 0,
        thumb_start(height, total, (total - height) as nat) + thumb_height(height, total)
            == height,
{
    let tall = thumb_height(height, total);
    let free = (height - tall) as nat;
    let out = (total - height) as nat;
    assert((free * 0) / out == 0) by (nonlinear_arith)
        requires
            out > 0,
    ;
    assert((free * out) / out == free) by (nonlinear_arith)
        requires
            out > 0,
    ;
}

/// The thumb takes the share of the track that the rows in view are of all rows, as far as
/// that is a row at least; it moves down as the view does.
pub proof fn law_thumb_shows_the_share_in_view(height: nat, total: nat, a: nat, b: nat)
    requires
        0 < height < total,
        a <= b,
    ensures
        height * height >= total ==> thumb_height(height, total) * total <= height * height < (
        thumb_height(height, total) + 1) * total,
        height * height < total ==> thumb_height(height, total) == 1,
        thumb_start(height, total, a) <= thumb_start(height, total, b),
{
    let area = height * height;
    vstd::arithmetic::div_mod::lemma_fundamental_div_mod(area as int, total as int);
    vstd::arithmetic::div_mod::lemma_mod_bound(area as int, total as int);
    let share = area / total;
    assert(total * share == share * total && (share + 1) * total == share * total + total)
        by (nonlinear_arith);
    assert(share <= height) by (nonlinear_arith)
        requires
            share * total <= height * height,
            height < total,
            height > 0,
    ;
    assert(area >= total ==> share >= 1) by (nonlinear_arith)
        requires
            area < (share + 1) * total,
            total > 0,
    ;
    assert(area < total ==> share == 0) by (nonlinear_arith)
        requires
            share * total <= area,
            total > 0,
    ;
    let free = (height - thumb_height(height, total)) as nat;
    assert(free * a <= free * b) by (nonlinear_arith)
        requires
            a <= b,
    ;
    vstd::arithmetic::div_mod::lemma_div_is_ordered(
        (free * a) as int,
        (free * b) as int,
        total - height,
    );
}

} // verus!
