//! Proportional usage bars drawn with eighth-of-a-cell block glyphs.

use vstd::prelude::*;

verus! {

/// The glyph of a whole cell.
pub open spec fn full_glyph() -> char {
    '\u{2588}'
}

/// The glyph that ends a bar whose last cell is `eighths` eighths full,
/// `0 <= eighths <= 8`: zero eighths still shows the narrowest glyph, so
/// that an empty bar stays visible, and eight eighths is a full block.
pub open spec fn partial_glyph(eighths: nat) -> char {
    if eighths <= 1 {
        '\u{258f}'
    } else if eighths == 2 {
        '\u{258e}'
    } else if eighths == 3 {
        '\u{258d}'
    } else if eighths == 4 {
        '\u{258c}'
    } else if eighths == 5 {
        '\u{258b}'
    } else if eighths == 6 {
        '\u{258a}'
    } else if eighths == 7 {
        '\u{2589}'
    } else {
        '\u{2588}'
    }
}

/// The whole cells of a bar for `percentage` percent of `width` cells:
/// `percentage / 100 * width`, rounded down.
pub open spec fn bar_full_cells(percentage: nat, width: nat) -> nat {
    percentage * width / 100
}

/// The rest of the bar beyond its whole cells, in eighths of a cell rounded
/// to the nearest (halves up): `0 ..= 8`.
pub open spec fn bar_eighths(percentage: nat, width: nat) -> nat {
    ((percentage * width) % 100 * 8 + 50) / 100
}

/// The bar for `percentage` percent of `width` cells: its whole cells as
/// full blocks, then the glyph for the rest.
pub open spec fn bar_of(percentage: nat, width: nat) -> Seq<char> {
    Seq::new(bar_full_cells(percentage, width), |i: int| full_glyph()).push(
        partial_glyph(bar_eighths(percentage, width)),
    )
}

/// The glyph that ends a bar whose last cell is `eighths` eighths full.
fn partial_glyph_str(eighths: usize) -> (r: &'static str)
    requires
        eighths <= 8,
    ensures
        r@ == seq![partial_glyph(eighths as nat)],
{
    if eighths <= 1 {
        proof { reveal_strlit("\u{258f}"); }
        "\u{258f}"
    } else if eighths == 2 {
        proof { reveal_strlit("\u{258e}"); }
        "\u{258e}"
    } else if eighths == 3 {
        proof { reveal_strlit("\u{258d}"); }
        "\u{258d}"
    } else if eighths == 4 {
        proof { reveal_strlit("\u{258c}"); }
        "\u{258c}"
    } else if eighths == 5 {
        proof { reveal_strlit("\u{258b}"); }
        "\u{258b}"
    } else if eighths == 6 {
        proof { reveal_strlit("\u{258a}"); }
        "\u{258a}"
    } else if eighths == 7 {
        proof { reveal_strlit("\u{2589}"); }
        "\u{2589}"
    } else {
        proof { reveal_strlit("\u{2588}"); }
        "\u{2588}"
    }
}

/// Draws `percentage` percent of a bar `width` cells wide: the whole cells
/// as full blocks, then one glyph for the rest rounded to the nearest eighth
/// (a rest that rounds to a whole cell ends the bar with a full block).
pub fn get_bar(percentage: usize, width: usize) -> (r: String)
    requires
        percentage * width <= usize::MAX,
    ensures
        r@ == bar_of(percentage as nat, width as nat),
        r@.len() == percentage * width / 100 + 1,
{
    let product: usize = percentage * width;
    let full: usize = product / 100;
    let eighths: usize = (product % 100 * 8 + 50) / 100;
    let mut bar = String::new();
    let mut i: usize = 0;
    while i < full
        invariant
            i <= full,
            bar@ == Seq::new(i as nat, |k: int| full_glyph()),
        decreases full - i,
    {
        proof { reveal_strlit("\u{2588}"); }
        bar.append("\u{2588}");
        i = i + 1;
        assert(bar@ =~= Seq::new(i as nat, |k: int| full_glyph()));
    }
    bar.append(partial_glyph_str(eighths));
    assert(bar@ =~= bar_of(percentage as nat, width as nat));
    bar
}

/// The width of a full bar on a terminal `term_width` columns wide: 70% of
/// it, rounded down.
pub fn bar_width(term_width: usize) -> (r: usize)
    ensures
        r as int == term_width as int * 7 / 10,
{
    let r = term_width / 10 * 7 + term_width % 10 * 7 / 10;
    assert(r as int == term_width as int * 7 / 10) by (nonlinear_arith)
        requires r == term_width / 10 * 7 + term_width % 10 * 7 / 10;
    r
}

/// Whole cells never shrink as the percentage grows.
pub proof fn lemma_bar_full_cells_monotone(p: nat, q: nat, width: nat)
    requires
        p <= q,
    ensures
        bar_full_cells(p, width) <= bar_full_cells(q, width),
{
    assert(p * width <= q * width) by (nonlinear_arith)
        requires p <= q;
    vstd::arithmetic::div_mod::lemma_div_is_ordered((p * width) as int, (q * width) as int, 100);
}

/// A bar's length in glyphs never decreases as the percentage grows, for any
/// fixed width.
pub proof fn lemma_bar_length_monotone(p: nat, q: nat, width: nat)
    requires
        p <= q,
    ensures
        bar_of(p, width).len() <= bar_of(q, width).len(),
{
    lemma_bar_full_cells_monotone(p, q, width);
}

/// An empty bar is one glyph, the narrowest partial block; a full bar is
/// `width` full blocks and that same trailing glyph.
pub proof fn lemma_bar_ends(width: nat)
    ensures
        bar_of(0, width) == seq![partial_glyph(0)],
        bar_of(100, width).len() == width + 1,
        bar_of(100, width).last() == partial_glyph(0),
{
    assert(100 * width / 100 == width && (100 * width) % 100 == 0) by (nonlinear_arith);
    assert(0 * width == 0) by (nonlinear_arith);
    assert(bar_of(0, width) =~= seq![partial_glyph(0)]);
}

} // verus!
