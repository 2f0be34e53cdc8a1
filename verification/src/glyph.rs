//! Block glyphs that fill a terminal cell in steps of one eighth.
use vstd::prelude::*;

verus! {

/// The glyph that fills the lowest `level` eighths of a cell: a blank for 0, then the code
/// points from U+2581 (one eighth) to U+2588 (the full block).
pub open spec fn lower_glyph(level: int) -> char
    recommends
        0 <= level <= 8,
{
    if level == 0 {
        ' '
    } else {
        (0x2580 + level) as char
    }
}

/// The glyph that fills the highest `fill` eighths of a cell. The eighths sit in three
/// Unicode blocks, so the code points follow no formula.
pub open spec fn upper_glyph(fill: int) -> char
    recommends
        0 <= fill <= 8,
{
    if fill == 0 {
        ' '
    } else if fill == 1 {
        '\u{2594}'
    } else if fill == 2 {
        '\u{1fb82}'
    } else if fill == 3 {
        '\u{1fb83}'
    } else if fill == 4 {
        '\u{2580}'
    } else if fill == 5 {
        '\u{1fb84}'
    } else if fill == 6 {
        '\u{1fb85}'
    } else if fill == 7 {
        '\u{1fb86}'
    } else {
        '\u{2588}'
    }
}

/// The glyph for a cell whose lowest `level` eighths are filled.
pub fn block_char(level: usize) -> (ch: char)
    requires
        level <= 8,
    ensures
        ch == lower_glyph(level as int),
{
    match level {
        0 => ' ',
        1 => '\u{2581}',
        2 => '\u{2582}',
        3 => '\u{2583}',
        4 => '\u{2584}',
        5 => '\u{2585}',
        6 => '\u{2586}',
        7 => '\u{2587}',
        _ => '\u{2588}',
    }
}

/// The glyph for a cell whose highest `fill` eighths are filled, counted from the top
/// downwards.
pub fn upper_block(fill: usize) -> (ch: char)
    requires
        fill <= 8,
    ensures
        ch == upper_glyph(fill as int),
{
    match fill {
        0 => ' ',
        1 => '\u{2594}',
        2 => '\u{1fb82}',
        3 => '\u{1fb83}',
        4 => '\u{2580}',
        5 => '\u{1fb84}',
        6 => '\u{1fb85}',
        7 => '\u{1fb86}',
        _ => '\u{2588}',
    }
}

/// Each of the nine levels has a glyph of its own, in both directions: what is shown is
/// exact to one eighth of a cell. Only the blank and the full block serve both directions.
pub proof fn law_glyphs_are_exact(a: int, b: int)
    requires
        0 <= a <= 8,
        0 <= b <= 8,
    ensures
        lower_glyph(a) == lower_glyph(b) <==> a == b,
        upper_glyph(a) == upper_glyph(b) <==> a == b,
        lower_glyph(a) == upper_glyph(b) <==> a == b && (a == 0 || a == 8),
{
    assert(lower_glyph(a) as int == if a == 0 { 0x20 } else { 0x2580 + a });
    assert(lower_glyph(b) as int == if b == 0 { 0x20 } else { 0x2580 + b });
}

/// Whether a glyph fills eighth number `k` of a cell, counted from the bottom upwards, as the
/// Unicode charts draw it: the lower blocks from U+2581 to U+2588, the upper blocks at U+2594,
/// at U+2580 and from U+1FB82 to U+1FB86. No other glyph fills anything.
pub open spec fn fills(ch: char, k: int) -> bool {
    let code = ch as int;
    if 0x2581 <= code <= 0x2588 {
        k < code - 0x2580
    } else if code == 0x2594 {
        7 <= k
    } else if 0x1fb82 <= code <= 0x1fb83 {
        0x1fb88 - code <= k
    } else if code == 0x2580 {
        4 <= k
    } else if 0x1fb84 <= code <= 0x1fb86 {
        0x1fb87 - code <= k
    } else {
        false
    }
}

/// The glyph for a level fills the lowest eighths of a cell, as many as the level says, and no
/// other. Only the blank fills none.
pub proof fn law_block_char_fills_from_below(level: usize, ch: char)
    requires
        level <= 8,
        call_ensures(block_char, (level,), ch),
    ensures
        forall|k: int| 0 <= k < 8 ==> (#[trigger] fills(ch, k) <==> k < level),
        ch == ' ' <==> level == 0,
{
    assert(level > 0 ==> ch as int == 0x2580 + level);
}

/// The glyph for a fill from above fills the highest eighths of a cell, as many as asked for,
/// and no other. Only the blank fills none.
pub proof fn law_upper_block_fills_from_above(fill: usize, ch: char)
    requires
        fill <= 8,
        call_ensures(upper_block, (fill,), ch),
    ensures
        forall|k: int| 0 <= k < 8 ==> (#[trigger] fills(ch, k) <==> 8 - fill <= k),
        ch == ' ' <==> fill == 0,
{
}

} // verus!
