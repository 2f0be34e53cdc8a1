//! Terminal colours and cells.
use vstd::prelude::*;

verus! {

/// A colour of the terminal: its default colour, or a true colour.
#[derive(Clone, Copy, Debug, PartialEq, Eq, Structural)]
pub enum Color {
    Reset,
    Rgb { r: u8, g: u8, b: u8 },
}

/// What one cell of the terminal shows.
#[derive(Clone, Copy, Debug, PartialEq, Eq, Structural)]
pub struct Cell {
    pub ch: char,
    pub fg: Color,
    pub bg: Color,
}

/// An empty cell in the default colours.
pub open spec fn blank_cell() -> Cell {
    Cell { ch: ' ', fg: Color::Reset, bg: Color::Reset }
}

/// An empty cell in the default colours.
pub fn blank() -> (cell: Cell)
    ensures
        cell == blank_cell(),
{
    Cell { ch: ' ', fg: Color::Reset, bg: Color::Reset }
}

/// The red, green and blue weights at a hue of the given whole degrees: `full` for the
/// strongest channel, `partial` for the one in between, and `none` for the third. The wheel
/// has six sectors of 60 degrees, and the last one also takes what lies beyond 360.
pub open spec fn hue_weights<V>(degrees: u32, full: V, partial: V, none: V) -> (V, V, V) {
    let sector = degrees / 60;
    if sector == 0 {
        (full, partial, none)
    } else if sector == 1 {
        (partial, full, none)
    } else if sector == 2 {
        (none, full, partial)
    } else if sector == 3 {
        (none, partial, full)
    } else if sector == 4 {
        (partial, none, full)
    } else {
        (full, none, partial)
    }
}

/// The colour at a hue of the given whole degrees. `channel` turns a weight into a channel
/// value.
pub fn hsv_to_rgb<V: Copy, F: Fn(V) -> u8>(
    degrees: u32,
    full: V,
    partial: V,
    none: V,
    channel: F,
) -> (rgb: (u8, u8, u8))
    requires
        forall|weight: V| #[trigger] call_requires(channel, (weight,)),
    ensures
        call_ensures(channel, (hue_weights(degrees, full, partial, none).0,), rgb.0),
        call_ensures(channel, (hue_weights(degrees, full, partial, none).1,), rgb.1),
        call_ensures(channel, (hue_weights(degrees, full, partial, none).2,), rgb.2),
{
    let (r, g, b) = match degrees / 60 {
        0 => (full, partial, none),
        1 => (partial, full, none),
        2 => (none, full, partial),
        3 => (none, partial, full),
        4 => (partial, none, full),
        _ => (full, none, partial),
    };
    (channel(r), channel(g), channel(b))
}

/// The weight of a colour channel at a hue that lies `offset` degrees behind the primary of the
/// channel on the wheel: `full` within 60 degrees of it, `none` beyond 120 degrees on either
/// side, and `partial` in between.
pub open spec fn weight_behind<V>(offset: int, full: V, partial: V, none: V) -> V {
    if offset < 60 || 300 <= offset {
        full
    } else if 120 <= offset < 240 {
        none
    } else {
        partial
    }
}

/// Every channel has its weight from where the hue lies to the primary of the channel: red at 0
/// degrees, green at 120 and blue at 240. A hue of 360 degrees and more counts as one right below
/// 360.
pub proof fn law_channels_follow_their_primaries<V: Copy, F: Fn(V) -> u8>(
    degrees: u32,
    full: V,
    partial: V,
    none: V,
    channel: F,
    rgb: (u8, u8, u8),
)
    requires
        call_ensures(hsv_to_rgb::<V, F>, (degrees, full, partial, none, channel), rgb),
    ensures
        ({
            let hue = if degrees < 360 {
                degrees as int
            } else {
                359
            };
            &&& call_ensures(channel, (weight_behind(hue, full, partial, none),), rgb.0)
            &&& call_ensures(
                channel,
                (weight_behind((hue - 120) % 360, full, partial, none),),
                rgb.1,
            )
            &&& call_ensures(
                channel,
                (weight_behind((hue - 240) % 360, full, partial, none),),
                rgb.2,
            )
        }),
{
}

/// Turning the hue by a third of the wheel hands every channel on to the next.
pub proof fn law_turned_hue_rotates_the_channels<V: Copy, F: Fn(V) -> u8>(
    degrees: u32,
    turned: u32,
    full: V,
    partial: V,
    none: V,
    channel: F,
    rgb: (u8, u8, u8),
    turned_rgb: (u8, u8, u8),
)
    requires
        call_ensures(hsv_to_rgb::<V, F>, (degrees, full, partial, none, channel), rgb),
        call_ensures(hsv_to_rgb::<V, F>, (turned, full, partial, none, channel), turned_rgb),
        turned == degrees + 120,
        turned < 360,
        forall|weight: V, a: u8, b: u8|
            #[trigger] call_ensures(channel, (weight,), a) && #[trigger] call_ensures(
                channel,
                (weight,),
                b,
            ) ==> a == b,
    ensures
        turned_rgb == (rgb.2, rgb.0, rgb.1),
{
}

/// Mirroring the hue at that of a primary exchanges the two other channels: shown here at red,
/// for every hue inside a sector.
pub proof fn law_mirrored_hue_exchanges_channels<V: Copy, F: Fn(V) -> u8>(
    degrees: u32,
    mirrored: u32,
    full: V,
    partial: V,
    none: V,
    channel: F,
    rgb: (u8, u8, u8),
    mirrored_rgb: (u8, u8, u8),
)
    requires
        call_ensures(hsv_to_rgb::<V, F>, (degrees, full, partial, none, channel), rgb),
        call_ensures(hsv_to_rgb::<V, F>, (mirrored, full, partial, none, channel), mirrored_rgb),
        degrees + mirrored == 360,
        degrees % 60 != 0,
        forall|weight: V, a: u8, b: u8|
            #[trigger] call_ensures(channel, (weight,), a) && #[trigger] call_ensures(
                channel,
                (weight,),
                b,
            ) ==> a == b,
    ensures
        mirrored_rgb == (rgb.0, rgb.2, rgb.1),
{
}

/// A blank cell shows a space in the default colours.
pub proof fn law_blank_is_a_space(cell: Cell)
    requires
        call_ensures(blank, (), cell),
    ensures
        cell.ch == ' ',
        cell.fg is Reset,
        cell.bg is Reset,
{
}

} // verus!
