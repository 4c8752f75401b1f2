//! Partition of the canvas into bands and the draw operations that fill them.

use vstd::prelude::*;

use crate::number::Binary64;
use crate::readings::{ClimateReading, ForecastSummary};

verus! {

/// The drawing surface, with width taken along the axis that is split into bands.
#[derive(Clone, Copy, Debug, PartialEq, Eq, Structural)]
pub struct Canvas {
    pub width: u32,
    pub height: u32,
}

/// A rectangle of `width` by `height` pixels whose top-left corner is `(x, y)`.
#[derive(Clone, Copy, Debug, PartialEq, Eq, Structural)]
pub struct Region {
    pub x: u32,
    pub y: u32,
    pub width: u32,
    pub height: u32,
}

/// The large face for headline values and the small one for details.
#[derive(Clone, Copy, Debug, PartialEq, Eq, Structural)]
pub enum Font {
    Large,
    Small,
}

/// One primitive to draw, in black on white, in the order given.
#[derive(Clone, Debug, PartialEq, Eq)]
pub enum DrawOp {
    /// Text centred both ways in the region.
    Text { region: Region, text: String, font: Font },
    /// A one-pixel outline along the region's border.
    Outline { region: Region },
}

impl Canvas {
    pub open spec fn wf(self) -> bool {
        self.width > 0 && self.height > 0
    }

    /// The canvas of a panel of `native_width` by `native_height` pixels; a
    /// panel turned by a quarter turn swaps the two.
    pub fn oriented(native_width: u32, native_height: u32, rotated: bool) -> (r: Canvas)
        ensures
            rotated ==> r == (Canvas { width: native_height, height: native_width }),
            !rotated ==> r == (Canvas { width: native_width, height: native_height }),
    {
        if rotated {
            Canvas { width: native_height, height: native_width }
        } else {
            Canvas { width: native_width, height: native_height }
        }
    }
}

/// Band `i` (0, 1 or 2) of the canvas: a third of the width each, full
/// height, the remainder of the division going to the last band.
pub open spec fn band(c: Canvas, i: nat) -> Region {
    let third = c.width / 3;
    Region {
        x: (i * third) as u32,
        y: 0,
        width: if i == 2 {
            (c.width - 2 * third) as u32
        } else {
            third
        },
        height: c.height,
    }
}

/// The top half of a region.
pub open spec fn upper_half(r: Region) -> Region {
    Region { x: r.x, y: r.y, width: r.width, height: r.height / 2 }
}

/// The bottom half of a region; it takes the odd row.
pub open spec fn lower_half(r: Region) -> Region {
    Region {
        x: r.x,
        y: (r.y + r.height / 2) as u32,
        width: r.width,
        height: (r.height - r.height / 2) as u32,
    }
}

/// Band `i` of the canvas.
pub fn band_of(c: &Canvas, i: u32) -> (r: Region)
    requires
        i < 3,
    ensures
        r == band(*c, i as nat),
{
    let third = c.width / 3;
    assert(i * third <= 2 * third) by (nonlinear_arith)
        requires
            i < 3,
    ;
    Region {
        x: i * third,
        y: 0,
        width: if i == 2 {
            c.width - 2 * third
        } else {
            third
        },
        height: c.height,
    }
}

pub fn upper_half_of(r: &Region) -> (h: Region)
    ensures
        h == upper_half(*r),
{
    Region { x: r.x, y: r.y, width: r.width, height: r.height / 2 }
}

pub fn lower_half_of(r: &Region) -> (h: Region)
    requires
        r.y + r.height <= u32::MAX,
    ensures
        h == lower_half(*r),
{
    Region { x: r.x, y: r.y + r.height / 2, width: r.width, height: r.height - r.height / 2 }
}

/// The three bands tile the canvas's width in order, without gap or overlap;
/// the first two are a third of the width each and the last one also takes
/// the remainder of the division.
pub proof fn bands_tile_width(c: Canvas)
    requires
        c.wf(),
    ensures
        band(c, 0).x == 0,
        band(c, 0).x + band(c, 0).width == band(c, 1).x,
        band(c, 1).x + band(c, 1).width == band(c, 2).x,
        band(c, 2).x + band(c, 2).width == c.width,
        band(c, 0).width == c.width / 3,
        band(c, 1).width == c.width / 3,
        band(c, 2).width == c.width / 3 + c.width % 3,
        forall|i: nat| i < 3 ==> band(c, i).y == 0 && #[trigger] band(c, i).height == c.height,
{
}

/// The two halves of a region tile it from top to bottom.
pub proof fn halves_tile_region(r: Region)
    requires
        r.y + r.height <= u32::MAX,
    ensures
        upper_half(r).x == r.x && upper_half(r).width == r.width,
        lower_half(r).x == r.x && lower_half(r).width == r.width,
        upper_half(r).y == r.y,
        upper_half(r).y + upper_half(r).height == lower_half(r).y,
        lower_half(r).y + lower_half(r).height == r.y + r.height,
{
}

/// Headline text: the temperature to one decimal and the unit.
pub open spec fn headline_text(temperature: Binary64) -> Seq<char> {
    temperature.fixed_text(1) + "C"@
}

/// Detail text: humidity to one decimal, then pressure to whole hPa.
pub open spec fn details_text(humidity: Binary64, pressure: Binary64) -> Seq<char> {
    humidity.fixed_text(1) + "%\n"@ + pressure.fixed_text(0) + " hPa"@
}

/// Forecast text: high, low, the precipitation figure as stored (a
/// fraction, shown with a percent sign), and the description.
pub open spec fn forecast_text(f: ForecastSummary) -> Seq<char> {
    "High: "@ + f.high.fixed_text(1) + "\n  Low: "@ + f.low.fixed_text(1) + "\n  Pop: "@
        + f.precipitation.fixed_text(1) + "%\n\n"@ + f.description@
}

pub fn format_headline(temperature: &Binary64) -> (r: String)
    requires
        temperature.wf(),
    ensures
        r@ == headline_text(*temperature),
{
    let mut out = temperature.format_fixed(1);
    out.append("C");
    out
}

pub fn format_details(humidity: &Binary64, pressure: &Binary64) -> (r: String)
    requires
        humidity.wf(),
        pressure.wf(),
    ensures
        r@ == details_text(*humidity, *pressure),
{
    let mut out = humidity.format_fixed(1);
    out.append("%\n");
    let p = pressure.format_fixed(0);
    out.append(p.as_str());
    out.append(" hPa");
    out
}

pub fn format_forecast(f: &ForecastSummary) -> (r: String)
    requires
        f.wf(),
    ensures
        r@ == forecast_text(*f),
{
    let mut out = String::from_str("High: ");
    let high = f.high.format_fixed(1);
    out.append(high.as_str());
    out.append("\n  Low: ");
    let low = f.low.format_fixed(1);
    out.append(low.as_str());
    out.append("\n  Pop: ");
    let pop = f.precipitation.format_fixed(1);
    out.append(pop.as_str());
    out.append("%\n\n");
    out.append(f.description.as_str());
    out
}

pub open spec fn is_text(op: DrawOp, region: Region, text: Seq<char>, font: Font) -> bool {
    match op {
        DrawOp::Text { region: r, text: t, font: f } => r == region && t@ == text && f == font,
        _ => false,
    }
}

pub open spec fn is_outline(op: DrawOp, region: Region) -> bool {
    match op {
        DrawOp::Outline { region: r } => r == region,
        _ => false,
    }
}

/// The four operations that show a climate reading in band `b`: headline in
/// the upper half, outlined, then details in the lower half, outlined.
pub open spec fn shows_climate(ops: Seq<DrawOp>, b: Region, reading: ClimateReading) -> bool {
    &&& ops.len() == 4
    &&& is_text(ops[0], upper_half(b), headline_text(reading.temperature), Font::Large)
    &&& is_outline(ops[1], upper_half(b))
    &&& is_text(
        ops[2],
        lower_half(b),
        details_text(reading.humidity, reading.pressure),
        Font::Small,
    )
    &&& is_outline(ops[3], lower_half(b))
}

/// The two operations that show a forecast in band `b`: its text over the
/// whole band, and the band's outline.
pub open spec fn shows_forecast(ops: Seq<DrawOp>, b: Region, f: ForecastSummary) -> bool {
    &&& ops.len() == 2
    &&& is_text(ops[0], b, forecast_text(f), Font::Small)
    &&& is_outline(ops[1], b)
}

fn push_climate(ops: &mut Vec<DrawOp>, b: &Region, reading: &ClimateReading)
    requires
        reading.wf(),
        b.y + b.height <= u32::MAX,
    ensures
        final(ops)@.len() == old(ops)@.len() + 4,
        final(ops)@.subrange(0, old(ops)@.len() as int) == old(ops)@,
        shows_climate(
            final(ops)@.subrange(old(ops)@.len() as int, old(ops)@.len() + 4int),
            *b,
            *reading,
        ),
{
    let upper = upper_half_of(b);
    let lower = lower_half_of(b);
    ops.push(
        DrawOp::Text { region: upper, text: format_headline(&reading.temperature), font: Font::Large },
    );
    ops.push(DrawOp::Outline { region: upper });
    ops.push(
        DrawOp::Text {
            region: lower,
            text: format_details(&reading.humidity, &reading.pressure),
            font: Font::Small,
        },
    );
    ops.push(DrawOp::Outline { region: lower });
    assert(ops@.subrange(0, old(ops)@.len() as int) =~= old(ops)@);
}

/// What `compose` yields for the given inputs.
pub open spec fn frame(
    ops: Seq<DrawOp>,
    c: Canvas,
    indoor: ClimateReading,
    outdoor: Option<ClimateReading>,
    forecast: Option<ForecastSummary>,
) -> bool {
    &&& ops.len() == 4 + (if outdoor is Some {
        4int
    } else {
        0int
    }) + (if forecast is Some {
        2int
    } else {
        0int
    })
    &&& shows_climate(ops.subrange(0, 4), band(c, 0), indoor)
    &&& outdoor matches Some(o) ==> shows_climate(ops.subrange(4, 8), band(c, 1), o)
    &&& forecast matches Some(f) ==> shows_forecast(
        ops.subrange(ops.len() - 2, ops.len() as int),
        band(c, 2),
        f,
    )
}

/// What a draw operation amounts to: whether it is text, its region, its
/// characters and its face (the last two only for text).
pub open spec fn op_view(op: DrawOp) -> (bool, Region, Seq<char>, Option<Font>) {
    match op {
        DrawOp::Text { region, text, font } => (true, region, text@, Some(font)),
        DrawOp::Outline { region } => (false, region, Seq::empty(), None),
    }
}

/// Formatting is a function of the value alone: equal readings give
/// character-for-character equal texts, for every value.
pub proof fn texts_are_reproducible(
    a: ClimateReading,
    b: ClimateReading,
    f: ForecastSummary,
    g: ForecastSummary,
)
    requires
        a == b,
        f.high == g.high,
        f.low == g.low,
        f.precipitation == g.precipitation,
        f.description@ == g.description@,
    ensures
        headline_text(a.temperature) == headline_text(b.temperature),
        details_text(a.humidity, a.pressure) == details_text(b.humidity, b.pressure),
        forecast_text(f) == forecast_text(g),
{
}

/// Two frames composed from the same canvas and readings are the same
/// sequence of operations: same regions, same texts, same faces, same order.
pub proof fn frames_are_reproducible(
    ops1: Seq<DrawOp>,
    ops2: Seq<DrawOp>,
    c: Canvas,
    indoor: ClimateReading,
    outdoor: Option<ClimateReading>,
    forecast: Option<ForecastSummary>,
)
    requires
        frame(ops1, c, indoor, outdoor, forecast),
        frame(ops2, c, indoor, outdoor, forecast),
    ensures
        ops1.len() == ops2.len(),
        forall|i: int| 0 <= i < ops1.len() ==> #[trigger] op_view(ops1[i]) == op_view(ops2[i]),
{
    assert forall|i: int| 0 <= i < ops1.len() implies #[trigger] op_view(ops1[i]) == op_view(
        ops2[i],
    ) by {
        if i < 4 {
            assert(ops1[i] == ops1.subrange(0, 4)[i]);
            assert(ops2[i] == ops2.subrange(0, 4)[i]);
        } else if i < 8 && outdoor is Some {
            assert(ops1[i] == ops1.subrange(4, 8)[i - 4]);
            assert(ops2[i] == ops2.subrange(4, 8)[i - 4]);
        } else {
            let n = ops1.len() as int;
            assert(ops1[i] == ops1.subrange(n - 2, n)[i - (n - 2)]);
            assert(ops2[i] == ops2.subrange(n - 2, n)[i - (n - 2)]);
        }
    }
}

/// The draw operations of one frame. The indoor reading always fills the
/// first band; the outdoor reading, when given, the second; the forecast,
/// when given, the third. A band without a reading gets no operation.
pub fn compose(
    c: &Canvas,
    indoor: &ClimateReading,
    outdoor: Option<&ClimateReading>,
    forecast: Option<&ForecastSummary>,
) -> (r: Vec<DrawOp>)
    requires
        c.wf(),
        indoor.wf(),
        outdoor matches Some(o) ==> o.wf(),
        forecast matches Some(f) ==> f.wf(),
    ensures
        frame(
            r@,
            *c,
            *indoor,
            match outdoor {
                Some(o) => Some(*o),
                None => None,
            },
            match forecast {
                Some(f) => Some(*f),
                None => None,
            },
        ),
{
    let mut ops: Vec<DrawOp> = Vec::new();
    push_climate(&mut ops, &band_of(c, 0), indoor);
    let ghost first = ops@;
    if let Some(o) = outdoor {
        push_climate(&mut ops, &band_of(c, 1), o);
        assert(ops@.subrange(0, 4) =~= first.subrange(0, 4));
    }
    let ghost before = ops@;
    if let Some(f) = forecast {
        let b = band_of(c, 2);
        let text = format_forecast(f);
        ops.push(DrawOp::Text { region: b, text, font: Font::Small });
        ops.push(DrawOp::Outline { region: b });
        assert(ops@.subrange(0, 4) =~= before.subrange(0, 4));
        assert(outdoor is Some ==> ops@.subrange(4, 8) =~= before.subrange(4, 8));
    }
    ops
}

} // verus!
