//! Text form of the serialized command stream: every drawing command as
//! a compact JSON array of numbers, scalar bit patterns included.
//!
//! Each printer states the exact character sequence it produces and each
//! parser states that an accepted slice is exactly the printed form of
//! the value it returns.

use vstd::prelude::*;
use vstd::string::StrSliceExecFns;
use vstd::string::StringExecFns;

use crate::archive::{SerializableRenderCommand, SerializableBrush, SerializedFontResourceId, SerializedResourceId};
use crate::json::{dec_i64, dec_u64, emit_i64, emit_u64, expect_lit, parse_i64, parse_u64};
use crate::recording::{ClipCommand, FillCommand, GlyphRunCommand, LayerCommand, RenderCommand, StrokeCommand, BoxShadowCommand};
use crate::types::{Affine, BlendMode, Brush, Cap, Color, ColorSpaceTag, ColorStop, Compose, Extend, Fill, Glyph, Gradient, GradientKind, HueDirection, ImageBrush, ImageQuality, ImageSampler, Join, Mix, PathEl, Point, Stroke, Style};

verus! {

/// The numeric tag of a [`Cap`] value in the text form.
pub open spec fn cap_code(v: Cap) -> u64 {
    match v {
        Cap::Butt => 0,
        Cap::Square => 1,
        Cap::Round => 2,
    }
}

fn emit_cap(out: &mut String, v: Cap)
    ensures
        final(out)@ == old(out)@ + dec_u64(cap_code(v)),
{
    let code: u64 = match v {
            Cap::Butt => 0u64,
            Cap::Square => 1u64,
            Cap::Round => 2u64,
    };
    emit_u64(out, code);
}

fn parse_cap(s: &str, pos: usize) -> (r: Option<(Cap, usize)>)
    ensures
        r matches Some(p) ==> {
            &&& pos < p.1 <= s@.len()
            &&& s@.subrange(pos as int, p.1 as int) == dec_u64(cap_code(p.0))
        },
{
    let (n, np) = match parse_u64(s, pos) {
        Some(x) => x,
        None => {
            return None;
        },
    };
    let v: Option<Cap> = match n {
            0u64 => Some(Cap::Butt),
            1u64 => Some(Cap::Square),
            2u64 => Some(Cap::Round),
        _ => None,
    };
    match v {
        Some(v) => Some((v, np)),
        None => None,
    }
}

/// The numeric tag of a [`Join`] value in the text form.
pub open spec fn join_code(v: Join) -> u64 {
    match v {
        Join::Bevel => 0,
        Join::Miter => 1,
        Join::Round => 2,
    }
}

fn emit_join(out: &mut String, v: Join)
    ensures
        final(out)@ == old(out)@ + dec_u64(join_code(v)),
{
    let code: u64 = match v {
            Join::Bevel => 0u64,
            Join::Miter => 1u64,
            Join::Round => 2u64,
    };
    emit_u64(out, code);
}

fn parse_join(s: &str, pos: usize) -> (r: Option<(Join, usize)>)
    ensures
        r matches Some(p) ==> {
            &&& pos < p.1 <= s@.len()
            &&& s@.subrange(pos as int, p.1 as int) == dec_u64(join_code(p.0))
        },
{
    let (n, np) = match parse_u64(s, pos) {
        Some(x) => x,
        None => {
            return None;
        },
    };
    let v: Option<Join> = match n {
            0u64 => Some(Join::Bevel),
            1u64 => Some(Join::Miter),
            2u64 => Some(Join::Round),
        _ => None,
    };
    match v {
        Some(v) => Some((v, np)),
        None => None,
    }
}

/// The numeric tag of a [`Fill`] value in the text form.
pub open spec fn fill_code(v: Fill) -> u64 {
    match v {
        Fill::NonZero => 0,
        Fill::EvenOdd => 1,
    }
}

fn emit_fill(out: &mut String, v: Fill)
    ensures
        final(out)@ == old(out)@ + dec_u64(fill_code(v)),
{
    let code: u64 = match v {
            Fill::NonZero => 0u64,
            Fill::EvenOdd => 1u64,
    };
    emit_u64(out, code);
}

fn parse_fill(s: &str, pos: usize) -> (r: Option<(Fill, usize)>)
    ensures
        r matches Some(p) ==> {
            &&& pos < p.1 <= s@.len()
            &&& s@.subrange(pos as int, p.1 as int) == dec_u64(fill_code(p.0))
        },
{
    let (n, np) = match parse_u64(s, pos) {
        Some(x) => x,
        None => {
            return None;
        },
    };
    let v: Option<Fill> = match n {
            0u64 => Some(Fill::NonZero),
            1u64 => Some(Fill::EvenOdd),
        _ => None,
    };
    match v {
        Some(v) => Some((v, np)),
        None => None,
    }
}

/// The numeric tag of a [`Mix`] value in the text form.
pub open spec fn mix_code(v: Mix) -> u64 {
    match v {
        Mix::Normal => 0,
        Mix::Multiply => 1,
        Mix::Screen => 2,
        Mix::Overlay => 3,
        Mix::Darken => 4,
        Mix::Lighten => 5,
        Mix::ColorDodge => 6,
        Mix::ColorBurn => 7,
        Mix::HardLight => 8,
        Mix::SoftLight => 9,
        Mix::Difference => 10,
        Mix::Exclusion => 11,
        Mix::Hue => 12,
        Mix::Saturation => 13,
        Mix::Color => 14,
        Mix::Luminosity => 15,
        Mix::Clip => 16,
    }
}

fn emit_mix(out: &mut String, v: Mix)
    ensures
        final(out)@ == old(out)@ + dec_u64(mix_code(v)),
{
    let code: u64 = match v {
            Mix::Normal => 0u64,
            Mix::Multiply => 1u64,
            Mix::Screen => 2u64,
            Mix::Overlay => 3u64,
            Mix::Darken => 4u64,
            Mix::Lighten => 5u64,
            Mix::ColorDodge => 6u64,
            Mix::ColorBurn => 7u64,
            Mix::HardLight => 8u64,
            Mix::SoftLight => 9u64,
            Mix::Difference => 10u64,
            Mix::Exclusion => 11u64,
            Mix::Hue => 12u64,
            Mix::Saturation => 13u64,
            Mix::Color => 14u64,
            Mix::Luminosity => 15u64,
            Mix::Clip => 16u64,
    };
    emit_u64(out, code);
}

fn parse_mix(s: &str, pos: usize) -> (r: Option<(Mix, usize)>)
    ensures
        r matches Some(p) ==> {
            &&& pos < p.1 <= s@.len()
            &&& s@.subrange(pos as int, p.1 as int) == dec_u64(mix_code(p.0))
        },
{
    let (n, np) = match parse_u64(s, pos) {
        Some(x) => x,
        None => {
            return None;
        },
    };
    let v: Option<Mix> = match n {
            0u64 => Some(Mix::Normal),
            1u64 => Some(Mix::Multiply),
            2u64 => Some(Mix::Screen),
            3u64 => Some(Mix::Overlay),
            4u64 => Some(Mix::Darken),
            5u64 => Some(Mix::Lighten),
            6u64 => Some(Mix::ColorDodge),
            7u64 => Some(Mix::ColorBurn),
            8u64 => Some(Mix::HardLight),
            9u64 => Some(Mix::SoftLight),
            10u64 => Some(Mix::Difference),
            11u64 => Some(Mix::Exclusion),
            12u64 => Some(Mix::Hue),
            13u64 => Some(Mix::Saturation),
            14u64 => Some(Mix::Color),
            15u64 => Some(Mix::Luminosity),
            16u64 => Some(Mix::Clip),
        _ => None,
    };
    match v {
        Some(v) => Some((v, np)),
        None => None,
    }
}

/// The numeric tag of a [`Compose`] value in the text form.
pub open spec fn compose_code(v: Compose) -> u64 {
    match v {
        Compose::Clear => 0,
        Compose::Copy => 1,
        Compose::Dest => 2,
        Compose::SrcOver => 3,
        Compose::DestOver => 4,
        Compose::SrcIn => 5,
        Compose::DestIn => 6,
        Compose::SrcOut => 7,
        Compose::DestOut => 8,
        Compose::SrcAtop => 9,
        Compose::DestAtop => 10,
        Compose::Xor => 11,
        Compose::Plus => 12,
        Compose::PlusLighter => 13,
    }
}

fn emit_compose(out: &mut String, v: Compose)
    ensures
        final(out)@ == old(out)@ + dec_u64(compose_code(v)),
{
    let code: u64 = match v {
            Compose::Clear => 0u64,
            Compose::Copy => 1u64,
            Compose::Dest => 2u64,
            Compose::SrcOver => 3u64,
            Compose::DestOver => 4u64,
            Compose::SrcIn => 5u64,
            Compose::DestIn => 6u64,
            Compose::SrcOut => 7u64,
            Compose::DestOut => 8u64,
            Compose::SrcAtop => 9u64,
            Compose::DestAtop => 10u64,
            Compose::Xor => 11u64,
            Compose::Plus => 12u64,
            Compose::PlusLighter => 13u64,
    };
    emit_u64(out, code);
}

fn parse_compose(s: &str, pos: usize) -> (r: Option<(Compose, usize)>)
    ensures
        r matches Some(p) ==> {
            &&& pos < p.1 <= s@.len()
            &&& s@.subrange(pos as int, p.1 as int) == dec_u64(compose_code(p.0))
        },
{
    let (n, np) = match parse_u64(s, pos) {
        Some(x) => x,
        None => {
            return None;
        },
    };
    let v: Option<Compose> = match n {
            0u64 => Some(Compose::Clear),
            1u64 => Some(Compose::Copy),
            2u64 => Some(Compose::Dest),
            3u64 => Some(Compose::SrcOver),
            4u64 => Some(Compose::DestOver),
            5u64 => Some(Compose::SrcIn),
            6u64 => Some(Compose::DestIn),
            7u64 => Some(Compose::SrcOut),
            8u64 => Some(Compose::DestOut),
            9u64 => Some(Compose::SrcAtop),
            10u64 => Some(Compose::DestAtop),
            11u64 => Some(Compose::Xor),
            12u64 => Some(Compose::Plus),
            13u64 => Some(Compose::PlusLighter),
        _ => None,
    };
    match v {
        Some(v) => Some((v, np)),
        None => None,
    }
}

/// The numeric tag of a [`Extend`] value in the text form.
pub open spec fn extend_code(v: Extend) -> u64 {
    match v {
        Extend::Pad => 0,
        Extend::Repeat => 1,
        Extend::Reflect => 2,
    }
}

fn emit_extend(out: &mut String, v: Extend)
    ensures
        final(out)@ == old(out)@ + dec_u64(extend_code(v)),
{
    let code: u64 = match v {
            Extend::Pad => 0u64,
            Extend::Repeat => 1u64,
            Extend::Reflect => 2u64,
    };
    emit_u64(out, code);
}

fn parse_extend(s: &str, pos: usize) -> (r: Option<(Extend, usize)>)
    ensures
        r matches Some(p) ==> {
            &&& pos < p.1 <= s@.len()
            &&& s@.subrange(pos as int, p.1 as int) == dec_u64(extend_code(p.0))
        },
{
    let (n, np) = match parse_u64(s, pos) {
        Some(x) => x,
        None => {
            return None;
        },
    };
    let v: Option<Extend> = match n {
            0u64 => Some(Extend::Pad),
            1u64 => Some(Extend::Repeat),
            2u64 => Some(Extend::Reflect),
        _ => None,
    };
    match v {
        Some(v) => Some((v, np)),
        None => None,
    }
}

/// The numeric tag of a [`ColorSpaceTag`] value in the text form.
pub open spec fn color_space_tag_code(v: ColorSpaceTag) -> u64 {
    match v {
        ColorSpaceTag::Srgb => 0,
        ColorSpaceTag::LinearSrgb => 1,
        ColorSpaceTag::Lab => 2,
        ColorSpaceTag::Lch => 3,
        ColorSpaceTag::Oklab => 4,
        ColorSpaceTag::Oklch => 5,
        ColorSpaceTag::Hsl => 6,
        ColorSpaceTag::Hwb => 7,
        ColorSpaceTag::DisplayP3 => 8,
        ColorSpaceTag::XyzD65 => 9,
    }
}

fn emit_color_space_tag(out: &mut String, v: ColorSpaceTag)
    ensures
        final(out)@ == old(out)@ + dec_u64(color_space_tag_code(v)),
{
    let code: u64 = match v {
            ColorSpaceTag::Srgb => 0u64,
            ColorSpaceTag::LinearSrgb => 1u64,
            ColorSpaceTag::Lab => 2u64,
            ColorSpaceTag::Lch => 3u64,
            ColorSpaceTag::Oklab => 4u64,
            ColorSpaceTag::Oklch => 5u64,
            ColorSpaceTag::Hsl => 6u64,
            ColorSpaceTag::Hwb => 7u64,
            ColorSpaceTag::DisplayP3 => 8u64,
            ColorSpaceTag::XyzD65 => 9u64,
    };
    emit_u64(out, code);
}

fn parse_color_space_tag(s: &str, pos: usize) -> (r: Option<(ColorSpaceTag, usize)>)
    ensures
        r matches Some(p) ==> {
            &&& pos < p.1 <= s@.len()
            &&& s@.subrange(pos as int, p.1 as int) == dec_u64(color_space_tag_code(p.0))
        },
{
    let (n, np) = match parse_u64(s, pos) {
        Some(x) => x,
        None => {
            return None;
        },
    };
    let v: Option<ColorSpaceTag> = match n {
            0u64 => Some(ColorSpaceTag::Srgb),
            1u64 => Some(ColorSpaceTag::LinearSrgb),
            2u64 => Some(ColorSpaceTag::Lab),
            3u64 => Some(ColorSpaceTag::Lch),
            4u64 => Some(ColorSpaceTag::Oklab),
            5u64 => Some(ColorSpaceTag::Oklch),
            6u64 => Some(ColorSpaceTag::Hsl),
            7u64 => Some(ColorSpaceTag::Hwb),
            8u64 => Some(ColorSpaceTag::DisplayP3),
            9u64 => Some(ColorSpaceTag::XyzD65),
        _ => None,
    };
    match v {
        Some(v) => Some((v, np)),
        None => None,
    }
}

/// The numeric tag of a [`HueDirection`] value in the text form.
pub open spec fn hue_direction_code(v: HueDirection) -> u64 {
    match v {
        HueDirection::Shorter => 0,
        HueDirection::Longer => 1,
    }
}

fn emit_hue_direction(out: &mut String, v: HueDirection)
    ensures
        final(out)@ == old(out)@ + dec_u64(hue_direction_code(v)),
{
    let code: u64 = match v {
            HueDirection::Shorter => 0u64,
            HueDirection::Longer => 1u64,
    };
    emit_u64(out, code);
}

fn parse_hue_direction(s: &str, pos: usize) -> (r: Option<(HueDirection, usize)>)
    ensures
        r matches Some(p) ==> {
            &&& pos < p.1 <= s@.len()
            &&& s@.subrange(pos as int, p.1 as int) == dec_u64(hue_direction_code(p.0))
        },
{
    let (n, np) = match parse_u64(s, pos) {
        Some(x) => x,
        None => {
            return None;
        },
    };
    let v: Option<HueDirection> = match n {
            0u64 => Some(HueDirection::Shorter),
            1u64 => Some(HueDirection::Longer),
        _ => None,
    };
    match v {
        Some(v) => Some((v, np)),
        None => None,
    }
}

/// The numeric tag of a [`ImageQuality`] value in the text form.
pub open spec fn image_quality_code(v: ImageQuality) -> u64 {
    match v {
        ImageQuality::Low => 0,
        ImageQuality::Medium => 1,
        ImageQuality::High => 2,
    }
}

fn emit_image_quality(out: &mut String, v: ImageQuality)
    ensures
        final(out)@ == old(out)@ + dec_u64(image_quality_code(v)),
{
    let code: u64 = match v {
            ImageQuality::Low => 0u64,
            ImageQuality::Medium => 1u64,
            ImageQuality::High => 2u64,
    };
    emit_u64(out, code);
}

fn parse_image_quality(s: &str, pos: usize) -> (r: Option<(ImageQuality, usize)>)
    ensures
        r matches Some(p) ==> {
            &&& pos < p.1 <= s@.len()
            &&& s@.subrange(pos as int, p.1 as int) == dec_u64(image_quality_code(p.0))
        },
{
    let (n, np) = match parse_u64(s, pos) {
        Some(x) => x,
        None => {
            return None;
        },
    };
    let v: Option<ImageQuality> = match n {
            0u64 => Some(ImageQuality::Low),
            1u64 => Some(ImageQuality::Medium),
            2u64 => Some(ImageQuality::High),
        _ => None,
    };
    match v {
        Some(v) => Some((v, np)),
        None => None,
    }
}

/// The text of a boolean: zero or one.
pub open spec fn j_bool(b: bool) -> Seq<char> {
    dec_u64(if b { 1u64 } else { 0u64 })
}

fn emit_bool(out: &mut String, b: bool)
    ensures
        final(out)@ == old(out)@ + j_bool(b),
{
    emit_u64(out, if b { 1 } else { 0 });
}

fn parse_bool(s: &str, pos: usize) -> (r: Option<(bool, usize)>)
    ensures
        r matches Some(p) ==> {
            &&& pos < p.1 <= s@.len()
            &&& s@.subrange(pos as int, p.1 as int) == j_bool(p.0)
        },
{
    let (n, np) = match parse_u64(s, pos) {
        Some(x) => x,
        None => {
            return None;
        },
    };
    if n == 0 {
        Some((false, np))
    } else if n == 1 {
        Some((true, np))
    } else {
        None
    }
}

/// The text of a point: both coordinate bit patterns.
pub open spec fn j_point(p: Point) -> Seq<char> {
    dec_u64(p.x) + ","@ + dec_u64(p.y)
}

fn emit_point(out: &mut String, p: Point)
    ensures
        final(out)@ == old(out)@ + j_point(p),
{
    emit_u64(out, p.x);
    out.append(",");
    emit_u64(out, p.y);
    proof {
        assert(out@ =~= old(out)@ + j_point(p));
    }
}

fn parse_point(s: &str, pos: usize) -> (r: Option<(Point, usize)>)
    ensures
        r matches Some(p) ==> {
            &&& pos < p.1 <= s@.len()
            &&& s@.subrange(pos as int, p.1 as int) == j_point(p.0)
        },
{
    let (x, p1) = match parse_u64(s, pos) {
        Some(v) => v,
        None => {
            return None;
        },
    };
    let p2 = match expect_lit(s, p1, ",") {
        Some(v) => v,
        None => {
            return None;
        },
    };
    let (y, p3) = match parse_u64(s, p2) {
        Some(v) => v,
        None => {
            return None;
        },
    };
    proof {
        assert(s@.subrange(pos as int, p3 as int) =~= s@.subrange(pos as int, p1 as int)
            + s@.subrange(p1 as int, p2 as int) + s@.subrange(p2 as int, p3 as int));
    }
    Some((Point { x, y }, p3))
}

/// The text of an affine transform: six coefficient bit patterns.
pub open spec fn j_affine(t: Affine) -> Seq<char> {
    "["@ + dec_u64(t.c0) + ","@ + dec_u64(t.c1) + ","@ + dec_u64(t.c2) + ","@ + dec_u64(t.c3)
        + ","@ + dec_u64(t.c4) + ","@ + dec_u64(t.c5) + "]"@
}

fn emit_affine(out: &mut String, t: Affine)
    ensures
        final(out)@ == old(out)@ + j_affine(t),
{
    out.append("[");
    emit_u64(out, t.c0);
    out.append(",");
    emit_u64(out, t.c1);
    out.append(",");
    emit_u64(out, t.c2);
    out.append(",");
    emit_u64(out, t.c3);
    out.append(",");
    emit_u64(out, t.c4);
    out.append(",");
    emit_u64(out, t.c5);
    out.append("]");
    proof {
        assert(out@ =~= old(out)@ + j_affine(t));
    }
}

fn parse_affine(s: &str, pos: usize) -> (r: Option<(Affine, usize)>)
    ensures
        r matches Some(p) ==> {
            &&& pos < p.1 <= s@.len()
            &&& s@.subrange(pos as int, p.1 as int) == j_affine(p.0)
        },
{
    let p0 = match expect_lit(s, pos, "[") {
        Some(v) => v,
        None => {
            return None;
        },
    };
    let (c0, q0) = match parse_u64(s, p0) {
        Some(v) => v,
        None => {
            return None;
        },
    };
    let p1 = match expect_lit(s, q0, ",") {
        Some(v) => v,
        None => {
            return None;
        },
    };
    let (c1, q1) = match parse_u64(s, p1) {
        Some(v) => v,
        None => {
            return None;
        },
    };
    let p2 = match expect_lit(s, q1, ",") {
        Some(v) => v,
        None => {
            return None;
        },
    };
    let (c2, q2) = match parse_u64(s, p2) {
        Some(v) => v,
        None => {
            return None;
        },
    };
    let p3 = match expect_lit(s, q2, ",") {
        Some(v) => v,
        None => {
            return None;
        },
    };
    let (c3, q3) = match parse_u64(s, p3) {
        Some(v) => v,
        None => {
            return None;
        },
    };
    let p4 = match expect_lit(s, q3, ",") {
        Some(v) => v,
        None => {
            return None;
        },
    };
    let (c4, q4) = match parse_u64(s, p4) {
        Some(v) => v,
        None => {
            return None;
        },
    };
    let p5 = match expect_lit(s, q4, ",") {
        Some(v) => v,
        None => {
            return None;
        },
    };
    let (c5, q5) = match parse_u64(s, p5) {
        Some(v) => v,
        None => {
            return None;
        },
    };
    let p6 = match expect_lit(s, q5, "]") {
        Some(v) => v,
        None => {
            return None;
        },
    };
    let t = Affine { c0, c1, c2, c3, c4, c5 };
    proof {
        assert(s@.subrange(pos as int, p6 as int) =~= s@.subrange(pos as int, p0 as int)
            + s@.subrange(p0 as int, q0 as int) + s@.subrange(q0 as int, p1 as int)
            + s@.subrange(p1 as int, q1 as int) + s@.subrange(q1 as int, p2 as int)
            + s@.subrange(p2 as int, q2 as int) + s@.subrange(q2 as int, p3 as int)
            + s@.subrange(p3 as int, q3 as int) + s@.subrange(q3 as int, p4 as int)
            + s@.subrange(p4 as int, q4 as int) + s@.subrange(q4 as int, p5 as int)
            + s@.subrange(p5 as int, q5 as int) + s@.subrange(q5 as int, p6 as int));
    }
    Some((t, p6))
}

/// The text of an optional transform: `null` or the transform.
pub open spec fn j_opt_affine(o: Option<Affine>) -> Seq<char> {
    match o {
        Option::Some(t) => j_affine(t),
        Option::None => "null"@,
    }
}

fn emit_opt_affine(out: &mut String, o: &Option<Affine>)
    ensures
        final(out)@ == old(out)@ + j_opt_affine(*o),
{
    match o {
        Option::Some(t) => emit_affine(out, *t),
        Option::None => out.append("null"),
    }
}

fn parse_opt_affine(s: &str, pos: usize) -> (r: Option<(Option<Affine>, usize)>)
    ensures
        r matches Some(p) ==> {
            &&& pos < p.1 <= s@.len()
            &&& s@.subrange(pos as int, p.1 as int) == j_opt_affine(p.0)
        },
{
    let total = s.unicode_len();
    if pos < total && s.get_char(pos) == 'n' {
        proof {
            reveal_strlit("null");
        }
        match expect_lit(s, pos, "null") {
            Some(np) => Some((None, np)),
            None => None,
        }
    } else {
        match parse_affine(s, pos) {
            Some((t, np)) => Some((Some(t), np)),
            None => None,
        }
    }
}

/// The text of a color: four channel bit patterns.
pub open spec fn j_color(c: Color) -> Seq<char> {
    dec_u64(c.r as u64) + ","@ + dec_u64(c.g as u64) + ","@ + dec_u64(c.b as u64) + ","@
        + dec_u64(c.a as u64)
}

fn emit_color(out: &mut String, c: Color)
    ensures
        final(out)@ == old(out)@ + j_color(c),
{
    emit_u64(out, c.r as u64);
    out.append(",");
    emit_u64(out, c.g as u64);
    out.append(",");
    emit_u64(out, c.b as u64);
    out.append(",");
    emit_u64(out, c.a as u64);
    proof {
        assert(out@ =~= old(out)@ + j_color(c));
    }
}

fn parse_u32(s: &str, pos: usize) -> (r: Option<(u32, usize)>)
    ensures
        r matches Some(p) ==> {
            &&& pos < p.1 <= s@.len()
            &&& s@.subrange(pos as int, p.1 as int) == dec_u64(p.0 as u64)
        },
{
    let (n, np) = match parse_u64(s, pos) {
        Some(v) => v,
        None => {
            return None;
        },
    };
    if n > 0xFFFF_FFFFu64 {
        return None;
    }
    Some((n as u32, np))
}

fn parse_color(s: &str, pos: usize) -> (r: Option<(Color, usize)>)
    ensures
        r matches Some(p) ==> {
            &&& pos < p.1 <= s@.len()
            &&& s@.subrange(pos as int, p.1 as int) == j_color(p.0)
        },
{
    let (cr, q0) = match parse_u32(s, pos) {
        Some(v) => v,
        None => {
            return None;
        },
    };
    let p1 = match expect_lit(s, q0, ",") {
        Some(v) => v,
        None => {
            return None;
        },
    };
    let (cg, q1) = match parse_u32(s, p1) {
        Some(v) => v,
        None => {
            return None;
        },
    };
    let p2 = match expect_lit(s, q1, ",") {
        Some(v) => v,
        None => {
            return None;
        },
    };
    let (cb, q2) = match parse_u32(s, p2) {
        Some(v) => v,
        None => {
            return None;
        },
    };
    let p3 = match expect_lit(s, q2, ",") {
        Some(v) => v,
        None => {
            return None;
        },
    };
    let (ca, q3) = match parse_u32(s, p3) {
        Some(v) => v,
        None => {
            return None;
        },
    };
    let c = Color { r: cr, g: cg, b: cb, a: ca };
    proof {
        assert(s@.subrange(pos as int, q3 as int) =~= s@.subrange(pos as int, q0 as int)
            + s@.subrange(q0 as int, p1 as int) + s@.subrange(p1 as int, q1 as int)
            + s@.subrange(q1 as int, p2 as int) + s@.subrange(p2 as int, q2 as int)
            + s@.subrange(q2 as int, p3 as int) + s@.subrange(p3 as int, q3 as int));
    }
    Some((c, q3))
}

/// The text of one path element, tagged by its kind.
pub open spec fn j_pathel(e: PathEl) -> Seq<char> {
    match e {
        PathEl::MoveTo(p) => "[0,"@ + j_point(p) + "]"@,
        PathEl::LineTo(p) => "[1,"@ + j_point(p) + "]"@,
        PathEl::QuadTo(a, b) => "[2,"@ + j_point(a) + ","@ + j_point(b) + "]"@,
        PathEl::CurveTo(a, b, c) => "[3,"@ + j_point(a) + ","@ + j_point(b) + ","@ + j_point(c)
            + "]"@,
        PathEl::ClosePath => "[4]"@,
    }
}

fn emit_pathel(out: &mut String, e: PathEl)
    ensures
        final(out)@ == old(out)@ + j_pathel(e),
{
    match e {
        PathEl::MoveTo(p) => {
            out.append("[0,");
            emit_point(out, p);
            out.append("]");
        },
        PathEl::LineTo(p) => {
            out.append("[1,");
            emit_point(out, p);
            out.append("]");
        },
        PathEl::QuadTo(a, b) => {
            out.append("[2,");
            emit_point(out, a);
            out.append(",");
            emit_point(out, b);
            out.append("]");
        },
        PathEl::CurveTo(a, b, c) => {
            out.append("[3,");
            emit_point(out, a);
            out.append(",");
            emit_point(out, b);
            out.append(",");
            emit_point(out, c);
            out.append("]");
        },
        PathEl::ClosePath => {
            out.append("[4]");
        },
    }
    proof {
        assert(out@ =~= old(out)@ + j_pathel(e));
    }
}

fn parse_pathel(s: &str, pos: usize) -> (r: Option<(PathEl, usize)>)
    ensures
        r matches Some(p) ==> {
            &&& pos < p.1 <= s@.len()
            &&& s@.subrange(pos as int, p.1 as int) == j_pathel(p.0)
        },
{
    let total = s.unicode_len();
    if pos >= total {
        return None;
    }
    if pos + 1 >= total {
        return None;
    }
    if s.get_char(pos) != '[' {
        return None;
    }
    proof {
        reveal_strlit("[0,");
        reveal_strlit("[1,");
        reveal_strlit("[2,");
        reveal_strlit("[3,");
        reveal_strlit("[4]");
    }
    let tag = s.get_char(pos + 1);
    if tag == '0' || tag == '1' {
        let p0 = match expect_lit(s, pos, if tag == '0' { "[0," } else { "[1," }) {
            Some(v) => v,
            None => {
                return None;
            },
        };
        let (pt, q0) = match parse_point(s, p0) {
            Some(v) => v,
            None => {
                return None;
            },
        };
        let p1 = match expect_lit(s, q0, "]") {
            Some(v) => v,
            None => {
                return None;
            },
        };
        let e = if tag == '0' {
            PathEl::MoveTo(pt)
        } else {
            PathEl::LineTo(pt)
        };
        proof {
            assert(s@.subrange(pos as int, p1 as int) =~= s@.subrange(pos as int, p0 as int)
                + s@.subrange(p0 as int, q0 as int) + s@.subrange(q0 as int, p1 as int));
        }
        Some((e, p1))
    } else if tag == '2' {
        let p0 = match expect_lit(s, pos, "[2,") {
            Some(v) => v,
            None => {
                return None;
            },
        };
        let (a, q0) = match parse_point(s, p0) {
            Some(v) => v,
            None => {
                return None;
            },
        };
        let p1 = match expect_lit(s, q0, ",") {
            Some(v) => v,
            None => {
                return None;
            },
        };
        let (b, q1) = match parse_point(s, p1) {
            Some(v) => v,
            None => {
                return None;
            },
        };
        let p2 = match expect_lit(s, q1, "]") {
            Some(v) => v,
            None => {
                return None;
            },
        };
        proof {
            assert(s@.subrange(pos as int, p2 as int) =~= s@.subrange(pos as int, p0 as int)
                + s@.subrange(p0 as int, q0 as int) + s@.subrange(q0 as int, p1 as int)
                + s@.subrange(p1 as int, q1 as int) + s@.subrange(q1 as int, p2 as int));
        }
        Some((PathEl::QuadTo(a, b), p2))
    } else if tag == '3' {
        let p0 = match expect_lit(s, pos, "[3,") {
            Some(v) => v,
            None => {
                return None;
            },
        };
        let (a, q0) = match parse_point(s, p0) {
            Some(v) => v,
            None => {
                return None;
            },
        };
        let p1 = match expect_lit(s, q0, ",") {
            Some(v) => v,
            None => {
                return None;
            },
        };
        let (b, q1) = match parse_point(s, p1) {
            Some(v) => v,
            None => {
                return None;
            },
        };
        let p2 = match expect_lit(s, q1, ",") {
            Some(v) => v,
            None => {
                return None;
            },
        };
        let (c, q2) = match parse_point(s, p2) {
            Some(v) => v,
            None => {
                return None;
            },
        };
        let p3 = match expect_lit(s, q2, "]") {
            Some(v) => v,
            None => {
                return None;
            },
        };
        proof {
            assert(s@.subrange(pos as int, p3 as int) =~= s@.subrange(pos as int, p0 as int)
                + s@.subrange(p0 as int, q0 as int) + s@.subrange(q0 as int, p1 as int)
                + s@.subrange(p1 as int, q1 as int) + s@.subrange(q1 as int, p2 as int)
                + s@.subrange(p2 as int, q2 as int) + s@.subrange(q2 as int, p3 as int));
        }
        Some((PathEl::CurveTo(a, b, c), p3))
    } else if tag == '4' {
        match expect_lit(s, pos, "[4]") {
            Some(np) => Some((PathEl::ClosePath, np)),
            None => None,
        }
    } else {
        None
    }
}

fn parse_usize(s: &str, pos: usize) -> (r: Option<(usize, usize)>)
    ensures
        r matches Some(p) ==> {
            &&& pos < p.1 <= s@.len()
            &&& s@.subrange(pos as int, p.1 as int) == dec_u64(p.0 as u64)
        },
{
    let (n, np) = match parse_u64(s, pos) {
        Some(v) => v,
        None => {
            return None;
        },
    };
    if n > usize::MAX as u64 {
        return None;
    }
    Some((n as usize, np))
}

/// The text of one variation coordinate.
pub open spec fn j_i16(x: i16) -> Seq<char> {
    dec_i64(x as i64)
}

fn parse_i16(s: &str, pos: usize) -> (r: Option<(i16, usize)>)
    ensures
        r matches Some(p) ==> {
            &&& pos < p.1 <= s@.len()
            &&& s@.subrange(pos as int, p.1 as int) == j_i16(p.0)
        },
{
    let (n, np) = match parse_i64(s, pos) {
        Some(v) => v,
        None => {
            return None;
        },
    };
    if n < -32768i64 || n > 32767i64 {
        return None;
    }
    Some((n as i16, np))
}

fn emit_i16(out: &mut String, x: i16)
    ensures
        final(out)@ == old(out)@ + j_i16(x),
{
    emit_i64(out, x as i64);
}

/// The text of the list, elements comma-separated inside brackets.
pub open spec fn j_dashes_items(s: Seq<u64>, n: int) -> Seq<char>
    decreases n,
{
    if n <= 0 {
        Seq::empty()
    } else if n == 1 {
        dec_u64(s[0])
    } else {
        j_dashes_items(s, n - 1) + ","@ + dec_u64(s[n - 1])
    }
}


proof fn lemma_j_dashes_items_prefix(s1: Seq<u64>, s2: Seq<u64>, n: int)
    requires
        0 <= n <= s1.len(),
        n <= s2.len(),
        forall|i: int| 0 <= i < n ==> s1[i] == s2[i],
    ensures
        j_dashes_items(s1, n) == j_dashes_items(s2, n),
    decreases n,
{
    if n > 0 {
        lemma_j_dashes_items_prefix(s1, s2, n - 1);
    }
}

pub open spec fn j_dashes(s: Seq<u64>) -> Seq<char> {
    "["@ + j_dashes_items(s, s.len() as int) + "]"@
}

fn emit_dashes(out: &mut String, v: &Vec<u64>)
    ensures
        final(out)@ == old(out)@ + j_dashes(v@),
{
    out.append("[");
    let n = v.len();
    let mut i: usize = 0;
    while i < n
        invariant
            i <= n,
            n == v@.len(),
            out@ == old(out)@ + "["@ + j_dashes_items(v@, i as int),
        decreases n - i,
    {
        if i > 0 {
            out.append(",");
        }
        emit_u64(out, v[i]);
        proof {
            assert(out@ =~= old(out)@ + "["@ + j_dashes_items(v@, i + 1));
        }
        i = i + 1;
    }
    out.append("]");
    proof {
        assert(out@ =~= old(out)@ + j_dashes(v@));
    }
}

fn parse_dashes(s: &str, pos: usize) -> (r: Option<(Vec<u64>, usize)>)
    ensures
        r matches Some(p) ==> {
            &&& pos < p.1 <= s@.len()
            &&& s@.subrange(pos as int, p.1 as int) == j_dashes(p.0@)
        },
{
    proof {
        reveal_strlit("[");
        reveal_strlit("]");
        reveal_strlit(",");
    }
    let p0 = match expect_lit(s, pos, "[") {
        Some(v) => v,
        None => {
            return None;
        },
    };
    let total = s.unicode_len();
    if p0 < total && s.get_char(p0) == ']' {
        let p1 = match expect_lit(s, p0, "]") {
            Some(v) => v,
            None => {
                return None;
            },
        };
        let out: Vec<u64> = Vec::new();
        proof {
            assert(s@.subrange(pos as int, p1 as int) =~= s@.subrange(pos as int, p0 as int)
                + s@.subrange(p0 as int, p1 as int));
            assert(s@.subrange(pos as int, p1 as int) =~= j_dashes(out@));
        }
        return Some((out, p1));
    }
    let mut out: Vec<u64> = Vec::new();
    let mut p = p0;
    loop
        invariant
            pos < p <= s@.len(),
            total == s@.len(),
            s@.subrange(pos as int, p as int) == "["@ + j_dashes_items(
                out@,
                out@.len() as int,
            ) + (if out@.len() == 0 {
                Seq::<char>::empty()
            } else {
                ","@
            }),
        decreases s@.len() - p,
    {
        let ghost pre = s@.subrange(pos as int, p as int);
        let (item, np) = match parse_u64(s, p) {
            Some(v) => v,
            None => {
                return None;
            },
        };
        let ghost preout = out@;
        out.push(item);
        proof {
            lemma_j_dashes_items_prefix(preout, out@, preout.len() as int);
            assert(out@[out@.len() - 1] == item);
            assert(s@.subrange(pos as int, np as int) =~= pre + s@.subrange(p as int, np as int));
            assert(s@.subrange(pos as int, np as int) =~= "["@ + j_dashes_items(
                out@,
                out@.len() as int,
            ));
        }
        if np < total && s.get_char(np) == ']' {
            let p1 = match expect_lit(s, np, "]") {
                Some(v) => v,
                None => {
                    return None;
                },
            };
            proof {
                assert(s@.subrange(pos as int, p1 as int) =~= s@.subrange(pos as int, np as int)
                    + s@.subrange(np as int, p1 as int));
                assert(s@.subrange(pos as int, p1 as int) =~= j_dashes(out@));
            }
            return Some((out, p1));
        }
        p = match expect_lit(s, np, ",") {
            Some(v) => v,
            None => {
                return None;
            },
        };
        proof {
            assert(s@.subrange(pos as int, p as int) =~= s@.subrange(pos as int, np as int)
                + s@.subrange(np as int, p as int));
        }
    }
}

/// The text of the list, elements comma-separated inside brackets.
pub open spec fn j_coords_items(s: Seq<i16>, n: int) -> Seq<char>
    decreases n,
{
    if n <= 0 {
        Seq::empty()
    } else if n == 1 {
        j_i16(s[0])
    } else {
        j_coords_items(s, n - 1) + ","@ + j_i16(s[n - 1])
    }
}


proof fn lemma_j_coords_items_prefix(s1: Seq<i16>, s2: Seq<i16>, n: int)
    requires
        0 <= n <= s1.len(),
        n <= s2.len(),
        forall|i: int| 0 <= i < n ==> s1[i] == s2[i],
    ensures
        j_coords_items(s1, n) == j_coords_items(s2, n),
    decreases n,
{
    if n > 0 {
        lemma_j_coords_items_prefix(s1, s2, n - 1);
    }
}

pub open spec fn j_coords(s: Seq<i16>) -> Seq<char> {
    "["@ + j_coords_items(s, s.len() as int) + "]"@
}

fn emit_coords(out: &mut String, v: &Vec<i16>)
    ensures
        final(out)@ == old(out)@ + j_coords(v@),
{
    out.append("[");
    let n = v.len();
    let mut i: usize = 0;
    while i < n
        invariant
            i <= n,
            n == v@.len(),
            out@ == old(out)@ + "["@ + j_coords_items(v@, i as int),
        decreases n - i,
    {
        if i > 0 {
            out.append(",");
        }
        emit_i16(out, v[i]);
        proof {
            assert(out@ =~= old(out)@ + "["@ + j_coords_items(v@, i + 1));
        }
        i = i + 1;
    }
    out.append("]");
    proof {
        assert(out@ =~= old(out)@ + j_coords(v@));
    }
}

fn parse_coords(s: &str, pos: usize) -> (r: Option<(Vec<i16>, usize)>)
    ensures
        r matches Some(p) ==> {
            &&& pos < p.1 <= s@.len()
            &&& s@.subrange(pos as int, p.1 as int) == j_coords(p.0@)
        },
{
    proof {
        reveal_strlit("[");
        reveal_strlit("]");
        reveal_strlit(",");
    }
    let p0 = match expect_lit(s, pos, "[") {
        Some(v) => v,
        None => {
            return None;
        },
    };
    let total = s.unicode_len();
    if p0 < total && s.get_char(p0) == ']' {
        let p1 = match expect_lit(s, p0, "]") {
            Some(v) => v,
            None => {
                return None;
            },
        };
        let out: Vec<i16> = Vec::new();
        proof {
            assert(s@.subrange(pos as int, p1 as int) =~= s@.subrange(pos as int, p0 as int)
                + s@.subrange(p0 as int, p1 as int));
            assert(s@.subrange(pos as int, p1 as int) =~= j_coords(out@));
        }
        return Some((out, p1));
    }
    let mut out: Vec<i16> = Vec::new();
    let mut p = p0;
    loop
        invariant
            pos < p <= s@.len(),
            total == s@.len(),
            s@.subrange(pos as int, p as int) == "["@ + j_coords_items(
                out@,
                out@.len() as int,
            ) + (if out@.len() == 0 {
                Seq::<char>::empty()
            } else {
                ","@
            }),
        decreases s@.len() - p,
    {
        let ghost pre = s@.subrange(pos as int, p as int);
        let (item, np) = match parse_i16(s, p) {
            Some(v) => v,
            None => {
                return None;
            },
        };
        let ghost preout = out@;
        out.push(item);
        proof {
            lemma_j_coords_items_prefix(preout, out@, preout.len() as int);
            assert(out@[out@.len() - 1] == item);
            assert(s@.subrange(pos as int, np as int) =~= pre + s@.subrange(p as int, np as int));
            assert(s@.subrange(pos as int, np as int) =~= "["@ + j_coords_items(
                out@,
                out@.len() as int,
            ));
        }
        if np < total && s.get_char(np) == ']' {
            let p1 = match expect_lit(s, np, "]") {
                Some(v) => v,
                None => {
                    return None;
                },
            };
            proof {
                assert(s@.subrange(pos as int, p1 as int) =~= s@.subrange(pos as int, np as int)
                    + s@.subrange(np as int, p1 as int));
                assert(s@.subrange(pos as int, p1 as int) =~= j_coords(out@));
            }
            return Some((out, p1));
        }
        p = match expect_lit(s, np, ",") {
            Some(v) => v,
            None => {
                return None;
            },
        };
        proof {
            assert(s@.subrange(pos as int, p as int) =~= s@.subrange(pos as int, np as int)
                + s@.subrange(np as int, p as int));
        }
    }
}

/// The text of a gradient stop.
pub open spec fn j_stop(v: ColorStop) -> Seq<char> {
    "["@
        + dec_u64(v.offset as u64)
        + ","@
        + j_color(v.color)
        + "]"@
}

fn emit_stop(out: &mut String, v: ColorStop)
    ensures
        final(out)@ == old(out)@ + j_stop(v),
{
    out.append("[");
    emit_u64(out, v.offset as u64);
    out.append(",");
    emit_color(out, v.color);
    out.append("]");
    proof {
        assert(out@ =~= old(out)@ + j_stop(v));
    }
}

fn parse_stop(s: &str, pos: usize) -> (r: Option<(ColorStop, usize)>)
    ensures
        r matches Some(p) ==> {
            &&& pos < p.1 <= s@.len()
            &&& s@.subrange(pos as int, p.1 as int) == j_stop(p.0)
        },
{
    proof {
        reveal_strlit(",");
        reveal_strlit("[");
        reveal_strlit("]");
    }
    let x0 = match expect_lit(s, pos, "[") {
        Some(v) => v,
        None => {
            return None;
        },
    };
    let (offset, x1) = match parse_u32(s, x0) {
        Some(v) => v,
        None => {
            return None;
        },
    };
    let x2 = match expect_lit(s, x1, ",") {
        Some(v) => v,
        None => {
            return None;
        },
    };
    let (color, x3) = match parse_color(s, x2) {
        Some(v) => v,
        None => {
            return None;
        },
    };
    let x4 = match expect_lit(s, x3, "]") {
        Some(v) => v,
        None => {
            return None;
        },
    };
    let v = ColorStop { offset, color };
    proof {
        assert(s@.subrange(pos as int, x4 as int) =~= s@.subrange(pos as int, x0 as int)
            + s@.subrange(x0 as int, x1 as int)
            + s@.subrange(x1 as int, x2 as int)
            + s@.subrange(x2 as int, x3 as int)
            + s@.subrange(x3 as int, x4 as int));
    }
    Some((v, x4))
}

/// The text of the list, elements comma-separated inside brackets.
pub open spec fn j_stops_items(s: Seq<ColorStop>, n: int) -> Seq<char>
    decreases n,
{
    if n <= 0 {
        Seq::empty()
    } else if n == 1 {
        j_stop(s[0])
    } else {
        j_stops_items(s, n - 1) + ","@ + j_stop(s[n - 1])
    }
}


proof fn lemma_j_stops_items_prefix(s1: Seq<ColorStop>, s2: Seq<ColorStop>, n: int)
    requires
        0 <= n <= s1.len(),
        n <= s2.len(),
        forall|i: int| 0 <= i < n ==> s1[i] == s2[i],
    ensures
        j_stops_items(s1, n) == j_stops_items(s2, n),
    decreases n,
{
    if n > 0 {
        lemma_j_stops_items_prefix(s1, s2, n - 1);
    }
}

pub open spec fn j_stops(s: Seq<ColorStop>) -> Seq<char> {
    "["@ + j_stops_items(s, s.len() as int) + "]"@
}

fn emit_stops(out: &mut String, v: &Vec<ColorStop>)
    ensures
        final(out)@ == old(out)@ + j_stops(v@),
{
    out.append("[");
    let n = v.len();
    let mut i: usize = 0;
    while i < n
        invariant
            i <= n,
            n == v@.len(),
            out@ == old(out)@ + "["@ + j_stops_items(v@, i as int),
        decreases n - i,
    {
        if i > 0 {
            out.append(",");
        }
        emit_stop(out, v[i]);
        proof {
            assert(out@ =~= old(out)@ + "["@ + j_stops_items(v@, i + 1));
        }
        i = i + 1;
    }
    out.append("]");
    proof {
        assert(out@ =~= old(out)@ + j_stops(v@));
    }
}

fn parse_stops(s: &str, pos: usize) -> (r: Option<(Vec<ColorStop>, usize)>)
    ensures
        r matches Some(p) ==> {
            &&& pos < p.1 <= s@.len()
            &&& s@.subrange(pos as int, p.1 as int) == j_stops(p.0@)
        },
{
    proof {
        reveal_strlit("[");
        reveal_strlit("]");
        reveal_strlit(",");
    }
    let p0 = match expect_lit(s, pos, "[") {
        Some(v) => v,
        None => {
            return None;
        },
    };
    let total = s.unicode_len();
    if p0 < total && s.get_char(p0) == ']' {
        let p1 = match expect_lit(s, p0, "]") {
            Some(v) => v,
            None => {
                return None;
            },
        };
        let out: Vec<ColorStop> = Vec::new();
        proof {
            assert(s@.subrange(pos as int, p1 as int) =~= s@.subrange(pos as int, p0 as int)
                + s@.subrange(p0 as int, p1 as int));
            assert(s@.subrange(pos as int, p1 as int) =~= j_stops(out@));
        }
        return Some((out, p1));
    }
    let mut out: Vec<ColorStop> = Vec::new();
    let mut p = p0;
    loop
        invariant
            pos < p <= s@.len(),
            total == s@.len(),
            s@.subrange(pos as int, p as int) == "["@ + j_stops_items(
                out@,
                out@.len() as int,
            ) + (if out@.len() == 0 {
                Seq::<char>::empty()
            } else {
                ","@
            }),
        decreases s@.len() - p,
    {
        let ghost pre = s@.subrange(pos as int, p as int);
        let (item, np) = match parse_stop(s, p) {
            Some(v) => v,
            None => {
                return None;
            },
        };
        let ghost preout = out@;
        out.push(item);
        proof {
            lemma_j_stops_items_prefix(preout, out@, preout.len() as int);
            assert(out@[out@.len() - 1] == item);
            assert(s@.subrange(pos as int, np as int) =~= pre + s@.subrange(p as int, np as int));
            assert(s@.subrange(pos as int, np as int) =~= "["@ + j_stops_items(
                out@,
                out@.len() as int,
            ));
        }
        if np < total && s.get_char(np) == ']' {
            let p1 = match expect_lit(s, np, "]") {
                Some(v) => v,
                None => {
                    return None;
                },
            };
            proof {
                assert(s@.subrange(pos as int, p1 as int) =~= s@.subrange(pos as int, np as int)
                    + s@.subrange(np as int, p1 as int));
                assert(s@.subrange(pos as int, p1 as int) =~= j_stops(out@));
            }
            return Some((out, p1));
        }
        p = match expect_lit(s, np, ",") {
            Some(v) => v,
            None => {
                return None;
            },
        };
        proof {
            assert(s@.subrange(pos as int, p as int) =~= s@.subrange(pos as int, np as int)
                + s@.subrange(np as int, p as int));
        }
    }
}

/// The text of a positioned glyph.
pub open spec fn j_glyph(v: Glyph) -> Seq<char> {
    "["@
        + dec_u64(v.id as u64)
        + ","@
        + dec_u64(v.x as u64)
        + ","@
        + dec_u64(v.y as u64)
        + "]"@
}

fn emit_glyph(out: &mut String, v: Glyph)
    ensures
        final(out)@ == old(out)@ + j_glyph(v),
{
    out.append("[");
    emit_u64(out, v.id as u64);
    out.append(",");
    emit_u64(out, v.x as u64);
    out.append(",");
    emit_u64(out, v.y as u64);
    out.append("]");
    proof {
        assert(out@ =~= old(out)@ + j_glyph(v));
    }
}

fn parse_glyph(s: &str, pos: usize) -> (r: Option<(Glyph, usize)>)
    ensures
        r matches Some(p) ==> {
            &&& pos < p.1 <= s@.len()
            &&& s@.subrange(pos as int, p.1 as int) == j_glyph(p.0)
        },
{
    proof {
        reveal_strlit(",");
        reveal_strlit("[");
        reveal_strlit("]");
    }
    let x0 = match expect_lit(s, pos, "[") {
        Some(v) => v,
        None => {
            return None;
        },
    };
    let (id, x1) = match parse_u32(s, x0) {
        Some(v) => v,
        None => {
            return None;
        },
    };
    let x2 = match expect_lit(s, x1, ",") {
        Some(v) => v,
        None => {
            return None;
        },
    };
    let (gx, x3) = match parse_u32(s, x2) {
        Some(v) => v,
        None => {
            return None;
        },
    };
    let x4 = match expect_lit(s, x3, ",") {
        Some(v) => v,
        None => {
            return None;
        },
    };
    let (gy, x5) = match parse_u32(s, x4) {
        Some(v) => v,
        None => {
            return None;
        },
    };
    let x6 = match expect_lit(s, x5, "]") {
        Some(v) => v,
        None => {
            return None;
        },
    };
    let v = Glyph { id, x: gx, y: gy };
    proof {
        assert(s@.subrange(pos as int, x6 as int) =~= s@.subrange(pos as int, x0 as int)
            + s@.subrange(x0 as int, x1 as int)
            + s@.subrange(x1 as int, x2 as int)
            + s@.subrange(x2 as int, x3 as int)
            + s@.subrange(x3 as int, x4 as int)
            + s@.subrange(x4 as int, x5 as int)
            + s@.subrange(x5 as int, x6 as int));
    }
    Some((v, x6))
}

/// The text of the list, elements comma-separated inside brackets.
pub open spec fn j_glyphs_items(s: Seq<Glyph>, n: int) -> Seq<char>
    decreases n,
{
    if n <= 0 {
        Seq::empty()
    } else if n == 1 {
        j_glyph(s[0])
    } else {
        j_glyphs_items(s, n - 1) + ","@ + j_glyph(s[n - 1])
    }
}


proof fn lemma_j_glyphs_items_prefix(s1: Seq<Glyph>, s2: Seq<Glyph>, n: int)
    requires
        0 <= n <= s1.len(),
        n <= s2.len(),
        forall|i: int| 0 <= i < n ==> s1[i] == s2[i],
    ensures
        j_glyphs_items(s1, n) == j_glyphs_items(s2, n),
    decreases n,
{
    if n > 0 {
        lemma_j_glyphs_items_prefix(s1, s2, n - 1);
    }
}

pub open spec fn j_glyphs(s: Seq<Glyph>) -> Seq<char> {
    "["@ + j_glyphs_items(s, s.len() as int) + "]"@
}

fn emit_glyphs(out: &mut String, v: &Vec<Glyph>)
    ensures
        final(out)@ == old(out)@ + j_glyphs(v@),
{
    out.append("[");
    let n = v.len();
    let mut i: usize = 0;
    while i < n
        invariant
            i <= n,
            n == v@.len(),
            out@ == old(out)@ + "["@ + j_glyphs_items(v@, i as int),
        decreases n - i,
    {
        if i > 0 {
            out.append(",");
        }
        emit_glyph(out, v[i]);
        proof {
            assert(out@ =~= old(out)@ + "["@ + j_glyphs_items(v@, i + 1));
        }
        i = i + 1;
    }
    out.append("]");
    proof {
        assert(out@ =~= old(out)@ + j_glyphs(v@));
    }
}

fn parse_glyphs(s: &str, pos: usize) -> (r: Option<(Vec<Glyph>, usize)>)
    ensures
        r matches Some(p) ==> {
            &&& pos < p.1 <= s@.len()
            &&& s@.subrange(pos as int, p.1 as int) == j_glyphs(p.0@)
        },
{
    proof {
        reveal_strlit("[");
        reveal_strlit("]");
        reveal_strlit(",");
    }
    let p0 = match expect_lit(s, pos, "[") {
        Some(v) => v,
        None => {
            return None;
        },
    };
    let total = s.unicode_len();
    if p0 < total && s.get_char(p0) == ']' {
        let p1 = match expect_lit(s, p0, "]") {
            Some(v) => v,
            None => {
                return None;
            },
        };
        let out: Vec<Glyph> = Vec::new();
        proof {
            assert(s@.subrange(pos as int, p1 as int) =~= s@.subrange(pos as int, p0 as int)
                + s@.subrange(p0 as int, p1 as int));
            assert(s@.subrange(pos as int, p1 as int) =~= j_glyphs(out@));
        }
        return Some((out, p1));
    }
    let mut out: Vec<Glyph> = Vec::new();
    let mut p = p0;
    loop
        invariant
            pos < p <= s@.len(),
            total == s@.len(),
            s@.subrange(pos as int, p as int) == "["@ + j_glyphs_items(
                out@,
                out@.len() as int,
            ) + (if out@.len() == 0 {
                Seq::<char>::empty()
            } else {
                ","@
            }),
        decreases s@.len() - p,
    {
        let ghost pre = s@.subrange(pos as int, p as int);
        let (item, np) = match parse_glyph(s, p) {
            Some(v) => v,
            None => {
                return None;
            },
        };
        let ghost preout = out@;
        out.push(item);
        proof {
            lemma_j_glyphs_items_prefix(preout, out@, preout.len() as int);
            assert(out@[out@.len() - 1] == item);
            assert(s@.subrange(pos as int, np as int) =~= pre + s@.subrange(p as int, np as int));
            assert(s@.subrange(pos as int, np as int) =~= "["@ + j_glyphs_items(
                out@,
                out@.len() as int,
            ));
        }
        if np < total && s.get_char(np) == ']' {
            let p1 = match expect_lit(s, np, "]") {
                Some(v) => v,
                None => {
                    return None;
                },
            };
            proof {
                assert(s@.subrange(pos as int, p1 as int) =~= s@.subrange(pos as int, np as int)
                    + s@.subrange(np as int, p1 as int));
                assert(s@.subrange(pos as int, p1 as int) =~= j_glyphs(out@));
            }
            return Some((out, p1));
        }
        p = match expect_lit(s, np, ",") {
            Some(v) => v,
            None => {
                return None;
            },
        };
        proof {
            assert(s@.subrange(pos as int, p as int) =~= s@.subrange(pos as int, np as int)
                + s@.subrange(np as int, p as int));
        }
    }
}

/// The text of the list, elements comma-separated inside brackets.
pub open spec fn j_path_items(s: Seq<PathEl>, n: int) -> Seq<char>
    decreases n,
{
    if n <= 0 {
        Seq::empty()
    } else if n == 1 {
        j_pathel(s[0])
    } else {
        j_path_items(s, n - 1) + ","@ + j_pathel(s[n - 1])
    }
}


proof fn lemma_j_path_items_prefix(s1: Seq<PathEl>, s2: Seq<PathEl>, n: int)
    requires
        0 <= n <= s1.len(),
        n <= s2.len(),
        forall|i: int| 0 <= i < n ==> s1[i] == s2[i],
    ensures
        j_path_items(s1, n) == j_path_items(s2, n),
    decreases n,
{
    if n > 0 {
        lemma_j_path_items_prefix(s1, s2, n - 1);
    }
}

pub open spec fn j_path(s: Seq<PathEl>) -> Seq<char> {
    "["@ + j_path_items(s, s.len() as int) + "]"@
}

fn emit_path(out: &mut String, v: &Vec<PathEl>)
    ensures
        final(out)@ == old(out)@ + j_path(v@),
{
    out.append("[");
    let n = v.len();
    let mut i: usize = 0;
    while i < n
        invariant
            i <= n,
            n == v@.len(),
            out@ == old(out)@ + "["@ + j_path_items(v@, i as int),
        decreases n - i,
    {
        if i > 0 {
            out.append(",");
        }
        emit_pathel(out, v[i]);
        proof {
            assert(out@ =~= old(out)@ + "["@ + j_path_items(v@, i + 1));
        }
        i = i + 1;
    }
    out.append("]");
    proof {
        assert(out@ =~= old(out)@ + j_path(v@));
    }
}

fn parse_path(s: &str, pos: usize) -> (r: Option<(Vec<PathEl>, usize)>)
    ensures
        r matches Some(p) ==> {
            &&& pos < p.1 <= s@.len()
            &&& s@.subrange(pos as int, p.1 as int) == j_path(p.0@)
        },
{
    proof {
        reveal_strlit("[");
        reveal_strlit("]");
        reveal_strlit(",");
    }
    let p0 = match expect_lit(s, pos, "[") {
        Some(v) => v,
        None => {
            return None;
        },
    };
    let total = s.unicode_len();
    if p0 < total && s.get_char(p0) == ']' {
        let p1 = match expect_lit(s, p0, "]") {
            Some(v) => v,
            None => {
                return None;
            },
        };
        let out: Vec<PathEl> = Vec::new();
        proof {
            assert(s@.subrange(pos as int, p1 as int) =~= s@.subrange(pos as int, p0 as int)
                + s@.subrange(p0 as int, p1 as int));
            assert(s@.subrange(pos as int, p1 as int) =~= j_path(out@));
        }
        return Some((out, p1));
    }
    let mut out: Vec<PathEl> = Vec::new();
    let mut p = p0;
    loop
        invariant
            pos < p <= s@.len(),
            total == s@.len(),
            s@.subrange(pos as int, p as int) == "["@ + j_path_items(
                out@,
                out@.len() as int,
            ) + (if out@.len() == 0 {
                Seq::<char>::empty()
            } else {
                ","@
            }),
        decreases s@.len() - p,
    {
        let ghost pre = s@.subrange(pos as int, p as int);
        let (item, np) = match parse_pathel(s, p) {
            Some(v) => v,
            None => {
                return None;
            },
        };
        let ghost preout = out@;
        out.push(item);
        proof {
            lemma_j_path_items_prefix(preout, out@, preout.len() as int);
            assert(out@[out@.len() - 1] == item);
            assert(s@.subrange(pos as int, np as int) =~= pre + s@.subrange(p as int, np as int));
            assert(s@.subrange(pos as int, np as int) =~= "["@ + j_path_items(
                out@,
                out@.len() as int,
            ));
        }
        if np < total && s.get_char(np) == ']' {
            let p1 = match expect_lit(s, np, "]") {
                Some(v) => v,
                None => {
                    return None;
                },
            };
            proof {
                assert(s@.subrange(pos as int, p1 as int) =~= s@.subrange(pos as int, np as int)
                    + s@.subrange(np as int, p1 as int));
                assert(s@.subrange(pos as int, p1 as int) =~= j_path(out@));
            }
            return Some((out, p1));
        }
        p = match expect_lit(s, np, ",") {
            Some(v) => v,
            None => {
                return None;
            },
        };
        proof {
            assert(s@.subrange(pos as int, p as int) =~= s@.subrange(pos as int, np as int)
                + s@.subrange(np as int, p as int));
        }
    }
}

/// The text of an image sampler.
pub open spec fn j_sampler(v: ImageSampler) -> Seq<char> {
    "["@
        + dec_u64(extend_code(v.x_extend))
        + ","@
        + dec_u64(extend_code(v.y_extend))
        + ","@
        + dec_u64(image_quality_code(v.quality))
        + ","@
        + dec_u64(v.alpha as u64)
        + "]"@
}

#[verifier::rlimit(100)]
#[verifier::spinoff_prover]
fn emit_sampler(out: &mut String, v: ImageSampler)
    ensures
        final(out)@ == old(out)@ + j_sampler(v),
{
    out.append("[");
    emit_extend(out, v.x_extend);
    out.append(",");
    emit_extend(out, v.y_extend);
    out.append(",");
    emit_image_quality(out, v.quality);
    out.append(",");
    emit_u64(out, v.alpha as u64);
    out.append("]");
    proof {
        assert(out@ =~= old(out)@ + j_sampler(v));
    }
}

#[verifier::rlimit(100)]
#[verifier::spinoff_prover]
fn parse_sampler(s: &str, pos: usize) -> (r: Option<(ImageSampler, usize)>)
    ensures
        r matches Some(p) ==> {
            &&& pos < p.1 <= s@.len()
            &&& s@.subrange(pos as int, p.1 as int) == j_sampler(p.0)
        },
{
    proof {
        reveal_strlit(",");
        reveal_strlit("[");
        reveal_strlit("]");
    }
    let x0 = match expect_lit(s, pos, "[") {
        Some(v) => v,
        None => {
            return None;
        },
    };
    let (x_extend, x1) = match parse_extend(s, x0) {
        Some(v) => v,
        None => {
            return None;
        },
    };
    let x2 = match expect_lit(s, x1, ",") {
        Some(v) => v,
        None => {
            return None;
        },
    };
    let (y_extend, x3) = match parse_extend(s, x2) {
        Some(v) => v,
        None => {
            return None;
        },
    };
    let x4 = match expect_lit(s, x3, ",") {
        Some(v) => v,
        None => {
            return None;
        },
    };
    let (quality, x5) = match parse_image_quality(s, x4) {
        Some(v) => v,
        None => {
            return None;
        },
    };
    let x6 = match expect_lit(s, x5, ",") {
        Some(v) => v,
        None => {
            return None;
        },
    };
    let (alpha, x7) = match parse_u32(s, x6) {
        Some(v) => v,
        None => {
            return None;
        },
    };
    let x8 = match expect_lit(s, x7, "]") {
        Some(v) => v,
        None => {
            return None;
        },
    };
    let v = ImageSampler { x_extend, y_extend, quality, alpha };
    proof {
        assert(s@.subrange(pos as int, x8 as int) =~= s@.subrange(pos as int, x0 as int)
            + s@.subrange(x0 as int, x1 as int)
            + s@.subrange(x1 as int, x2 as int)
            + s@.subrange(x2 as int, x3 as int)
            + s@.subrange(x3 as int, x4 as int)
            + s@.subrange(x4 as int, x5 as int)
            + s@.subrange(x5 as int, x6 as int)
            + s@.subrange(x6 as int, x7 as int)
            + s@.subrange(x7 as int, x8 as int));
    }
    Some((v, x8))
}

/// The text of a stroke style.
pub open spec fn j_stroke(v: Stroke) -> Seq<char> {
    "["@
        + dec_u64(v.width)
        + ","@
        + dec_u64(v.miter_limit)
        + ","@
        + dec_u64(cap_code(v.start_cap))
        + ","@
        + dec_u64(cap_code(v.end_cap))
        + ","@
        + dec_u64(join_code(v.join))
        + ","@
        + j_dashes(v.dash_pattern@)
        + ","@
        + dec_u64(v.dash_offset)
        + "]"@
}

#[verifier::rlimit(60)]
fn emit_stroke(out: &mut String, v: &Stroke)
    ensures
        final(out)@ == old(out)@ + j_stroke(*v),
{
    out.append("[");
    emit_u64(out, v.width);
    out.append(",");
    emit_u64(out, v.miter_limit);
    out.append(",");
    emit_cap(out, v.start_cap);
    out.append(",");
    emit_cap(out, v.end_cap);
    out.append(",");
    emit_join(out, v.join);
    out.append(",");
    emit_dashes(out, &v.dash_pattern);
    out.append(",");
    emit_u64(out, v.dash_offset);
    out.append("]");
    proof {
        assert(out@ =~= old(out)@ + j_stroke(*v));
    }
}

#[verifier::rlimit(60)]
fn parse_stroke(s: &str, pos: usize) -> (r: Option<(Stroke, usize)>)
    ensures
        r matches Some(p) ==> {
            &&& pos < p.1 <= s@.len()
            &&& s@.subrange(pos as int, p.1 as int) == j_stroke(p.0)
        },
{
    proof {
        reveal_strlit(",");
        reveal_strlit("[");
        reveal_strlit("]");
    }
    let x0 = match expect_lit(s, pos, "[") {
        Some(v) => v,
        None => {
            return None;
        },
    };
    let (width, x1) = match parse_u64(s, x0) {
        Some(v) => v,
        None => {
            return None;
        },
    };
    let x2 = match expect_lit(s, x1, ",") {
        Some(v) => v,
        None => {
            return None;
        },
    };
    let (miter_limit, x3) = match parse_u64(s, x2) {
        Some(v) => v,
        None => {
            return None;
        },
    };
    let x4 = match expect_lit(s, x3, ",") {
        Some(v) => v,
        None => {
            return None;
        },
    };
    let (start_cap, x5) = match parse_cap(s, x4) {
        Some(v) => v,
        None => {
            return None;
        },
    };
    let x6 = match expect_lit(s, x5, ",") {
        Some(v) => v,
        None => {
            return None;
        },
    };
    let (end_cap, x7) = match parse_cap(s, x6) {
        Some(v) => v,
        None => {
            return None;
        },
    };
    let x8 = match expect_lit(s, x7, ",") {
        Some(v) => v,
        None => {
            return None;
        },
    };
    let (join, x9) = match parse_join(s, x8) {
        Some(v) => v,
        None => {
            return None;
        },
    };
    let x10 = match expect_lit(s, x9, ",") {
        Some(v) => v,
        None => {
            return None;
        },
    };
    let (dash_pattern, x11) = match parse_dashes(s, x10) {
        Some(v) => v,
        None => {
            return None;
        },
    };
    let x12 = match expect_lit(s, x11, ",") {
        Some(v) => v,
        None => {
            return None;
        },
    };
    let (dash_offset, x13) = match parse_u64(s, x12) {
        Some(v) => v,
        None => {
            return None;
        },
    };
    let x14 = match expect_lit(s, x13, "]") {
        Some(v) => v,
        None => {
            return None;
        },
    };
    let v = Stroke { width, miter_limit, start_cap, end_cap, join, dash_pattern, dash_offset };
    proof {
        assert(s@.subrange(pos as int, x14 as int) =~= s@.subrange(pos as int, x0 as int)
            + s@.subrange(x0 as int, x1 as int)
            + s@.subrange(x1 as int, x2 as int)
            + s@.subrange(x2 as int, x3 as int)
            + s@.subrange(x3 as int, x4 as int)
            + s@.subrange(x4 as int, x5 as int)
            + s@.subrange(x5 as int, x6 as int)
            + s@.subrange(x6 as int, x7 as int)
            + s@.subrange(x7 as int, x8 as int)
            + s@.subrange(x8 as int, x9 as int)
            + s@.subrange(x9 as int, x10 as int)
            + s@.subrange(x10 as int, x11 as int)
            + s@.subrange(x11 as int, x12 as int)
            + s@.subrange(x12 as int, x13 as int)
            + s@.subrange(x13 as int, x14 as int));
    }
    Some((v, x14))
}

/// The text of a gradient geometry.
pub open spec fn j_gradkind(v: GradientKind) -> Seq<char> {
    match v {
        GradientKind::Linear { start, end } => "[0,"@ + j_point(start) + ","@ + j_point(end) + "]"@,
        GradientKind::Radial { start_center, start_radius, end_center, end_radius } => "[1,"@ + j_point(start_center) + ","@ + dec_u64(start_radius as u64) + ","@ + j_point(end_center) + ","@ + dec_u64(end_radius as u64) + "]"@,
        GradientKind::Sweep { center, start_angle, end_angle } => "[2,"@ + j_point(center) + ","@ + dec_u64(start_angle as u64) + ","@ + dec_u64(end_angle as u64) + "]"@,
    }
}

#[verifier::rlimit(100)]
#[verifier::spinoff_prover]
fn emit_gradkind(out: &mut String, v: &GradientKind)
    ensures
        final(out)@ == old(out)@ + j_gradkind(*v),
{
    match v {
        GradientKind::Linear { start, end } => {
            out.append("[0,");
            emit_point(out, *start);
            out.append(",");
            emit_point(out, *end);
            out.append("]");
        },
        GradientKind::Radial { start_center, start_radius, end_center, end_radius } => {
            out.append("[1,");
            emit_point(out, *start_center);
            out.append(",");
            emit_u64(out, (*start_radius) as u64);
            out.append(",");
            emit_point(out, *end_center);
            out.append(",");
            emit_u64(out, (*end_radius) as u64);
            out.append("]");
        },
        GradientKind::Sweep { center, start_angle, end_angle } => {
            out.append("[2,");
            emit_point(out, *center);
            out.append(",");
            emit_u64(out, (*start_angle) as u64);
            out.append(",");
            emit_u64(out, (*end_angle) as u64);
            out.append("]");
        },
    }
    proof {
        assert(out@ =~= old(out)@ + j_gradkind(*v));
    }
}

#[verifier::rlimit(100)]
#[verifier::spinoff_prover]
fn parse_gradkind(s: &str, pos: usize) -> (r: Option<(GradientKind, usize)>)
    ensures
        r matches Some(p) ==> {
            &&& pos < p.1 <= s@.len()
            &&& s@.subrange(pos as int, p.1 as int) == j_gradkind(p.0)
        },
{
    let total = s.unicode_len();
    if pos >= total {
        return None;
    }
    if pos + 1 >= total {
        return None;
    }
    if s.get_char(pos) != '[' {
        return None;
    }
    proof {
        reveal_strlit(",");
        reveal_strlit("[0,");
        reveal_strlit("[1,");
        reveal_strlit("[2,");
        reveal_strlit("]");
    }
    let tag = s.get_char(pos + 1);
    if tag == '0' {
        let x0 = match expect_lit(s, pos, "[0,") {
            Some(v) => v,
            None => {
                return None;
            },
        };
        let (start, x1) = match parse_point(s, x0) {
            Some(v) => v,
            None => {
                return None;
            },
        };
        let x2 = match expect_lit(s, x1, ",") {
            Some(v) => v,
            None => {
                return None;
            },
        };
        let (end, x3) = match parse_point(s, x2) {
            Some(v) => v,
            None => {
                return None;
            },
        };
        let x4 = match expect_lit(s, x3, "]") {
            Some(v) => v,
            None => {
                return None;
            },
        };
        let v = GradientKind::Linear { start, end };
        proof {
            assert(s@.subrange(pos as int, x4 as int) =~= s@.subrange(pos as int, x0 as int)
                + s@.subrange(x0 as int, x1 as int)
                + s@.subrange(x1 as int, x2 as int)
                + s@.subrange(x2 as int, x3 as int)
                + s@.subrange(x3 as int, x4 as int));
        }
        Some((v, x4))
    } else if tag == '1' {
        let x0 = match expect_lit(s, pos, "[1,") {
            Some(v) => v,
            None => {
                return None;
            },
        };
        let (start_center, x1) = match parse_point(s, x0) {
            Some(v) => v,
            None => {
                return None;
            },
        };
        let x2 = match expect_lit(s, x1, ",") {
            Some(v) => v,
            None => {
                return None;
            },
        };
        let (start_radius, x3) = match parse_u32(s, x2) {
            Some(v) => v,
            None => {
                return None;
            },
        };
        let x4 = match expect_lit(s, x3, ",") {
            Some(v) => v,
            None => {
                return None;
            },
        };
        let (end_center, x5) = match parse_point(s, x4) {
            Some(v) => v,
            None => {
                return None;
            },
        };
        let x6 = match expect_lit(s, x5, ",") {
            Some(v) => v,
            None => {
                return None;
            },
        };
        let (end_radius, x7) = match parse_u32(s, x6) {
            Some(v) => v,
            None => {
                return None;
            },
        };
        let x8 = match expect_lit(s, x7, "]") {
            Some(v) => v,
            None => {
                return None;
            },
        };
        let v = GradientKind::Radial { start_center, start_radius, end_center, end_radius };
        proof {
            assert(s@.subrange(pos as int, x8 as int) =~= s@.subrange(pos as int, x0 as int)
                + s@.subrange(x0 as int, x1 as int)
                + s@.subrange(x1 as int, x2 as int)
                + s@.subrange(x2 as int, x3 as int)
                + s@.subrange(x3 as int, x4 as int)
                + s@.subrange(x4 as int, x5 as int)
                + s@.subrange(x5 as int, x6 as int)
                + s@.subrange(x6 as int, x7 as int)
                + s@.subrange(x7 as int, x8 as int));
        }
        Some((v, x8))
    } else if tag == '2' {
        let x0 = match expect_lit(s, pos, "[2,") {
            Some(v) => v,
            None => {
                return None;
            },
        };
        let (center, x1) = match parse_point(s, x0) {
            Some(v) => v,
            None => {
                return None;
            },
        };
        let x2 = match expect_lit(s, x1, ",") {
            Some(v) => v,
            None => {
                return None;
            },
        };
        let (start_angle, x3) = match parse_u32(s, x2) {
            Some(v) => v,
            None => {
                return None;
            },
        };
        let x4 = match expect_lit(s, x3, ",") {
            Some(v) => v,
            None => {
                return None;
            },
        };
        let (end_angle, x5) = match parse_u32(s, x4) {
            Some(v) => v,
            None => {
                return None;
            },
        };
        let x6 = match expect_lit(s, x5, "]") {
            Some(v) => v,
            None => {
                return None;
            },
        };
        let v = GradientKind::Sweep { center, start_angle, end_angle };
        proof {
            assert(s@.subrange(pos as int, x6 as int) =~= s@.subrange(pos as int, x0 as int)
                + s@.subrange(x0 as int, x1 as int)
                + s@.subrange(x1 as int, x2 as int)
                + s@.subrange(x2 as int, x3 as int)
                + s@.subrange(x3 as int, x4 as int)
                + s@.subrange(x4 as int, x5 as int)
                + s@.subrange(x5 as int, x6 as int));
        }
        Some((v, x6))
    } else {
        None
    }
}

/// The text of a gradient brush.
pub open spec fn j_gradient(v: Gradient) -> Seq<char> {
    "["@
        + j_gradkind(v.kind)
        + ","@
        + dec_u64(extend_code(v.extend))
        + ","@
        + dec_u64(color_space_tag_code(v.interpolation_cs))
        + ","@
        + dec_u64(hue_direction_code(v.hue_direction))
        + ","@
        + j_stops(v.stops@)
        + "]"@
}

#[verifier::rlimit(60)]
fn emit_gradient(out: &mut String, v: &Gradient)
    ensures
        final(out)@ == old(out)@ + j_gradient(*v),
{
    out.append("[");
    emit_gradkind(out, &v.kind);
    out.append(",");
    emit_extend(out, v.extend);
    out.append(",");
    emit_color_space_tag(out, v.interpolation_cs);
    out.append(",");
    emit_hue_direction(out, v.hue_direction);
    out.append(",");
    emit_stops(out, &v.stops);
    out.append("]");
    proof {
        assert(out@ =~= old(out)@ + j_gradient(*v));
    }
}

#[verifier::rlimit(60)]
fn parse_gradient(s: &str, pos: usize) -> (r: Option<(Gradient, usize)>)
    ensures
        r matches Some(p) ==> {
            &&& pos < p.1 <= s@.len()
            &&& s@.subrange(pos as int, p.1 as int) == j_gradient(p.0)
        },
{
    proof {
        reveal_strlit(",");
        reveal_strlit("[");
        reveal_strlit("]");
    }
    let x0 = match expect_lit(s, pos, "[") {
        Some(v) => v,
        None => {
            return None;
        },
    };
    let (kind, x1) = match parse_gradkind(s, x0) {
        Some(v) => v,
        None => {
            return None;
        },
    };
    let x2 = match expect_lit(s, x1, ",") {
        Some(v) => v,
        None => {
            return None;
        },
    };
    let (extend, x3) = match parse_extend(s, x2) {
        Some(v) => v,
        None => {
            return None;
        },
    };
    let x4 = match expect_lit(s, x3, ",") {
        Some(v) => v,
        None => {
            return None;
        },
    };
    let (interpolation_cs, x5) = match parse_color_space_tag(s, x4) {
        Some(v) => v,
        None => {
            return None;
        },
    };
    let x6 = match expect_lit(s, x5, ",") {
        Some(v) => v,
        None => {
            return None;
        },
    };
    let (hue_direction, x7) = match parse_hue_direction(s, x6) {
        Some(v) => v,
        None => {
            return None;
        },
    };
    let x8 = match expect_lit(s, x7, ",") {
        Some(v) => v,
        None => {
            return None;
        },
    };
    let (stops, x9) = match parse_stops(s, x8) {
        Some(v) => v,
        None => {
            return None;
        },
    };
    let x10 = match expect_lit(s, x9, "]") {
        Some(v) => v,
        None => {
            return None;
        },
    };
    let v = Gradient { kind, extend, interpolation_cs, hue_direction, stops };
    proof {
        assert(s@.subrange(pos as int, x10 as int) =~= s@.subrange(pos as int, x0 as int)
            + s@.subrange(x0 as int, x1 as int)
            + s@.subrange(x1 as int, x2 as int)
            + s@.subrange(x2 as int, x3 as int)
            + s@.subrange(x3 as int, x4 as int)
            + s@.subrange(x4 as int, x5 as int)
            + s@.subrange(x5 as int, x6 as int)
            + s@.subrange(x6 as int, x7 as int)
            + s@.subrange(x7 as int, x8 as int)
            + s@.subrange(x8 as int, x9 as int)
            + s@.subrange(x9 as int, x10 as int));
    }
    Some((v, x10))
}

/// The text of a serialized brush.
pub open spec fn j_brush(v: SerializableBrush) -> Seq<char> {
    match v {
        Brush::Solid(c) => "[0,"@ + j_color(c) + "]"@,
        Brush::Gradient(g) => "[1,"@ + j_gradient(g) + "]"@,
        Brush::Image(ib) => "[2,"@ + dec_u64(ib.image.0 as u64) + ","@ + j_sampler(ib.sampler) + "]"@,
    }
}

#[verifier::rlimit(100)]
#[verifier::spinoff_prover]
fn emit_brush(out: &mut String, v: &SerializableBrush)
    ensures
        final(out)@ == old(out)@ + j_brush(*v),
{
    match v {
        Brush::Solid(c) => {
            out.append("[0,");
            emit_color(out, *c);
            out.append("]");
        },
        Brush::Gradient(g) => {
            out.append("[1,");
            emit_gradient(out, g);
            out.append("]");
        },
        Brush::Image(ib) => {
            out.append("[2,");
            emit_u64(out, ib.image.0 as u64);
            out.append(",");
            emit_sampler(out, ib.sampler);
            out.append("]");
        },
    }
    proof {
        assert(out@ =~= old(out)@ + j_brush(*v));
    }
}

#[verifier::rlimit(100)]
#[verifier::spinoff_prover]
fn parse_brush(s: &str, pos: usize) -> (r: Option<(SerializableBrush, usize)>)
    ensures
        r matches Some(p) ==> {
            &&& pos < p.1 <= s@.len()
            &&& s@.subrange(pos as int, p.1 as int) == j_brush(p.0)
        },
{
    let total = s.unicode_len();
    if pos >= total {
        return None;
    }
    if pos + 1 >= total {
        return None;
    }
    if s.get_char(pos) != '[' {
        return None;
    }
    proof {
        reveal_strlit(",");
        reveal_strlit("[0,");
        reveal_strlit("[1,");
        reveal_strlit("[2,");
        reveal_strlit("]");
    }
    let tag = s.get_char(pos + 1);
    if tag == '0' {
        let x0 = match expect_lit(s, pos, "[0,") {
            Some(v) => v,
            None => {
                return None;
            },
        };
        let (c, x1) = match parse_color(s, x0) {
            Some(v) => v,
            None => {
                return None;
            },
        };
        let x2 = match expect_lit(s, x1, "]") {
            Some(v) => v,
            None => {
                return None;
            },
        };
        let v = Brush::Solid(c);
        proof {
            assert(s@.subrange(pos as int, x2 as int) =~= s@.subrange(pos as int, x0 as int)
                + s@.subrange(x0 as int, x1 as int)
                + s@.subrange(x1 as int, x2 as int));
        }
        Some((v, x2))
    } else if tag == '1' {
        let x0 = match expect_lit(s, pos, "[1,") {
            Some(v) => v,
            None => {
                return None;
            },
        };
        let (g, x1) = match parse_gradient(s, x0) {
            Some(v) => v,
            None => {
                return None;
            },
        };
        let x2 = match expect_lit(s, x1, "]") {
            Some(v) => v,
            None => {
                return None;
            },
        };
        let v = Brush::Gradient(g);
        proof {
            assert(s@.subrange(pos as int, x2 as int) =~= s@.subrange(pos as int, x0 as int)
                + s@.subrange(x0 as int, x1 as int)
                + s@.subrange(x1 as int, x2 as int));
        }
        Some((v, x2))
    } else if tag == '2' {
        let x0 = match expect_lit(s, pos, "[2,") {
            Some(v) => v,
            None => {
                return None;
            },
        };
        let (rid, x1) = match parse_usize(s, x0) {
            Some(v) => v,
            None => {
                return None;
            },
        };
        let x2 = match expect_lit(s, x1, ",") {
            Some(v) => v,
            None => {
                return None;
            },
        };
        let (sampler, x3) = match parse_sampler(s, x2) {
            Some(v) => v,
            None => {
                return None;
            },
        };
        let x4 = match expect_lit(s, x3, "]") {
            Some(v) => v,
            None => {
                return None;
            },
        };
        let v = Brush::Image(ImageBrush { image: SerializedResourceId(rid), sampler });
        proof {
            assert(s@.subrange(pos as int, x4 as int) =~= s@.subrange(pos as int, x0 as int)
                + s@.subrange(x0 as int, x1 as int)
                + s@.subrange(x1 as int, x2 as int)
                + s@.subrange(x2 as int, x3 as int)
                + s@.subrange(x3 as int, x4 as int));
        }
        Some((v, x4))
    } else {
        None
    }
}

/// The text of a glyph-run style.
pub open spec fn j_style(v: Style) -> Seq<char> {
    match v {
        Style::Fill(f) => "[0,"@ + dec_u64(fill_code(f)) + "]"@,
        Style::Stroke(st) => "[1,"@ + j_stroke(st) + "]"@,
    }
}

#[verifier::rlimit(100)]
#[verifier::spinoff_prover]
fn emit_style(out: &mut String, v: &Style)
    ensures
        final(out)@ == old(out)@ + j_style(*v),
{
    match v {
        Style::Fill(f) => {
            out.append("[0,");
            emit_fill(out, *f);
            out.append("]");
        },
        Style::Stroke(st) => {
            out.append("[1,");
            emit_stroke(out, st);
            out.append("]");
        },
    }
    proof {
        assert(out@ =~= old(out)@ + j_style(*v));
    }
}

#[verifier::rlimit(100)]
#[verifier::spinoff_prover]
fn parse_style(s: &str, pos: usize) -> (r: Option<(Style, usize)>)
    ensures
        r matches Some(p) ==> {
            &&& pos < p.1 <= s@.len()
            &&& s@.subrange(pos as int, p.1 as int) == j_style(p.0)
        },
{
    let total = s.unicode_len();
    if pos >= total {
        return None;
    }
    if pos + 1 >= total {
        return None;
    }
    if s.get_char(pos) != '[' {
        return None;
    }
    proof {
        reveal_strlit("[0,");
        reveal_strlit("[1,");
        reveal_strlit("]");
    }
    let tag = s.get_char(pos + 1);
    if tag == '0' {
        let x0 = match expect_lit(s, pos, "[0,") {
            Some(v) => v,
            None => {
                return None;
            },
        };
        let (f, x1) = match parse_fill(s, x0) {
            Some(v) => v,
            None => {
                return None;
            },
        };
        let x2 = match expect_lit(s, x1, "]") {
            Some(v) => v,
            None => {
                return None;
            },
        };
        let v = Style::Fill(f);
        proof {
            assert(s@.subrange(pos as int, x2 as int) =~= s@.subrange(pos as int, x0 as int)
                + s@.subrange(x0 as int, x1 as int)
                + s@.subrange(x1 as int, x2 as int));
        }
        Some((v, x2))
    } else if tag == '1' {
        let x0 = match expect_lit(s, pos, "[1,") {
            Some(v) => v,
            None => {
                return None;
            },
        };
        let (st, x1) = match parse_stroke(s, x0) {
            Some(v) => v,
            None => {
                return None;
            },
        };
        let x2 = match expect_lit(s, x1, "]") {
            Some(v) => v,
            None => {
                return None;
            },
        };
        let v = Style::Stroke(st);
        proof {
            assert(s@.subrange(pos as int, x2 as int) =~= s@.subrange(pos as int, x0 as int)
                + s@.subrange(x0 as int, x1 as int)
                + s@.subrange(x1 as int, x2 as int));
        }
        Some((v, x2))
    } else {
        None
    }
}

/// The text of one serialized command.
pub open spec fn j_cmd(v: SerializableRenderCommand) -> Seq<char> {
    match v {
        RenderCommand::PushLayer(c) => "[0,"@ + dec_u64(mix_code(c.blend.mix)) + ","@ + dec_u64(compose_code(c.blend.compose)) + ","@ + dec_u64(c.alpha as u64) + ","@ + j_affine(c.transform) + ","@ + j_path(c.clip@) + "]"@,
        RenderCommand::PushClipLayer(c) => "[1,"@ + j_affine(c.transform) + ","@ + j_path(c.clip@) + "]"@,
        RenderCommand::PopLayer => "[2]"@,
        RenderCommand::Stroke(c) => "[3,"@ + j_stroke(c.style) + ","@ + j_affine(c.transform) + ","@ + j_brush(c.brush) + ","@ + j_opt_affine(c.brush_transform) + ","@ + j_path(c.shape@) + "]"@,
        RenderCommand::Fill(c) => "[4,"@ + dec_u64(fill_code(c.fill)) + ","@ + j_affine(c.transform) + ","@ + j_brush(c.brush) + ","@ + j_opt_affine(c.brush_transform) + ","@ + j_path(c.shape@) + "]"@,
        RenderCommand::GlyphRun(c) => "[5,"@ + dec_u64(c.font_data.resource_id.0 as u64) + ","@ + dec_u64(c.font_data.index as u64) + ","@ + dec_u64(c.font_size as u64) + ","@ + j_bool(c.hint) + ","@ + j_coords(c.normalized_coords@) + ","@ + j_style(c.style) + ","@ + j_brush(c.brush) + ","@ + dec_u64(c.brush_alpha as u64) + ","@ + j_affine(c.transform) + ","@ + j_opt_affine(c.glyph_transform) + ","@ + j_glyphs(c.glyphs@) + "]"@,
        RenderCommand::BoxShadow(c) => "[6,"@ + j_affine(c.transform) + ","@ + dec_u64(c.rect_x0) + ","@ + dec_u64(c.rect_y0) + ","@ + dec_u64(c.rect_x1) + ","@ + dec_u64(c.rect_y1) + ","@ + j_color(c.brush) + ","@ + dec_u64(c.radius) + ","@ + dec_u64(c.std_dev) + "]"@,
    }
}

#[verifier::rlimit(100)]
#[verifier::spinoff_prover]
fn emit_cmd(out: &mut String, v: &SerializableRenderCommand)
    ensures
        final(out)@ == old(out)@ + j_cmd(*v),
{
    match v {
        RenderCommand::PushLayer(c) => {
            out.append("[0,");
            proof {
                assert(out@ == old(out)@ + ("[0,"@));
            }
            emit_mix(out, c.blend.mix);
            proof {
                crate::json::lemma_add_assoc(old(out)@, ("[0,"@), dec_u64(mix_code(c.blend.mix)));
                assert(out@ == old(out)@ + ("[0,"@ + dec_u64(mix_code(c.blend.mix))));
            }
            out.append(",");
            proof {
                crate::json::lemma_add_assoc(old(out)@, ("[0,"@ + dec_u64(mix_code(c.blend.mix))), ","@);
                assert(out@ == old(out)@ + ("[0,"@ + dec_u64(mix_code(c.blend.mix)) + ","@));
            }
            emit_compose(out, c.blend.compose);
            proof {
                crate::json::lemma_add_assoc(old(out)@, ("[0,"@ + dec_u64(mix_code(c.blend.mix)) + ","@), dec_u64(compose_code(c.blend.compose)));
                assert(out@ == old(out)@ + ("[0,"@ + dec_u64(mix_code(c.blend.mix)) + ","@ + dec_u64(compose_code(c.blend.compose))));
            }
            out.append(",");
            proof {
                crate::json::lemma_add_assoc(old(out)@, ("[0,"@ + dec_u64(mix_code(c.blend.mix)) + ","@ + dec_u64(compose_code(c.blend.compose))), ","@);
                assert(out@ == old(out)@ + ("[0,"@ + dec_u64(mix_code(c.blend.mix)) + ","@ + dec_u64(compose_code(c.blend.compose)) + ","@));
            }
            emit_u64(out, c.alpha as u64);
            proof {
                crate::json::lemma_add_assoc(old(out)@, ("[0,"@ + dec_u64(mix_code(c.blend.mix)) + ","@ + dec_u64(compose_code(c.blend.compose)) + ","@), dec_u64(c.alpha as u64));
                assert(out@ == old(out)@ + ("[0,"@ + dec_u64(mix_code(c.blend.mix)) + ","@ + dec_u64(compose_code(c.blend.compose)) + ","@ + dec_u64(c.alpha as u64)));
            }
            out.append(",");
            proof {
                crate::json::lemma_add_assoc(old(out)@, ("[0,"@ + dec_u64(mix_code(c.blend.mix)) + ","@ + dec_u64(compose_code(c.blend.compose)) + ","@ + dec_u64(c.alpha as u64)), ","@);
                assert(out@ == old(out)@ + ("[0,"@ + dec_u64(mix_code(c.blend.mix)) + ","@ + dec_u64(compose_code(c.blend.compose)) + ","@ + dec_u64(c.alpha as u64) + ","@));
            }
            emit_affine(out, c.transform);
            proof {
                crate::json::lemma_add_assoc(old(out)@, ("[0,"@ + dec_u64(mix_code(c.blend.mix)) + ","@ + dec_u64(compose_code(c.blend.compose)) + ","@ + dec_u64(c.alpha as u64) + ","@), j_affine(c.transform));
                assert(out@ == old(out)@ + ("[0,"@ + dec_u64(mix_code(c.blend.mix)) + ","@ + dec_u64(compose_code(c.blend.compose)) + ","@ + dec_u64(c.alpha as u64) + ","@ + j_affine(c.transform)));
            }
            out.append(",");
            proof {
                crate::json::lemma_add_assoc(old(out)@, ("[0,"@ + dec_u64(mix_code(c.blend.mix)) + ","@ + dec_u64(compose_code(c.blend.compose)) + ","@ + dec_u64(c.alpha as u64) + ","@ + j_affine(c.transform)), ","@);
                assert(out@ == old(out)@ + ("[0,"@ + dec_u64(mix_code(c.blend.mix)) + ","@ + dec_u64(compose_code(c.blend.compose)) + ","@ + dec_u64(c.alpha as u64) + ","@ + j_affine(c.transform) + ","@));
            }
            emit_path(out, &c.clip);
            proof {
                crate::json::lemma_add_assoc(old(out)@, ("[0,"@ + dec_u64(mix_code(c.blend.mix)) + ","@ + dec_u64(compose_code(c.blend.compose)) + ","@ + dec_u64(c.alpha as u64) + ","@ + j_affine(c.transform) + ","@), j_path(c.clip@));
                assert(out@ == old(out)@ + ("[0,"@ + dec_u64(mix_code(c.blend.mix)) + ","@ + dec_u64(compose_code(c.blend.compose)) + ","@ + dec_u64(c.alpha as u64) + ","@ + j_affine(c.transform) + ","@ + j_path(c.clip@)));
            }
            out.append("]");
            proof {
                crate::json::lemma_add_assoc(old(out)@, ("[0,"@ + dec_u64(mix_code(c.blend.mix)) + ","@ + dec_u64(compose_code(c.blend.compose)) + ","@ + dec_u64(c.alpha as u64) + ","@ + j_affine(c.transform) + ","@ + j_path(c.clip@)), "]"@);
                assert(out@ == old(out)@ + ("[0,"@ + dec_u64(mix_code(c.blend.mix)) + ","@ + dec_u64(compose_code(c.blend.compose)) + ","@ + dec_u64(c.alpha as u64) + ","@ + j_affine(c.transform) + ","@ + j_path(c.clip@) + "]"@));
            }
        },
        RenderCommand::PushClipLayer(c) => {
            out.append("[1,");
            proof {
                assert(out@ == old(out)@ + ("[1,"@));
            }
            emit_affine(out, c.transform);
            proof {
                crate::json::lemma_add_assoc(old(out)@, ("[1,"@), j_affine(c.transform));
                assert(out@ == old(out)@ + ("[1,"@ + j_affine(c.transform)));
            }
            out.append(",");
            proof {
                crate::json::lemma_add_assoc(old(out)@, ("[1,"@ + j_affine(c.transform)), ","@);
                assert(out@ == old(out)@ + ("[1,"@ + j_affine(c.transform) + ","@));
            }
            emit_path(out, &c.clip);
            proof {
                crate::json::lemma_add_assoc(old(out)@, ("[1,"@ + j_affine(c.transform) + ","@), j_path(c.clip@));
                assert(out@ == old(out)@ + ("[1,"@ + j_affine(c.transform) + ","@ + j_path(c.clip@)));
            }
            out.append("]");
            proof {
                crate::json::lemma_add_assoc(old(out)@, ("[1,"@ + j_affine(c.transform) + ","@ + j_path(c.clip@)), "]"@);
                assert(out@ == old(out)@ + ("[1,"@ + j_affine(c.transform) + ","@ + j_path(c.clip@) + "]"@));
            }
        },
        RenderCommand::PopLayer => {
            out.append("[2]");
            proof {
                assert(out@ == old(out)@ + ("[2]"@));
            }
        },
        RenderCommand::Stroke(c) => {
            out.append("[3,");
            proof {
                assert(out@ == old(out)@ + ("[3,"@));
            }
            emit_stroke(out, &c.style);
            proof {
                crate::json::lemma_add_assoc(old(out)@, ("[3,"@), j_stroke(c.style));
                assert(out@ == old(out)@ + ("[3,"@ + j_stroke(c.style)));
            }
            out.append(",");
            proof {
                crate::json::lemma_add_assoc(old(out)@, ("[3,"@ + j_stroke(c.style)), ","@);
                assert(out@ == old(out)@ + ("[3,"@ + j_stroke(c.style) + ","@));
            }
            emit_affine(out, c.transform);
            proof {
                crate::json::lemma_add_assoc(old(out)@, ("[3,"@ + j_stroke(c.style) + ","@), j_affine(c.transform));
                assert(out@ == old(out)@ + ("[3,"@ + j_stroke(c.style) + ","@ + j_affine(c.transform)));
            }
            out.append(",");
            proof {
                crate::json::lemma_add_assoc(old(out)@, ("[3,"@ + j_stroke(c.style) + ","@ + j_affine(c.transform)), ","@);
                assert(out@ == old(out)@ + ("[3,"@ + j_stroke(c.style) + ","@ + j_affine(c.transform) + ","@));
            }
            emit_brush(out, &c.brush);
            proof {
                crate::json::lemma_add_assoc(old(out)@, ("[3,"@ + j_stroke(c.style) + ","@ + j_affine(c.transform) + ","@), j_brush(c.brush));
                assert(out@ == old(out)@ + ("[3,"@ + j_stroke(c.style) + ","@ + j_affine(c.transform) + ","@ + j_brush(c.brush)));
            }
            out.append(",");
            proof {
                crate::json::lemma_add_assoc(old(out)@, ("[3,"@ + j_stroke(c.style) + ","@ + j_affine(c.transform) + ","@ + j_brush(c.brush)), ","@);
                assert(out@ == old(out)@ + ("[3,"@ + j_stroke(c.style) + ","@ + j_affine(c.transform) + ","@ + j_brush(c.brush) + ","@));
            }
            emit_opt_affine(out, &c.brush_transform);
            proof {
                crate::json::lemma_add_assoc(old(out)@, ("[3,"@ + j_stroke(c.style) + ","@ + j_affine(c.transform) + ","@ + j_brush(c.brush) + ","@), j_opt_affine(c.brush_transform));
                assert(out@ == old(out)@ + ("[3,"@ + j_stroke(c.style) + ","@ + j_affine(c.transform) + ","@ + j_brush(c.brush) + ","@ + j_opt_affine(c.brush_transform)));
            }
            out.append(",");
            proof {
                crate::json::lemma_add_assoc(old(out)@, ("[3,"@ + j_stroke(c.style) + ","@ + j_affine(c.transform) + ","@ + j_brush(c.brush) + ","@ + j_opt_affine(c.brush_transform)), ","@);
                assert(out@ == old(out)@ + ("[3,"@ + j_stroke(c.style) + ","@ + j_affine(c.transform) + ","@ + j_brush(c.brush) + ","@ + j_opt_affine(c.brush_transform) + ","@));
            }
            emit_path(out, &c.shape);
            proof {
                crate::json::lemma_add_assoc(old(out)@, ("[3,"@ + j_stroke(c.style) + ","@ + j_affine(c.transform) + ","@ + j_brush(c.brush) + ","@ + j_opt_affine(c.brush_transform) + ","@), j_path(c.shape@));
                assert(out@ == old(out)@ + ("[3,"@ + j_stroke(c.style) + ","@ + j_affine(c.transform) + ","@ + j_brush(c.brush) + ","@ + j_opt_affine(c.brush_transform) + ","@ + j_path(c.shape@)));
            }
            out.append("]");
            proof {
                crate::json::lemma_add_assoc(old(out)@, ("[3,"@ + j_stroke(c.style) + ","@ + j_affine(c.transform) + ","@ + j_brush(c.brush) + ","@ + j_opt_affine(c.brush_transform) + ","@ + j_path(c.shape@)), "]"@);
                assert(out@ == old(out)@ + ("[3,"@ + j_stroke(c.style) + ","@ + j_affine(c.transform) + ","@ + j_brush(c.brush) + ","@ + j_opt_affine(c.brush_transform) + ","@ + j_path(c.shape@) + "]"@));
            }
        },
        RenderCommand::Fill(c) => {
            out.append("[4,");
            proof {
                assert(out@ == old(out)@ + ("[4,"@));
            }
            emit_fill(out, c.fill);
            proof {
                crate::json::lemma_add_assoc(old(out)@, ("[4,"@), dec_u64(fill_code(c.fill)));
                assert(out@ == old(out)@ + ("[4,"@ + dec_u64(fill_code(c.fill))));
            }
            out.append(",");
            proof {
                crate::json::lemma_add_assoc(old(out)@, ("[4,"@ + dec_u64(fill_code(c.fill))), ","@);
                assert(out@ == old(out)@ + ("[4,"@ + dec_u64(fill_code(c.fill)) + ","@));
            }
            emit_affine(out, c.transform);
            proof {
                crate::json::lemma_add_assoc(old(out)@, ("[4,"@ + dec_u64(fill_code(c.fill)) + ","@), j_affine(c.transform));
                assert(out@ == old(out)@ + ("[4,"@ + dec_u64(fill_code(c.fill)) + ","@ + j_affine(c.transform)));
            }
            out.append(",");
            proof {
                crate::json::lemma_add_assoc(old(out)@, ("[4,"@ + dec_u64(fill_code(c.fill)) + ","@ + j_affine(c.transform)), ","@);
                assert(out@ == old(out)@ + ("[4,"@ + dec_u64(fill_code(c.fill)) + ","@ + j_affine(c.transform) + ","@));
            }
            emit_brush(out, &c.brush);
            proof {
                crate::json::lemma_add_assoc(old(out)@, ("[4,"@ + dec_u64(fill_code(c.fill)) + ","@ + j_affine(c.transform) + ","@), j_brush(c.brush));
                assert(out@ == old(out)@ + ("[4,"@ + dec_u64(fill_code(c.fill)) + ","@ + j_affine(c.transform) + ","@ + j_brush(c.brush)));
            }
            out.append(",");
            proof {
                crate::json::lemma_add_assoc(old(out)@, ("[4,"@ + dec_u64(fill_code(c.fill)) + ","@ + j_affine(c.transform) + ","@ + j_brush(c.brush)), ","@);
                assert(out@ == old(out)@ + ("[4,"@ + dec_u64(fill_code(c.fill)) + ","@ + j_affine(c.transform) + ","@ + j_brush(c.brush) + ","@));
            }
            emit_opt_affine(out, &c.brush_transform);
            proof {
                crate::json::lemma_add_assoc(old(out)@, ("[4,"@ + dec_u64(fill_code(c.fill)) + ","@ + j_affine(c.transform) + ","@ + j_brush(c.brush) + ","@), j_opt_affine(c.brush_transform));
                assert(out@ == old(out)@ + ("[4,"@ + dec_u64(fill_code(c.fill)) + ","@ + j_affine(c.transform) + ","@ + j_brush(c.brush) + ","@ + j_opt_affine(c.brush_transform)));
            }
            out.append(",");
            proof {
                crate::json::lemma_add_assoc(old(out)@, ("[4,"@ + dec_u64(fill_code(c.fill)) + ","@ + j_affine(c.transform) + ","@ + j_brush(c.brush) + ","@ + j_opt_affine(c.brush_transform)), ","@);
                assert(out@ == old(out)@ + ("[4,"@ + dec_u64(fill_code(c.fill)) + ","@ + j_affine(c.transform) + ","@ + j_brush(c.brush) + ","@ + j_opt_affine(c.brush_transform) + ","@));
            }
            emit_path(out, &c.shape);
            proof {
                crate::json::lemma_add_assoc(old(out)@, ("[4,"@ + dec_u64(fill_code(c.fill)) + ","@ + j_affine(c.transform) + ","@ + j_brush(c.brush) + ","@ + j_opt_affine(c.brush_transform) + ","@), j_path(c.shape@));
                assert(out@ == old(out)@ + ("[4,"@ + dec_u64(fill_code(c.fill)) + ","@ + j_affine(c.transform) + ","@ + j_brush(c.brush) + ","@ + j_opt_affine(c.brush_transform) + ","@ + j_path(c.shape@)));
            }
            out.append("]");
            proof {
                crate::json::lemma_add_assoc(old(out)@, ("[4,"@ + dec_u64(fill_code(c.fill)) + ","@ + j_affine(c.transform) + ","@ + j_brush(c.brush) + ","@ + j_opt_affine(c.brush_transform) + ","@ + j_path(c.shape@)), "]"@);
                assert(out@ == old(out)@ + ("[4,"@ + dec_u64(fill_code(c.fill)) + ","@ + j_affine(c.transform) + ","@ + j_brush(c.brush) + ","@ + j_opt_affine(c.brush_transform) + ","@ + j_path(c.shape@) + "]"@));
            }
        },
        RenderCommand::GlyphRun(c) => {
            out.append("[5,");
            proof {
                assert(out@ == old(out)@ + ("[5,"@));
            }
            emit_u64(out, c.font_data.resource_id.0 as u64);
            proof {
                crate::json::lemma_add_assoc(old(out)@, ("[5,"@), dec_u64(c.font_data.resource_id.0 as u64));
                assert(out@ == old(out)@ + ("[5,"@ + dec_u64(c.font_data.resource_id.0 as u64)));
            }
            out.append(",");
            proof {
                crate::json::lemma_add_assoc(old(out)@, ("[5,"@ + dec_u64(c.font_data.resource_id.0 as u64)), ","@);
                assert(out@ == old(out)@ + ("[5,"@ + dec_u64(c.font_data.resource_id.0 as u64) + ","@));
            }
            emit_u64(out, c.font_data.index as u64);
            proof {
                crate::json::lemma_add_assoc(old(out)@, ("[5,"@ + dec_u64(c.font_data.resource_id.0 as u64) + ","@), dec_u64(c.font_data.index as u64));
                assert(out@ == old(out)@ + ("[5,"@ + dec_u64(c.font_data.resource_id.0 as u64) + ","@ + dec_u64(c.font_data.index as u64)));
            }
            out.append(",");
            proof {
                crate::json::lemma_add_assoc(old(out)@, ("[5,"@ + dec_u64(c.font_data.resource_id.0 as u64) + ","@ + dec_u64(c.font_data.index as u64)), ","@);
                assert(out@ == old(out)@ + ("[5,"@ + dec_u64(c.font_data.resource_id.0 as u64) + ","@ + dec_u64(c.font_data.index as u64) + ","@));
            }
            emit_u64(out, c.font_size as u64);
            proof {
                crate::json::lemma_add_assoc(old(out)@, ("[5,"@ + dec_u64(c.font_data.resource_id.0 as u64) + ","@ + dec_u64(c.font_data.index as u64) + ","@), dec_u64(c.font_size as u64));
                assert(out@ == old(out)@ + ("[5,"@ + dec_u64(c.font_data.resource_id.0 as u64) + ","@ + dec_u64(c.font_data.index as u64) + ","@ + dec_u64(c.font_size as u64)));
            }
            out.append(",");
            proof {
                crate::json::lemma_add_assoc(old(out)@, ("[5,"@ + dec_u64(c.font_data.resource_id.0 as u64) + ","@ + dec_u64(c.font_data.index as u64) + ","@ + dec_u64(c.font_size as u64)), ","@);
                assert(out@ == old(out)@ + ("[5,"@ + dec_u64(c.font_data.resource_id.0 as u64) + ","@ + dec_u64(c.font_data.index as u64) + ","@ + dec_u64(c.font_size as u64) + ","@));
            }
            emit_bool(out, c.hint);
            proof {
                crate::json::lemma_add_assoc(old(out)@, ("[5,"@ + dec_u64(c.font_data.resource_id.0 as u64) + ","@ + dec_u64(c.font_data.index as u64) + ","@ + dec_u64(c.font_size as u64) + ","@), j_bool(c.hint));
                assert(out@ == old(out)@ + ("[5,"@ + dec_u64(c.font_data.resource_id.0 as u64) + ","@ + dec_u64(c.font_data.index as u64) + ","@ + dec_u64(c.font_size as u64) + ","@ + j_bool(c.hint)));
            }
            out.append(",");
            proof {
                crate::json::lemma_add_assoc(old(out)@, ("[5,"@ + dec_u64(c.font_data.resource_id.0 as u64) + ","@ + dec_u64(c.font_data.index as u64) + ","@ + dec_u64(c.font_size as u64) + ","@ + j_bool(c.hint)), ","@);
                assert(out@ == old(out)@ + ("[5,"@ + dec_u64(c.font_data.resource_id.0 as u64) + ","@ + dec_u64(c.font_data.index as u64) + ","@ + dec_u64(c.font_size as u64) + ","@ + j_bool(c.hint) + ","@));
            }
            emit_coords(out, &c.normalized_coords);
            proof {
                crate::json::lemma_add_assoc(old(out)@, ("[5,"@ + dec_u64(c.font_data.resource_id.0 as u64) + ","@ + dec_u64(c.font_data.index as u64) + ","@ + dec_u64(c.font_size as u64) + ","@ + j_bool(c.hint) + ","@), j_coords(c.normalized_coords@));
                assert(out@ == old(out)@ + ("[5,"@ + dec_u64(c.font_data.resource_id.0 as u64) + ","@ + dec_u64(c.font_data.index as u64) + ","@ + dec_u64(c.font_size as u64) + ","@ + j_bool(c.hint) + ","@ + j_coords(c.normalized_coords@)));
            }
            out.append(",");
            proof {
                crate::json::lemma_add_assoc(old(out)@, ("[5,"@ + dec_u64(c.font_data.resource_id.0 as u64) + ","@ + dec_u64(c.font_data.index as u64) + ","@ + dec_u64(c.font_size as u64) + ","@ + j_bool(c.hint) + ","@ + j_coords(c.normalized_coords@)), ","@);
                assert(out@ == old(out)@ + ("[5,"@ + dec_u64(c.font_data.resource_id.0 as u64) + ","@ + dec_u64(c.font_data.index as u64) + ","@ + dec_u64(c.font_size as u64) + ","@ + j_bool(c.hint) + ","@ + j_coords(c.normalized_coords@) + ","@));
            }
            emit_style(out, &c.style);
            proof {
                crate::json::lemma_add_assoc(old(out)@, ("[5,"@ + dec_u64(c.font_data.resource_id.0 as u64) + ","@ + dec_u64(c.font_data.index as u64) + ","@ + dec_u64(c.font_size as u64) + ","@ + j_bool(c.hint) + ","@ + j_coords(c.normalized_coords@) + ","@), j_style(c.style));
                assert(out@ == old(out)@ + ("[5,"@ + dec_u64(c.font_data.resource_id.0 as u64) + ","@ + dec_u64(c.font_data.index as u64) + ","@ + dec_u64(c.font_size as u64) + ","@ + j_bool(c.hint) + ","@ + j_coords(c.normalized_coords@) + ","@ + j_style(c.style)));
            }
            out.append(",");
            proof {
                crate::json::lemma_add_assoc(old(out)@, ("[5,"@ + dec_u64(c.font_data.resource_id.0 as u64) + ","@ + dec_u64(c.font_data.index as u64) + ","@ + dec_u64(c.font_size as u64) + ","@ + j_bool(c.hint) + ","@ + j_coords(c.normalized_coords@) + ","@ + j_style(c.style)), ","@);
                assert(out@ == old(out)@ + ("[5,"@ + dec_u64(c.font_data.resource_id.0 as u64) + ","@ + dec_u64(c.font_data.index as u64) + ","@ + dec_u64(c.font_size as u64) + ","@ + j_bool(c.hint) + ","@ + j_coords(c.normalized_coords@) + ","@ + j_style(c.style) + ","@));
            }
            emit_brush(out, &c.brush);
            proof {
                crate::json::lemma_add_assoc(old(out)@, ("[5,"@ + dec_u64(c.font_data.resource_id.0 as u64) + ","@ + dec_u64(c.font_data.index as u64) + ","@ + dec_u64(c.font_size as u64) + ","@ + j_bool(c.hint) + ","@ + j_coords(c.normalized_coords@) + ","@ + j_style(c.style) + ","@), j_brush(c.brush));
                assert(out@ == old(out)@ + ("[5,"@ + dec_u64(c.font_data.resource_id.0 as u64) + ","@ + dec_u64(c.font_data.index as u64) + ","@ + dec_u64(c.font_size as u64) + ","@ + j_bool(c.hint) + ","@ + j_coords(c.normalized_coords@) + ","@ + j_style(c.style) + ","@ + j_brush(c.brush)));
            }
            out.append(",");
            proof {
                crate::json::lemma_add_assoc(old(out)@, ("[5,"@ + dec_u64(c.font_data.resource_id.0 as u64) + ","@ + dec_u64(c.font_data.index as u64) + ","@ + dec_u64(c.font_size as u64) + ","@ + j_bool(c.hint) + ","@ + j_coords(c.normalized_coords@) + ","@ + j_style(c.style) + ","@ + j_brush(c.brush)), ","@);
                assert(out@ == old(out)@ + ("[5,"@ + dec_u64(c.font_data.resource_id.0 as u64) + ","@ + dec_u64(c.font_data.index as u64) + ","@ + dec_u64(c.font_size as u64) + ","@ + j_bool(c.hint) + ","@ + j_coords(c.normalized_coords@) + ","@ + j_style(c.style) + ","@ + j_brush(c.brush) + ","@));
            }
            emit_u64(out, c.brush_alpha as u64);
            proof {
                crate::json::lemma_add_assoc(old(out)@, ("[5,"@ + dec_u64(c.font_data.resource_id.0 as u64) + ","@ + dec_u64(c.font_data.index as u64) + ","@ + dec_u64(c.font_size as u64) + ","@ + j_bool(c.hint) + ","@ + j_coords(c.normalized_coords@) + ","@ + j_style(c.style) + ","@ + j_brush(c.brush) + ","@), dec_u64(c.brush_alpha as u64));
                assert(out@ == old(out)@ + ("[5,"@ + dec_u64(c.font_data.resource_id.0 as u64) + ","@ + dec_u64(c.font_data.index as u64) + ","@ + dec_u64(c.font_size as u64) + ","@ + j_bool(c.hint) + ","@ + j_coords(c.normalized_coords@) + ","@ + j_style(c.style) + ","@ + j_brush(c.brush) + ","@ + dec_u64(c.brush_alpha as u64)));
            }
            out.append(",");
            proof {
                crate::json::lemma_add_assoc(old(out)@, ("[5,"@ + dec_u64(c.font_data.resource_id.0 as u64) + ","@ + dec_u64(c.font_data.index as u64) + ","@ + dec_u64(c.font_size as u64) + ","@ + j_bool(c.hint) + ","@ + j_coords(c.normalized_coords@) + ","@ + j_style(c.style) + ","@ + j_brush(c.brush) + ","@ + dec_u64(c.brush_alpha as u64)), ","@);
                assert(out@ == old(out)@ + ("[5,"@ + dec_u64(c.font_data.resource_id.0 as u64) + ","@ + dec_u64(c.font_data.index as u64) + ","@ + dec_u64(c.font_size as u64) + ","@ + j_bool(c.hint) + ","@ + j_coords(c.normalized_coords@) + ","@ + j_style(c.style) + ","@ + j_brush(c.brush) + ","@ + dec_u64(c.brush_alpha as u64) + ","@));
            }
            emit_affine(out, c.transform);
            proof {
                crate::json::lemma_add_assoc(old(out)@, ("[5,"@ + dec_u64(c.font_data.resource_id.0 as u64) + ","@ + dec_u64(c.font_data.index as u64) + ","@ + dec_u64(c.font_size as u64) + ","@ + j_bool(c.hint) + ","@ + j_coords(c.normalized_coords@) + ","@ + j_style(c.style) + ","@ + j_brush(c.brush) + ","@ + dec_u64(c.brush_alpha as u64) + ","@), j_affine(c.transform));
                assert(out@ == old(out)@ + ("[5,"@ + dec_u64(c.font_data.resource_id.0 as u64) + ","@ + dec_u64(c.font_data.index as u64) + ","@ + dec_u64(c.font_size as u64) + ","@ + j_bool(c.hint) + ","@ + j_coords(c.normalized_coords@) + ","@ + j_style(c.style) + ","@ + j_brush(c.brush) + ","@ + dec_u64(c.brush_alpha as u64) + ","@ + j_affine(c.transform)));
            }
            out.append(",");
            proof {
                crate::json::lemma_add_assoc(old(out)@, ("[5,"@ + dec_u64(c.font_data.resource_id.0 as u64) + ","@ + dec_u64(c.font_data.index as u64) + ","@ + dec_u64(c.font_size as u64) + ","@ + j_bool(c.hint) + ","@ + j_coords(c.normalized_coords@) + ","@ + j_style(c.style) + ","@ + j_brush(c.brush) + ","@ + dec_u64(c.brush_alpha as u64) + ","@ + j_affine(c.transform)), ","@);
                assert(out@ == old(out)@ + ("[5,"@ + dec_u64(c.font_data.resource_id.0 as u64) + ","@ + dec_u64(c.font_data.index as u64) + ","@ + dec_u64(c.font_size as u64) + ","@ + j_bool(c.hint) + ","@ + j_coords(c.normalized_coords@) + ","@ + j_style(c.style) + ","@ + j_brush(c.brush) + ","@ + dec_u64(c.brush_alpha as u64) + ","@ + j_affine(c.transform) + ","@));
            }
            emit_opt_affine(out, &c.glyph_transform);
            proof {
                crate::json::lemma_add_assoc(old(out)@, ("[5,"@ + dec_u64(c.font_data.resource_id.0 as u64) + ","@ + dec_u64(c.font_data.index as u64) + ","@ + dec_u64(c.font_size as u64) + ","@ + j_bool(c.hint) + ","@ + j_coords(c.normalized_coords@) + ","@ + j_style(c.style) + ","@ + j_brush(c.brush) + ","@ + dec_u64(c.brush_alpha as u64) + ","@ + j_affine(c.transform) + ","@), j_opt_affine(c.glyph_transform));
                assert(out@ == old(out)@ + ("[5,"@ + dec_u64(c.font_data.resource_id.0 as u64) + ","@ + dec_u64(c.font_data.index as u64) + ","@ + dec_u64(c.font_size as u64) + ","@ + j_bool(c.hint) + ","@ + j_coords(c.normalized_coords@) + ","@ + j_style(c.style) + ","@ + j_brush(c.brush) + ","@ + dec_u64(c.brush_alpha as u64) + ","@ + j_affine(c.transform) + ","@ + j_opt_affine(c.glyph_transform)));
            }
            out.append(",");
            proof {
                crate::json::lemma_add_assoc(old(out)@, ("[5,"@ + dec_u64(c.font_data.resource_id.0 as u64) + ","@ + dec_u64(c.font_data.index as u64) + ","@ + dec_u64(c.font_size as u64) + ","@ + j_bool(c.hint) + ","@ + j_coords(c.normalized_coords@) + ","@ + j_style(c.style) + ","@ + j_brush(c.brush) + ","@ + dec_u64(c.brush_alpha as u64) + ","@ + j_affine(c.transform) + ","@ + j_opt_affine(c.glyph_transform)), ","@);
                assert(out@ == old(out)@ + ("[5,"@ + dec_u64(c.font_data.resource_id.0 as u64) + ","@ + dec_u64(c.font_data.index as u64) + ","@ + dec_u64(c.font_size as u64) + ","@ + j_bool(c.hint) + ","@ + j_coords(c.normalized_coords@) + ","@ + j_style(c.style) + ","@ + j_brush(c.brush) + ","@ + dec_u64(c.brush_alpha as u64) + ","@ + j_affine(c.transform) + ","@ + j_opt_affine(c.glyph_transform) + ","@));
            }
            emit_glyphs(out, &c.glyphs);
            proof {
                crate::json::lemma_add_assoc(old(out)@, ("[5,"@ + dec_u64(c.font_data.resource_id.0 as u64) + ","@ + dec_u64(c.font_data.index as u64) + ","@ + dec_u64(c.font_size as u64) + ","@ + j_bool(c.hint) + ","@ + j_coords(c.normalized_coords@) + ","@ + j_style(c.style) + ","@ + j_brush(c.brush) + ","@ + dec_u64(c.brush_alpha as u64) + ","@ + j_affine(c.transform) + ","@ + j_opt_affine(c.glyph_transform) + ","@), j_glyphs(c.glyphs@));
                assert(out@ == old(out)@ + ("[5,"@ + dec_u64(c.font_data.resource_id.0 as u64) + ","@ + dec_u64(c.font_data.index as u64) + ","@ + dec_u64(c.font_size as u64) + ","@ + j_bool(c.hint) + ","@ + j_coords(c.normalized_coords@) + ","@ + j_style(c.style) + ","@ + j_brush(c.brush) + ","@ + dec_u64(c.brush_alpha as u64) + ","@ + j_affine(c.transform) + ","@ + j_opt_affine(c.glyph_transform) + ","@ + j_glyphs(c.glyphs@)));
            }
            out.append("]");
            proof {
                crate::json::lemma_add_assoc(old(out)@, ("[5,"@ + dec_u64(c.font_data.resource_id.0 as u64) + ","@ + dec_u64(c.font_data.index as u64) + ","@ + dec_u64(c.font_size as u64) + ","@ + j_bool(c.hint) + ","@ + j_coords(c.normalized_coords@) + ","@ + j_style(c.style) + ","@ + j_brush(c.brush) + ","@ + dec_u64(c.brush_alpha as u64) + ","@ + j_affine(c.transform) + ","@ + j_opt_affine(c.glyph_transform) + ","@ + j_glyphs(c.glyphs@)), "]"@);
                assert(out@ == old(out)@ + ("[5,"@ + dec_u64(c.font_data.resource_id.0 as u64) + ","@ + dec_u64(c.font_data.index as u64) + ","@ + dec_u64(c.font_size as u64) + ","@ + j_bool(c.hint) + ","@ + j_coords(c.normalized_coords@) + ","@ + j_style(c.style) + ","@ + j_brush(c.brush) + ","@ + dec_u64(c.brush_alpha as u64) + ","@ + j_affine(c.transform) + ","@ + j_opt_affine(c.glyph_transform) + ","@ + j_glyphs(c.glyphs@) + "]"@));
            }
        },
        RenderCommand::BoxShadow(c) => {
            out.append("[6,");
            proof {
                assert(out@ == old(out)@ + ("[6,"@));
            }
            emit_affine(out, c.transform);
            proof {
                crate::json::lemma_add_assoc(old(out)@, ("[6,"@), j_affine(c.transform));
                assert(out@ == old(out)@ + ("[6,"@ + j_affine(c.transform)));
            }
            out.append(",");
            proof {
                crate::json::lemma_add_assoc(old(out)@, ("[6,"@ + j_affine(c.transform)), ","@);
                assert(out@ == old(out)@ + ("[6,"@ + j_affine(c.transform) + ","@));
            }
            emit_u64(out, c.rect_x0);
            proof {
                crate::json::lemma_add_assoc(old(out)@, ("[6,"@ + j_affine(c.transform) + ","@), dec_u64(c.rect_x0));
                assert(out@ == old(out)@ + ("[6,"@ + j_affine(c.transform) + ","@ + dec_u64(c.rect_x0)));
            }
            out.append(",");
            proof {
                crate::json::lemma_add_assoc(old(out)@, ("[6,"@ + j_affine(c.transform) + ","@ + dec_u64(c.rect_x0)), ","@);
                assert(out@ == old(out)@ + ("[6,"@ + j_affine(c.transform) + ","@ + dec_u64(c.rect_x0) + ","@));
            }
            emit_u64(out, c.rect_y0);
            proof {
                crate::json::lemma_add_assoc(old(out)@, ("[6,"@ + j_affine(c.transform) + ","@ + dec_u64(c.rect_x0) + ","@), dec_u64(c.rect_y0));
                assert(out@ == old(out)@ + ("[6,"@ + j_affine(c.transform) + ","@ + dec_u64(c.rect_x0) + ","@ + dec_u64(c.rect_y0)));
            }
            out.append(",");
            proof {
                crate::json::lemma_add_assoc(old(out)@, ("[6,"@ + j_affine(c.transform) + ","@ + dec_u64(c.rect_x0) + ","@ + dec_u64(c.rect_y0)), ","@);
                assert(out@ == old(out)@ + ("[6,"@ + j_affine(c.transform) + ","@ + dec_u64(c.rect_x0) + ","@ + dec_u64(c.rect_y0) + ","@));
            }
            emit_u64(out, c.rect_x1);
            proof {
                crate::json::lemma_add_assoc(old(out)@, ("[6,"@ + j_affine(c.transform) + ","@ + dec_u64(c.rect_x0) + ","@ + dec_u64(c.rect_y0) + ","@), dec_u64(c.rect_x1));
                assert(out@ == old(out)@ + ("[6,"@ + j_affine(c.transform) + ","@ + dec_u64(c.rect_x0) + ","@ + dec_u64(c.rect_y0) + ","@ + dec_u64(c.rect_x1)));
            }
            out.append(",");
            proof {
                crate::json::lemma_add_assoc(old(out)@, ("[6,"@ + j_affine(c.transform) + ","@ + dec_u64(c.rect_x0) + ","@ + dec_u64(c.rect_y0) + ","@ + dec_u64(c.rect_x1)), ","@);
                assert(out@ == old(out)@ + ("[6,"@ + j_affine(c.transform) + ","@ + dec_u64(c.rect_x0) + ","@ + dec_u64(c.rect_y0) + ","@ + dec_u64(c.rect_x1) + ","@));
            }
            emit_u64(out, c.rect_y1);
            proof {
                crate::json::lemma_add_assoc(old(out)@, ("[6,"@ + j_affine(c.transform) + ","@ + dec_u64(c.rect_x0) + ","@ + dec_u64(c.rect_y0) + ","@ + dec_u64(c.rect_x1) + ","@), dec_u64(c.rect_y1));
                assert(out@ == old(out)@ + ("[6,"@ + j_affine(c.transform) + ","@ + dec_u64(c.rect_x0) + ","@ + dec_u64(c.rect_y0) + ","@ + dec_u64(c.rect_x1) + ","@ + dec_u64(c.rect_y1)));
            }
            out.append(",");
            proof {
                crate::json::lemma_add_assoc(old(out)@, ("[6,"@ + j_affine(c.transform) + ","@ + dec_u64(c.rect_x0) + ","@ + dec_u64(c.rect_y0) + ","@ + dec_u64(c.rect_x1) + ","@ + dec_u64(c.rect_y1)), ","@);
                assert(out@ == old(out)@ + ("[6,"@ + j_affine(c.transform) + ","@ + dec_u64(c.rect_x0) + ","@ + dec_u64(c.rect_y0) + ","@ + dec_u64(c.rect_x1) + ","@ + dec_u64(c.rect_y1) + ","@));
            }
            emit_color(out, c.brush);
            proof {
                crate::json::lemma_add_assoc(old(out)@, ("[6,"@ + j_affine(c.transform) + ","@ + dec_u64(c.rect_x0) + ","@ + dec_u64(c.rect_y0) + ","@ + dec_u64(c.rect_x1) + ","@ + dec_u64(c.rect_y1) + ","@), j_color(c.brush));
                assert(out@ == old(out)@ + ("[6,"@ + j_affine(c.transform) + ","@ + dec_u64(c.rect_x0) + ","@ + dec_u64(c.rect_y0) + ","@ + dec_u64(c.rect_x1) + ","@ + dec_u64(c.rect_y1) + ","@ + j_color(c.brush)));
            }
            out.append(",");
            proof {
                crate::json::lemma_add_assoc(old(out)@, ("[6,"@ + j_affine(c.transform) + ","@ + dec_u64(c.rect_x0) + ","@ + dec_u64(c.rect_y0) + ","@ + dec_u64(c.rect_x1) + ","@ + dec_u64(c.rect_y1) + ","@ + j_color(c.brush)), ","@);
                assert(out@ == old(out)@ + ("[6,"@ + j_affine(c.transform) + ","@ + dec_u64(c.rect_x0) + ","@ + dec_u64(c.rect_y0) + ","@ + dec_u64(c.rect_x1) + ","@ + dec_u64(c.rect_y1) + ","@ + j_color(c.brush) + ","@));
            }
            emit_u64(out, c.radius);
            proof {
                crate::json::lemma_add_assoc(old(out)@, ("[6,"@ + j_affine(c.transform) + ","@ + dec_u64(c.rect_x0) + ","@ + dec_u64(c.rect_y0) + ","@ + dec_u64(c.rect_x1) + ","@ + dec_u64(c.rect_y1) + ","@ + j_color(c.brush) + ","@), dec_u64(c.radius));
                assert(out@ == old(out)@ + ("[6,"@ + j_affine(c.transform) + ","@ + dec_u64(c.rect_x0) + ","@ + dec_u64(c.rect_y0) + ","@ + dec_u64(c.rect_x1) + ","@ + dec_u64(c.rect_y1) + ","@ + j_color(c.brush) + ","@ + dec_u64(c.radius)));
            }
            out.append(",");
            proof {
                crate::json::lemma_add_assoc(old(out)@, ("[6,"@ + j_affine(c.transform) + ","@ + dec_u64(c.rect_x0) + ","@ + dec_u64(c.rect_y0) + ","@ + dec_u64(c.rect_x1) + ","@ + dec_u64(c.rect_y1) + ","@ + j_color(c.brush) + ","@ + dec_u64(c.radius)), ","@);
                assert(out@ == old(out)@ + ("[6,"@ + j_affine(c.transform) + ","@ + dec_u64(c.rect_x0) + ","@ + dec_u64(c.rect_y0) + ","@ + dec_u64(c.rect_x1) + ","@ + dec_u64(c.rect_y1) + ","@ + j_color(c.brush) + ","@ + dec_u64(c.radius) + ","@));
            }
            emit_u64(out, c.std_dev);
            proof {
                crate::json::lemma_add_assoc(old(out)@, ("[6,"@ + j_affine(c.transform) + ","@ + dec_u64(c.rect_x0) + ","@ + dec_u64(c.rect_y0) + ","@ + dec_u64(c.rect_x1) + ","@ + dec_u64(c.rect_y1) + ","@ + j_color(c.brush) + ","@ + dec_u64(c.radius) + ","@), dec_u64(c.std_dev));
                assert(out@ == old(out)@ + ("[6,"@ + j_affine(c.transform) + ","@ + dec_u64(c.rect_x0) + ","@ + dec_u64(c.rect_y0) + ","@ + dec_u64(c.rect_x1) + ","@ + dec_u64(c.rect_y1) + ","@ + j_color(c.brush) + ","@ + dec_u64(c.radius) + ","@ + dec_u64(c.std_dev)));
            }
            out.append("]");
            proof {
                crate::json::lemma_add_assoc(old(out)@, ("[6,"@ + j_affine(c.transform) + ","@ + dec_u64(c.rect_x0) + ","@ + dec_u64(c.rect_y0) + ","@ + dec_u64(c.rect_x1) + ","@ + dec_u64(c.rect_y1) + ","@ + j_color(c.brush) + ","@ + dec_u64(c.radius) + ","@ + dec_u64(c.std_dev)), "]"@);
                assert(out@ == old(out)@ + ("[6,"@ + j_affine(c.transform) + ","@ + dec_u64(c.rect_x0) + ","@ + dec_u64(c.rect_y0) + ","@ + dec_u64(c.rect_x1) + ","@ + dec_u64(c.rect_y1) + ","@ + j_color(c.brush) + ","@ + dec_u64(c.radius) + ","@ + dec_u64(c.std_dev) + "]"@));
            }
        },
    }
}

#[verifier::rlimit(100)]
#[verifier::spinoff_prover]
fn parse_cmd(s: &str, pos: usize) -> (r: Option<(SerializableRenderCommand, usize)>)
    ensures
        r matches Some(p) ==> {
            &&& pos < p.1 <= s@.len()
            &&& s@.subrange(pos as int, p.1 as int) == j_cmd(p.0)
        },
{
    let total = s.unicode_len();
    if pos >= total {
        return None;
    }
    if pos + 1 >= total {
        return None;
    }
    if s.get_char(pos) != '[' {
        return None;
    }
    proof {
        reveal_strlit(",");
        reveal_strlit("[0,");
        reveal_strlit("[1,");
        reveal_strlit("[2]");
        reveal_strlit("[3,");
        reveal_strlit("[4,");
        reveal_strlit("[5,");
        reveal_strlit("[6,");
        reveal_strlit("]");
    }
    let tag = s.get_char(pos + 1);
    if tag == '0' {
        let x0 = match expect_lit(s, pos, "[0,") {
            Some(v) => v,
            None => {
                return None;
            },
        };
        proof {
            crate::json::lemma_subrange_split(s@, pos as int, pos as int, x0 as int);
        }
        let (mix, x1) = match parse_mix(s, x0) {
            Some(v) => v,
            None => {
                return None;
            },
        };
        proof {
            crate::json::lemma_subrange_split(s@, pos as int, x0 as int, x1 as int);
        }
        let x2 = match expect_lit(s, x1, ",") {
            Some(v) => v,
            None => {
                return None;
            },
        };
        proof {
            crate::json::lemma_subrange_split(s@, pos as int, x1 as int, x2 as int);
        }
        let (compose, x3) = match parse_compose(s, x2) {
            Some(v) => v,
            None => {
                return None;
            },
        };
        proof {
            crate::json::lemma_subrange_split(s@, pos as int, x2 as int, x3 as int);
        }
        let x4 = match expect_lit(s, x3, ",") {
            Some(v) => v,
            None => {
                return None;
            },
        };
        proof {
            crate::json::lemma_subrange_split(s@, pos as int, x3 as int, x4 as int);
        }
        let (alpha, x5) = match parse_u32(s, x4) {
            Some(v) => v,
            None => {
                return None;
            },
        };
        proof {
            crate::json::lemma_subrange_split(s@, pos as int, x4 as int, x5 as int);
        }
        let x6 = match expect_lit(s, x5, ",") {
            Some(v) => v,
            None => {
                return None;
            },
        };
        proof {
            crate::json::lemma_subrange_split(s@, pos as int, x5 as int, x6 as int);
        }
        let (transform, x7) = match parse_affine(s, x6) {
            Some(v) => v,
            None => {
                return None;
            },
        };
        proof {
            crate::json::lemma_subrange_split(s@, pos as int, x6 as int, x7 as int);
        }
        let x8 = match expect_lit(s, x7, ",") {
            Some(v) => v,
            None => {
                return None;
            },
        };
        proof {
            crate::json::lemma_subrange_split(s@, pos as int, x7 as int, x8 as int);
        }
        let (clip, x9) = match parse_path(s, x8) {
            Some(v) => v,
            None => {
                return None;
            },
        };
        proof {
            crate::json::lemma_subrange_split(s@, pos as int, x8 as int, x9 as int);
        }
        let x10 = match expect_lit(s, x9, "]") {
            Some(v) => v,
            None => {
                return None;
            },
        };
        proof {
            crate::json::lemma_subrange_split(s@, pos as int, x9 as int, x10 as int);
        }
        let v = RenderCommand::PushLayer(LayerCommand { blend: BlendMode { mix, compose }, alpha, transform, clip });
        proof {
            assert(s@.subrange(pos as int, x10 as int) =~= j_cmd(v));
        }
        Some((v, x10))
    } else if tag == '1' {
        let x0 = match expect_lit(s, pos, "[1,") {
            Some(v) => v,
            None => {
                return None;
            },
        };
        proof {
            crate::json::lemma_subrange_split(s@, pos as int, pos as int, x0 as int);
        }
        let (transform, x1) = match parse_affine(s, x0) {
            Some(v) => v,
            None => {
                return None;
            },
        };
        proof {
            crate::json::lemma_subrange_split(s@, pos as int, x0 as int, x1 as int);
        }
        let x2 = match expect_lit(s, x1, ",") {
            Some(v) => v,
            None => {
                return None;
            },
        };
        proof {
            crate::json::lemma_subrange_split(s@, pos as int, x1 as int, x2 as int);
        }
        let (clip, x3) = match parse_path(s, x2) {
            Some(v) => v,
            None => {
                return None;
            },
        };
        proof {
            crate::json::lemma_subrange_split(s@, pos as int, x2 as int, x3 as int);
        }
        let x4 = match expect_lit(s, x3, "]") {
            Some(v) => v,
            None => {
                return None;
            },
        };
        proof {
            crate::json::lemma_subrange_split(s@, pos as int, x3 as int, x4 as int);
        }
        let v = RenderCommand::PushClipLayer(ClipCommand { transform, clip });
        proof {
            assert(s@.subrange(pos as int, x4 as int) =~= j_cmd(v));
        }
        Some((v, x4))
    } else if tag == '2' {
        let x0 = match expect_lit(s, pos, "[2]") {
            Some(v) => v,
            None => {
                return None;
            },
        };
        proof {
            crate::json::lemma_subrange_split(s@, pos as int, pos as int, x0 as int);
        }
        let v = RenderCommand::PopLayer;
        proof {
            assert(s@.subrange(pos as int, x0 as int) =~= j_cmd(v));
        }
        Some((v, x0))
    } else if tag == '3' {
        let x0 = match expect_lit(s, pos, "[3,") {
            Some(v) => v,
            None => {
                return None;
            },
        };
        proof {
            crate::json::lemma_subrange_split(s@, pos as int, pos as int, x0 as int);
        }
        let (style, x1) = match parse_stroke(s, x0) {
            Some(v) => v,
            None => {
                return None;
            },
        };
        proof {
            crate::json::lemma_subrange_split(s@, pos as int, x0 as int, x1 as int);
        }
        let x2 = match expect_lit(s, x1, ",") {
            Some(v) => v,
            None => {
                return None;
            },
        };
        proof {
            crate::json::lemma_subrange_split(s@, pos as int, x1 as int, x2 as int);
        }
        let (transform, x3) = match parse_affine(s, x2) {
            Some(v) => v,
            None => {
                return None;
            },
        };
        proof {
            crate::json::lemma_subrange_split(s@, pos as int, x2 as int, x3 as int);
        }
        let x4 = match expect_lit(s, x3, ",") {
            Some(v) => v,
            None => {
                return None;
            },
        };
        proof {
            crate::json::lemma_subrange_split(s@, pos as int, x3 as int, x4 as int);
        }
        let (brush, x5) = match parse_brush(s, x4) {
            Some(v) => v,
            None => {
                return None;
            },
        };
        proof {
            crate::json::lemma_subrange_split(s@, pos as int, x4 as int, x5 as int);
        }
        let x6 = match expect_lit(s, x5, ",") {
            Some(v) => v,
            None => {
                return None;
            },
        };
        proof {
            crate::json::lemma_subrange_split(s@, pos as int, x5 as int, x6 as int);
        }
        let (brush_transform, x7) = match parse_opt_affine(s, x6) {
            Some(v) => v,
            None => {
                return None;
            },
        };
        proof {
            crate::json::lemma_subrange_split(s@, pos as int, x6 as int, x7 as int);
        }
        let x8 = match expect_lit(s, x7, ",") {
            Some(v) => v,
            None => {
                return None;
            },
        };
        proof {
            crate::json::lemma_subrange_split(s@, pos as int, x7 as int, x8 as int);
        }
        let (shape, x9) = match parse_path(s, x8) {
            Some(v) => v,
            None => {
                return None;
            },
        };
        proof {
            crate::json::lemma_subrange_split(s@, pos as int, x8 as int, x9 as int);
        }
        let x10 = match expect_lit(s, x9, "]") {
            Some(v) => v,
            None => {
                return None;
            },
        };
        proof {
            crate::json::lemma_subrange_split(s@, pos as int, x9 as int, x10 as int);
        }
        let v = RenderCommand::Stroke(StrokeCommand { style, transform, brush, brush_transform, shape });
        proof {
            assert(s@.subrange(pos as int, x10 as int) =~= j_cmd(v));
        }
        Some((v, x10))
    } else if tag == '4' {
        let x0 = match expect_lit(s, pos, "[4,") {
            Some(v) => v,
            None => {
                return None;
            },
        };
        proof {
            crate::json::lemma_subrange_split(s@, pos as int, pos as int, x0 as int);
        }
        let (fill, x1) = match parse_fill(s, x0) {
            Some(v) => v,
            None => {
                return None;
            },
        };
        proof {
            crate::json::lemma_subrange_split(s@, pos as int, x0 as int, x1 as int);
        }
        let x2 = match expect_lit(s, x1, ",") {
            Some(v) => v,
            None => {
                return None;
            },
        };
        proof {
            crate::json::lemma_subrange_split(s@, pos as int, x1 as int, x2 as int);
        }
        let (transform, x3) = match parse_affine(s, x2) {
            Some(v) => v,
            None => {
                return None;
            },
        };
        proof {
            crate::json::lemma_subrange_split(s@, pos as int, x2 as int, x3 as int);
        }
        let x4 = match expect_lit(s, x3, ",") {
            Some(v) => v,
            None => {
                return None;
            },
        };
        proof {
            crate::json::lemma_subrange_split(s@, pos as int, x3 as int, x4 as int);
        }
        let (brush, x5) = match parse_brush(s, x4) {
            Some(v) => v,
            None => {
                return None;
            },
        };
        proof {
            crate::json::lemma_subrange_split(s@, pos as int, x4 as int, x5 as int);
        }
        let x6 = match expect_lit(s, x5, ",") {
            Some(v) => v,
            None => {
                return None;
            },
        };
        proof {
            crate::json::lemma_subrange_split(s@, pos as int, x5 as int, x6 as int);
        }
        let (brush_transform, x7) = match parse_opt_affine(s, x6) {
            Some(v) => v,
            None => {
                return None;
            },
        };
        proof {
            crate::json::lemma_subrange_split(s@, pos as int, x6 as int, x7 as int);
        }
        let x8 = match expect_lit(s, x7, ",") {
            Some(v) => v,
            None => {
                return None;
            },
        };
        proof {
            crate::json::lemma_subrange_split(s@, pos as int, x7 as int, x8 as int);
        }
        let (shape, x9) = match parse_path(s, x8) {
            Some(v) => v,
            None => {
                return None;
            },
        };
        proof {
            crate::json::lemma_subrange_split(s@, pos as int, x8 as int, x9 as int);
        }
        let x10 = match expect_lit(s, x9, "]") {
            Some(v) => v,
            None => {
                return None;
            },
        };
        proof {
            crate::json::lemma_subrange_split(s@, pos as int, x9 as int, x10 as int);
        }
        let v = RenderCommand::Fill(FillCommand { fill, transform, brush, brush_transform, shape });
        proof {
            assert(s@.subrange(pos as int, x10 as int) =~= j_cmd(v));
        }
        Some((v, x10))
    } else if tag == '5' {
        let x0 = match expect_lit(s, pos, "[5,") {
            Some(v) => v,
            None => {
                return None;
            },
        };
        proof {
            crate::json::lemma_subrange_split(s@, pos as int, pos as int, x0 as int);
        }
        let (rid, x1) = match parse_usize(s, x0) {
            Some(v) => v,
            None => {
                return None;
            },
        };
        proof {
            crate::json::lemma_subrange_split(s@, pos as int, x0 as int, x1 as int);
        }
        let x2 = match expect_lit(s, x1, ",") {
            Some(v) => v,
            None => {
                return None;
            },
        };
        proof {
            crate::json::lemma_subrange_split(s@, pos as int, x1 as int, x2 as int);
        }
        let (findex, x3) = match parse_u32(s, x2) {
            Some(v) => v,
            None => {
                return None;
            },
        };
        proof {
            crate::json::lemma_subrange_split(s@, pos as int, x2 as int, x3 as int);
        }
        let x4 = match expect_lit(s, x3, ",") {
            Some(v) => v,
            None => {
                return None;
            },
        };
        proof {
            crate::json::lemma_subrange_split(s@, pos as int, x3 as int, x4 as int);
        }
        let (font_size, x5) = match parse_u32(s, x4) {
            Some(v) => v,
            None => {
                return None;
            },
        };
        proof {
            crate::json::lemma_subrange_split(s@, pos as int, x4 as int, x5 as int);
        }
        let x6 = match expect_lit(s, x5, ",") {
            Some(v) => v,
            None => {
                return None;
            },
        };
        proof {
            crate::json::lemma_subrange_split(s@, pos as int, x5 as int, x6 as int);
        }
        let (hint, x7) = match parse_bool(s, x6) {
            Some(v) => v,
            None => {
                return None;
            },
        };
        proof {
            crate::json::lemma_subrange_split(s@, pos as int, x6 as int, x7 as int);
        }
        let x8 = match expect_lit(s, x7, ",") {
            Some(v) => v,
            None => {
                return None;
            },
        };
        proof {
            crate::json::lemma_subrange_split(s@, pos as int, x7 as int, x8 as int);
        }
        let (normalized_coords, x9) = match parse_coords(s, x8) {
            Some(v) => v,
            None => {
                return None;
            },
        };
        proof {
            crate::json::lemma_subrange_split(s@, pos as int, x8 as int, x9 as int);
        }
        let x10 = match expect_lit(s, x9, ",") {
            Some(v) => v,
            None => {
                return None;
            },
        };
        proof {
            crate::json::lemma_subrange_split(s@, pos as int, x9 as int, x10 as int);
        }
        let (style, x11) = match parse_style(s, x10) {
            Some(v) => v,
            None => {
                return None;
            },
        };
        proof {
            crate::json::lemma_subrange_split(s@, pos as int, x10 as int, x11 as int);
        }
        let x12 = match expect_lit(s, x11, ",") {
            Some(v) => v,
            None => {
                return None;
            },
        };
        proof {
            crate::json::lemma_subrange_split(s@, pos as int, x11 as int, x12 as int);
        }
        let (brush, x13) = match parse_brush(s, x12) {
            Some(v) => v,
            None => {
                return None;
            },
        };
        proof {
            crate::json::lemma_subrange_split(s@, pos as int, x12 as int, x13 as int);
        }
        let x14 = match expect_lit(s, x13, ",") {
            Some(v) => v,
            None => {
                return None;
            },
        };
        proof {
            crate::json::lemma_subrange_split(s@, pos as int, x13 as int, x14 as int);
        }
        let (brush_alpha, x15) = match parse_u32(s, x14) {
            Some(v) => v,
            None => {
                return None;
            },
        };
        proof {
            crate::json::lemma_subrange_split(s@, pos as int, x14 as int, x15 as int);
        }
        let x16 = match expect_lit(s, x15, ",") {
            Some(v) => v,
            None => {
                return None;
            },
        };
        proof {
            crate::json::lemma_subrange_split(s@, pos as int, x15 as int, x16 as int);
        }
        let (transform, x17) = match parse_affine(s, x16) {
            Some(v) => v,
            None => {
                return None;
            },
        };
        proof {
            crate::json::lemma_subrange_split(s@, pos as int, x16 as int, x17 as int);
        }
        let x18 = match expect_lit(s, x17, ",") {
            Some(v) => v,
            None => {
                return None;
            },
        };
        proof {
            crate::json::lemma_subrange_split(s@, pos as int, x17 as int, x18 as int);
        }
        let (glyph_transform, x19) = match parse_opt_affine(s, x18) {
            Some(v) => v,
            None => {
                return None;
            },
        };
        proof {
            crate::json::lemma_subrange_split(s@, pos as int, x18 as int, x19 as int);
        }
        let x20 = match expect_lit(s, x19, ",") {
            Some(v) => v,
            None => {
                return None;
            },
        };
        proof {
            crate::json::lemma_subrange_split(s@, pos as int, x19 as int, x20 as int);
        }
        let (glyphs, x21) = match parse_glyphs(s, x20) {
            Some(v) => v,
            None => {
                return None;
            },
        };
        proof {
            crate::json::lemma_subrange_split(s@, pos as int, x20 as int, x21 as int);
        }
        let x22 = match expect_lit(s, x21, "]") {
            Some(v) => v,
            None => {
                return None;
            },
        };
        proof {
            crate::json::lemma_subrange_split(s@, pos as int, x21 as int, x22 as int);
        }
        let v = RenderCommand::GlyphRun(GlyphRunCommand { font_data: SerializedFontResourceId { resource_id: SerializedResourceId(rid), index: findex }, font_size, hint, normalized_coords, style, brush, brush_alpha, transform, glyph_transform, glyphs });
        proof {
            assert(s@.subrange(pos as int, x22 as int) =~= j_cmd(v));
        }
        Some((v, x22))
    } else if tag == '6' {
        let x0 = match expect_lit(s, pos, "[6,") {
            Some(v) => v,
            None => {
                return None;
            },
        };
        proof {
            crate::json::lemma_subrange_split(s@, pos as int, pos as int, x0 as int);
        }
        let (transform, x1) = match parse_affine(s, x0) {
            Some(v) => v,
            None => {
                return None;
            },
        };
        proof {
            crate::json::lemma_subrange_split(s@, pos as int, x0 as int, x1 as int);
        }
        let x2 = match expect_lit(s, x1, ",") {
            Some(v) => v,
            None => {
                return None;
            },
        };
        proof {
            crate::json::lemma_subrange_split(s@, pos as int, x1 as int, x2 as int);
        }
        let (rect_x0, x3) = match parse_u64(s, x2) {
            Some(v) => v,
            None => {
                return None;
            },
        };
        proof {
            crate::json::lemma_subrange_split(s@, pos as int, x2 as int, x3 as int);
        }
        let x4 = match expect_lit(s, x3, ",") {
            Some(v) => v,
            None => {
                return None;
            },
        };
        proof {
            crate::json::lemma_subrange_split(s@, pos as int, x3 as int, x4 as int);
        }
        let (rect_y0, x5) = match parse_u64(s, x4) {
            Some(v) => v,
            None => {
                return None;
            },
        };
        proof {
            crate::json::lemma_subrange_split(s@, pos as int, x4 as int, x5 as int);
        }
        let x6 = match expect_lit(s, x5, ",") {
            Some(v) => v,
            None => {
                return None;
            },
        };
        proof {
            crate::json::lemma_subrange_split(s@, pos as int, x5 as int, x6 as int);
        }
        let (rect_x1, x7) = match parse_u64(s, x6) {
            Some(v) => v,
            None => {
                return None;
            },
        };
        proof {
            crate::json::lemma_subrange_split(s@, pos as int, x6 as int, x7 as int);
        }
        let x8 = match expect_lit(s, x7, ",") {
            Some(v) => v,
            None => {
                return None;
            },
        };
        proof {
            crate::json::lemma_subrange_split(s@, pos as int, x7 as int, x8 as int);
        }
        let (rect_y1, x9) = match parse_u64(s, x8) {
            Some(v) => v,
            None => {
                return None;
            },
        };
        proof {
            crate::json::lemma_subrange_split(s@, pos as int, x8 as int, x9 as int);
        }
        let x10 = match expect_lit(s, x9, ",") {
            Some(v) => v,
            None => {
                return None;
            },
        };
        proof {
            crate::json::lemma_subrange_split(s@, pos as int, x9 as int, x10 as int);
        }
        let (brush, x11) = match parse_color(s, x10) {
            Some(v) => v,
            None => {
                return None;
            },
        };
        proof {
            crate::json::lemma_subrange_split(s@, pos as int, x10 as int, x11 as int);
        }
        let x12 = match expect_lit(s, x11, ",") {
            Some(v) => v,
            None => {
                return None;
            },
        };
        proof {
            crate::json::lemma_subrange_split(s@, pos as int, x11 as int, x12 as int);
        }
        let (radius, x13) = match parse_u64(s, x12) {
            Some(v) => v,
            None => {
                return None;
            },
        };
        proof {
            crate::json::lemma_subrange_split(s@, pos as int, x12 as int, x13 as int);
        }
        let x14 = match expect_lit(s, x13, ",") {
            Some(v) => v,
            None => {
                return None;
            },
        };
        proof {
            crate::json::lemma_subrange_split(s@, pos as int, x13 as int, x14 as int);
        }
        let (std_dev, x15) = match parse_u64(s, x14) {
            Some(v) => v,
            None => {
                return None;
            },
        };
        proof {
            crate::json::lemma_subrange_split(s@, pos as int, x14 as int, x15 as int);
        }
        let x16 = match expect_lit(s, x15, "]") {
            Some(v) => v,
            None => {
                return None;
            },
        };
        proof {
            crate::json::lemma_subrange_split(s@, pos as int, x15 as int, x16 as int);
        }
        let v = RenderCommand::BoxShadow(BoxShadowCommand { transform, rect_x0, rect_y0, rect_x1, rect_y1, brush, radius, std_dev });
        proof {
            assert(s@.subrange(pos as int, x16 as int) =~= j_cmd(v));
        }
        Some((v, x16))
    } else {
        None
    }
}

/// The text of the list, elements comma-separated inside brackets.
pub open spec fn j_cmds_items(s: Seq<SerializableRenderCommand>, n: int) -> Seq<char>
    decreases n,
{
    if n <= 0 {
        Seq::empty()
    } else if n == 1 {
        j_cmd(s[0])
    } else {
        j_cmds_items(s, n - 1) + ","@ + j_cmd(s[n - 1])
    }
}


proof fn lemma_j_cmds_items_prefix(s1: Seq<SerializableRenderCommand>, s2: Seq<SerializableRenderCommand>, n: int)
    requires
        0 <= n <= s1.len(),
        n <= s2.len(),
        forall|i: int| 0 <= i < n ==> s1[i] == s2[i],
    ensures
        j_cmds_items(s1, n) == j_cmds_items(s2, n),
    decreases n,
{
    if n > 0 {
        lemma_j_cmds_items_prefix(s1, s2, n - 1);
    }
}

pub open spec fn j_cmds(s: Seq<SerializableRenderCommand>) -> Seq<char> {
    "["@ + j_cmds_items(s, s.len() as int) + "]"@
}

#[verifier::rlimit(100)]
#[verifier::spinoff_prover]
fn emit_cmds(out: &mut String, v: &Vec<SerializableRenderCommand>)
    ensures
        final(out)@ == old(out)@ + j_cmds(v@),
{
    out.append("[");
    let n = v.len();
    let mut i: usize = 0;
    while i < n
        invariant
            i <= n,
            n == v@.len(),
            out@ == old(out)@ + "["@ + j_cmds_items(v@, i as int),
        decreases n - i,
    {
        if i > 0 {
            out.append(",");
        }
        emit_cmd(out, &v[i]);
        proof {
            assert(out@ =~= old(out)@ + "["@ + j_cmds_items(v@, i + 1));
        }
        i = i + 1;
    }
    out.append("]");
    proof {
        assert(out@ =~= old(out)@ + j_cmds(v@));
    }
}

#[verifier::rlimit(100)]
#[verifier::spinoff_prover]
fn parse_cmds(s: &str, pos: usize) -> (r: Option<(Vec<SerializableRenderCommand>, usize)>)
    ensures
        r matches Some(p) ==> {
            &&& pos < p.1 <= s@.len()
            &&& s@.subrange(pos as int, p.1 as int) == j_cmds(p.0@)
        },
        (pos + 2 <= s@.len() && s@[pos as int] == '[' && s@[pos + 1] == ']') ==> (r matches Some(
            p,
        ) && p.0@.len() == 0 && p.1 == pos + 2),
{
    proof {
        reveal_strlit("[");
        reveal_strlit("]");
        reveal_strlit(",");
        if pos + 2 <= s@.len() && s@[pos as int] == '[' {
            assert(s@.subrange(pos as int, (pos + 1) as int) =~= "["@);
        }
    }
    let p0 = match expect_lit(s, pos, "[") {
        Some(v) => v,
        None => {
            return None;
        },
    };
    proof {
        if pos + 2 <= s@.len() && s@[pos + 1] == ']' {
            assert(s@.subrange((pos + 1) as int, (pos + 2) as int) =~= "]"@);
        }
    }
    let total = s.unicode_len();
    if p0 < total && s.get_char(p0) == ']' {
        let p1 = match expect_lit(s, p0, "]") {
            Some(v) => v,
            None => {
                return None;
            },
        };
        let out: Vec<SerializableRenderCommand> = Vec::new();
        proof {
            assert(s@.subrange(pos as int, p1 as int) =~= s@.subrange(pos as int, p0 as int)
                + s@.subrange(p0 as int, p1 as int));
            assert(s@.subrange(pos as int, p1 as int) =~= j_cmds(out@));
        }
        return Some((out, p1));
    }
    let mut out: Vec<SerializableRenderCommand> = Vec::new();
    let mut p = p0;
    proof {
        reveal_strlit("[");
    }
    loop
        invariant
            pos < p <= s@.len(),
            total == s@.len(),
            !(pos + 2 <= s@.len() && s@[pos as int] == '[' && s@[pos + 1] == ']'),
            s@.subrange(pos as int, p as int) == "["@ + j_cmds_items(
                out@,
                out@.len() as int,
            ) + (if out@.len() == 0 {
                Seq::<char>::empty()
            } else {
                ","@
            }),
        decreases s@.len() - p,
    {
        let ghost pre = s@.subrange(pos as int, p as int);
        let (item, np) = match parse_cmd(s, p) {
            Some(v) => v,
            None => {
                return None;
            },
        };
        let ghost preout = out@;
        out.push(item);
        proof {
            lemma_j_cmds_items_prefix(preout, out@, preout.len() as int);
            assert(out@[out@.len() - 1] == item);
            assert(s@.subrange(pos as int, np as int) =~= pre + s@.subrange(p as int, np as int));
            assert(s@.subrange(pos as int, np as int) =~= "["@ + j_cmds_items(
                out@,
                out@.len() as int,
            ));
        }
        if np < total && s.get_char(np) == ']' {
            let p1 = match expect_lit(s, np, "]") {
                Some(v) => v,
                None => {
                    return None;
                },
            };
            proof {
                assert(s@.subrange(pos as int, p1 as int) =~= s@.subrange(pos as int, np as int)
                    + s@.subrange(np as int, p1 as int));
                assert(s@.subrange(pos as int, p1 as int) =~= j_cmds(out@));
            }
            return Some((out, p1));
        }
        p = match expect_lit(s, np, ",") {
            Some(v) => v,
            None => {
                return None;
            },
        };
        proof {
            assert(s@.subrange(pos as int, p as int) =~= s@.subrange(pos as int, np as int)
                + s@.subrange(np as int, p as int));
        }
    }
}

/// Print a command stream as text.
pub fn commands_to_text(cmds: &Vec<SerializableRenderCommand>) -> (r: String)
    ensures
        r@ == j_cmds(cmds@),
{
    let mut out = String::new();
    emit_cmds(&mut out, cmds);
    proof {
        assert(out@ =~= j_cmds(cmds@));
    }
    out
}

/// Parse a command stream; the whole input must be consumed.  On success
/// the input is exactly the printed form of the result.
pub fn parse_commands_text(s: &str) -> (r: Option<Vec<SerializableRenderCommand>>)
    ensures
        r matches Some(v) ==> s@ == j_cmds(v@),
        s@ == j_cmds(Seq::<SerializableRenderCommand>::empty()) ==> (r matches Some(v)
            && v@.len() == 0),
{
    proof {
        if s@ == j_cmds(Seq::<SerializableRenderCommand>::empty()) {
            reveal_strlit("[");
            reveal_strlit("]");
            assert(s@.len() == 2);
            assert(s@[0] == ("["@ + j_cmds_items(Seq::<SerializableRenderCommand>::empty(), 0)
                + "]"@)[0]);
            assert(s@[0] == '[');
            assert(s@[1] == ("["@ + j_cmds_items(Seq::<SerializableRenderCommand>::empty(), 0)
                + "]"@)[1]);
            assert(s@[1] == ']');
        }
    }
    let (v, np) = match parse_cmds(s, 0) {
        Some(x) => x,
        None => {
            return None;
        },
    };
    if np != s.unicode_len() {
        return None;
    }
    proof {
        assert(s@.subrange(0, s@.len() as int) =~= s@);
    }
    Some(v)
}

} // verus!
