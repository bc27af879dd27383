//! Plain-data model of paints, geometry and resources.
//!
//! Scalar fields whose names suggest a coordinate, an angle, a width or an
//! alpha hold IEEE-754 bit patterns (`u64` for double precision, `u32` for
//! single precision).  The archive codec copies these values verbatim and
//! never interprets them arithmetically, so the bit pattern is the value.

use vstd::prelude::*;

verus! {

/// A variation-axis coordinate of a glyph run.
pub type NormalizedCoord = i16;

/// Opaque handle to a registered resource managed by a render context.
#[derive(Copy, Clone, Debug, PartialEq, Eq, Structural, Hash)]
pub struct ResourceId(pub u64);

/// A registered image resource: a [`ResourceId`] plus the image dimensions.
#[derive(Copy, Clone, Debug, PartialEq, Eq, Structural)]
pub struct ImageResource {
    pub id: ResourceId,
    pub width: u32,
    pub height: u32,
}

/// A positioned glyph.  `x` and `y` hold single-precision bit patterns.
#[derive(Copy, Clone, Debug, PartialEq, Eq, Structural)]
pub struct Glyph {
    pub id: u32,
    pub x: u32,
    pub y: u32,
}

/// A 2D point; both coordinates are double-precision bit patterns.
#[derive(Copy, Clone, Debug, PartialEq, Eq, Structural)]
pub struct Point {
    pub x: u64,
    pub y: u64,
}

/// A 2D affine transform: six double-precision coefficient bit patterns.
#[derive(Copy, Clone, Debug, PartialEq, Eq, Structural)]
pub struct Affine {
    pub c0: u64,
    pub c1: u64,
    pub c2: u64,
    pub c3: u64,
    pub c4: u64,
    pub c5: u64,
}

/// One element of a flattened Bezier path.
#[derive(Copy, Clone, Debug, PartialEq, Eq, Structural)]
pub enum PathEl {
    MoveTo(Point),
    LineTo(Point),
    QuadTo(Point, Point),
    CurveTo(Point, Point, Point),
    ClosePath,
}

/// A Bezier path as an element list.
pub type BezPath = Vec<PathEl>;

/// An RGBA color; each channel is a single-precision bit pattern.
#[derive(Copy, Clone, Debug, PartialEq, Eq, Structural)]
pub struct Color {
    pub r: u32,
    pub g: u32,
    pub b: u32,
    pub a: u32,
}

impl Color {
    /// Fully transparent black: every channel is positive zero.
    pub fn transparent() -> (c: Color)
        ensures
            c == (Color { r: 0u32, g: 0u32, b: 0u32, a: 0u32 }),
    {
        Color { r: 0, g: 0, b: 0, a: 0 }
    }
}

/// A line cap style of a stroke.
#[derive(Copy, Clone, Debug, PartialEq, Eq, Structural)]
pub enum Cap {
    Butt,
    Square,
    Round,
}

/// A line join style of a stroke.
#[derive(Copy, Clone, Debug, PartialEq, Eq, Structural)]
pub enum Join {
    Bevel,
    Miter,
    Round,
}

/// A stroke style.  Scalar fields are double-precision bit patterns.
#[derive(Clone, Debug, PartialEq)]
pub struct Stroke {
    pub width: u64,
    pub miter_limit: u64,
    pub start_cap: Cap,
    pub end_cap: Cap,
    pub join: Join,
    pub dash_pattern: Vec<u64>,
    pub dash_offset: u64,
}

/// Equality of strokes up to the dash-pattern contents.
pub open spec fn stroke_eqv(a: Stroke, b: Stroke) -> bool {
    &&& a.width == b.width
    &&& a.miter_limit == b.miter_limit
    &&& a.start_cap == b.start_cap
    &&& a.end_cap == b.end_cap
    &&& a.join == b.join
    &&& a.dash_pattern@ == b.dash_pattern@
    &&& a.dash_offset == b.dash_offset
}

/// A fill rule.
#[derive(Copy, Clone, Debug, PartialEq, Eq, Structural)]
pub enum Fill {
    NonZero,
    EvenOdd,
}

/// A fill or stroke style for a glyph run.
#[derive(Clone, Debug, PartialEq)]
pub enum Style {
    Fill(Fill),
    Stroke(Stroke),
}

/// Equality of glyph-run styles up to dash-pattern contents.
pub open spec fn style_eqv(a: Style, b: Style) -> bool {
    match (a, b) {
        (Style::Fill(fa), Style::Fill(fb)) => fa == fb,
        (Style::Stroke(sa), Style::Stroke(sb)) => stroke_eqv(sa, sb),
        _ => false,
    }
}

/// A color mixing mode of a blend.
#[derive(Copy, Clone, Debug, PartialEq, Eq, Structural)]
pub enum Mix {
    Normal,
    Multiply,
    Screen,
    Overlay,
    Darken,
    Lighten,
    ColorDodge,
    ColorBurn,
    HardLight,
    SoftLight,
    Difference,
    Exclusion,
    Hue,
    Saturation,
    Color,
    Luminosity,
    Clip,
}

/// A compositing mode of a blend.
#[derive(Copy, Clone, Debug, PartialEq, Eq, Structural)]
pub enum Compose {
    Clear,
    Copy,
    Dest,
    SrcOver,
    DestOver,
    SrcIn,
    DestIn,
    SrcOut,
    DestOut,
    SrcAtop,
    DestAtop,
    Xor,
    Plus,
    PlusLighter,
}

/// A blend mode: a mixing mode plus a compositing mode.
#[derive(Copy, Clone, Debug, PartialEq, Eq, Structural)]
pub struct BlendMode {
    pub mix: Mix,
    pub compose: Compose,
}

/// An extend mode of a gradient or image brush.
#[derive(Copy, Clone, Debug, PartialEq, Eq, Structural)]
pub enum Extend {
    Pad,
    Repeat,
    Reflect,
}

/// The color space in which gradient colors are interpolated.
#[derive(Copy, Clone, Debug, PartialEq, Eq, Structural)]
pub enum ColorSpaceTag {
    Srgb,
    LinearSrgb,
    Lab,
    Lch,
    Oklab,
    Oklch,
    Hsl,
    Hwb,
    DisplayP3,
    XyzD65,
}

/// The direction in which hue is interpolated in cylindrical color spaces.
#[derive(Copy, Clone, Debug, PartialEq, Eq, Structural)]
pub enum HueDirection {
    Shorter,
    Longer,
}

/// A gradient color stop.  `offset` is a single-precision bit pattern.
#[derive(Copy, Clone, Debug, PartialEq, Eq, Structural)]
pub struct ColorStop {
    pub offset: u32,
    pub color: Color,
}

/// The geometry of a gradient.  Radii and angles are single-precision
/// bit patterns.
#[derive(Copy, Clone, Debug, PartialEq, Eq, Structural)]
pub enum GradientKind {
    Linear { start: Point, end: Point },
    Radial { start_center: Point, start_radius: u32, end_center: Point, end_radius: u32 },
    Sweep { center: Point, start_angle: u32, end_angle: u32 },
}

/// A gradient brush.
#[derive(Clone, Debug, PartialEq)]
pub struct Gradient {
    pub kind: GradientKind,
    pub extend: Extend,
    pub interpolation_cs: ColorSpaceTag,
    pub hue_direction: HueDirection,
    pub stops: Vec<ColorStop>,
}

/// Equality of gradients up to the stop-list contents.
pub open spec fn gradient_eqv(a: Gradient, b: Gradient) -> bool {
    &&& a.kind == b.kind
    &&& a.extend == b.extend
    &&& a.interpolation_cs == b.interpolation_cs
    &&& a.hue_direction == b.hue_direction
    &&& a.stops@ == b.stops@
}

/// The quality with which an image brush is sampled.
#[derive(Copy, Clone, Debug, PartialEq, Eq, Structural)]
pub enum ImageQuality {
    Low,
    Medium,
    High,
}

/// How an image brush samples its image.  `alpha` is a single-precision
/// bit pattern.
#[derive(Copy, Clone, Debug, PartialEq, Eq, Structural)]
pub struct ImageSampler {
    pub x_extend: Extend,
    pub y_extend: Extend,
    pub quality: ImageQuality,
    pub alpha: u32,
}

impl ImageSampler {
    /// The default sampler: pad extension, medium quality, alpha one.
    pub fn new_default() -> (s: ImageSampler)
        ensures
            s == default_sampler(),
    {
        ImageSampler {
            x_extend: Extend::Pad,
            y_extend: Extend::Pad,
            quality: ImageQuality::Medium,
            alpha: F32_ONE_BITS,
        }
    }
}

/// The bit pattern of the single-precision value one.
pub const F32_ONE_BITS: u32 = 0x3F80_0000;

/// The default image sampler value.
pub open spec fn default_sampler() -> ImageSampler {
    ImageSampler {
        x_extend: Extend::Pad,
        y_extend: Extend::Pad,
        quality: ImageQuality::Medium,
        alpha: F32_ONE_BITS,
    }
}

/// An image brush: an image reference plus sampling parameters.
///
/// The image parameter is an [`ImageResource`] in a live recording and a
/// serialized resource identifier in an archived command stream.
#[derive(Copy, Clone, Debug, PartialEq, Eq, Structural)]
pub struct ImageBrush<Img> {
    pub image: Img,
    pub sampler: ImageSampler,
}

/// A brush: solid color, gradient, or image.
#[derive(Clone, Debug, PartialEq)]
pub enum Brush<Img> {
    Solid(Color),
    Gradient(Gradient),
    Image(ImageBrush<Img>),
}

/// Equality of brushes over the same image-reference type, up to
/// gradient stop-list contents.
pub open spec fn brush_eqv<Img>(a: Brush<Img>, b: Brush<Img>) -> bool {
    match (a, b) {
        (Brush::Solid(ca), Brush::Solid(cb)) => ca == cb,
        (Brush::Gradient(ga), Brush::Gradient(gb)) => gradient_eqv(ga, gb),
        (Brush::Image(ia), Brush::Image(ib)) => ia == ib,
        _ => false,
    }
}

/// An opaque custom paint source description.  `scale` is a
/// double-precision bit pattern.
#[derive(Copy, Clone, Debug, PartialEq, Eq, Structural)]
pub struct CustomPaint {
    pub source_id: u64,
    pub width: u32,
    pub height: u32,
    pub scale: u64,
}

/// A paint as handed to the scene-building methods.
///
/// The custom variant is a backend-specific source token that the portable
/// recording cannot represent; recording collapses it to a fully
/// transparent solid fill, a deliberate lossy fallback rather than an error.
#[derive(Clone, Debug, PartialEq)]
pub enum Paint {
    Solid(Color),
    Gradient(Gradient),
    Image(ImageBrush<ImageResource>),
    Custom(CustomPaint),
}

/// The pixel layout of an image buffer.
///
/// The codec is closed-world over these two layouts; the canonical stored
/// layout is always RGBA8.
#[derive(Copy, Clone, Debug, PartialEq, Eq, Structural)]
pub enum ImageFormat {
    Rgba8,
    Bgra8,
}

/// Whether the color channels of an image are premultiplied by alpha.
#[derive(Copy, Clone, Debug, PartialEq, Eq, Structural)]
pub enum ImageAlphaType {
    Alpha,
    AlphaPremultiplied,
}

/// An image: raw pixel bytes plus their layout and dimensions.
#[derive(Clone, Debug, PartialEq)]
pub struct ImageData {
    pub data: Vec<u8>,
    pub format: ImageFormat,
    pub alpha_type: ImageAlphaType,
    pub width: u32,
    pub height: u32,
}

/// Equality of images up to the pixel-buffer contents.
pub open spec fn image_data_eqv(a: ImageData, b: ImageData) -> bool {
    &&& a.data@ == b.data@
    &&& a.format == b.format
    &&& a.alpha_type == b.alpha_type
    &&& a.width == b.width
    &&& a.height == b.height
}

/// A font: blob bytes plus a face index into a possible collection.
///
/// `id` is a stable content-identity token issued by the caller when the
/// blob is created; two fonts with the same `id` must carry the same bytes.
/// The codec deduplicates by this identity, never by comparing buffers.
#[derive(Clone, Debug, PartialEq)]
pub struct FontData {
    pub id: u64,
    pub data: Vec<u8>,
    pub index: u32,
}

impl FontData {
    pub fn new(id: u64, data: Vec<u8>, index: u32) -> (f: FontData)
        ensures
            f.id == id && f.data@ == data@ && f.index == index,
    {
        FontData { id, data, index }
    }
}

/// Equality of fonts up to blob contents and face index, ignoring the
/// identity token.
pub open spec fn font_content_eqv(a: FontData, b: FontData) -> bool {
    a.data@ == b.data@ && a.index == b.index
}


/// Copy a vector of plain values element by element.
pub fn copy_vec<T: Copy>(v: &Vec<T>) -> (r: Vec<T>)
    ensures
        r@ == v@,
{
    let n = v.len();
    let mut out: Vec<T> = Vec::new();
    let mut i: usize = 0;
    while i < n
        invariant
            i <= n,
            n == v@.len(),
            out@ == v@.take(i as int),
        decreases n - i,
    {
        out.push(v[i]);
        proof {
            assert(out@ =~= v@.take(i + 1 as int));
        }
        i = i + 1;
    }
    proof {
        assert(v@.take(n as int) =~= v@);
    }
    out
}

/// Copy a stroke style.
pub fn copy_stroke(s: &Stroke) -> (r: Stroke)
    ensures
        stroke_eqv(r, *s),
{
    Stroke {
        width: s.width,
        miter_limit: s.miter_limit,
        start_cap: s.start_cap,
        end_cap: s.end_cap,
        join: s.join,
        dash_pattern: copy_vec(&s.dash_pattern),
        dash_offset: s.dash_offset,
    }
}

/// Copy a gradient.
pub fn copy_gradient(g: &Gradient) -> (r: Gradient)
    ensures
        gradient_eqv(r, *g),
{
    Gradient {
        kind: g.kind,
        extend: g.extend,
        interpolation_cs: g.interpolation_cs,
        hue_direction: g.hue_direction,
        stops: copy_vec(&g.stops),
    }
}

/// Copy a glyph-run style.
pub fn copy_style(s: &Style) -> (r: Style)
    ensures
        style_eqv(r, *s),
{
    match s {
        Style::Fill(f) => Style::Fill(*f),
        Style::Stroke(st) => Style::Stroke(copy_stroke(st)),
    }
}

/// Copy an image, pixel buffer included.
pub fn copy_image_data(img: &ImageData) -> (r: ImageData)
    ensures
        image_data_eqv(r, *img),
{
    ImageData {
        data: copy_vec(&img.data),
        format: img.format,
        alpha_type: img.alpha_type,
        width: img.width,
        height: img.height,
    }
}

/// Full equality of fonts: identity, contents and face index.
pub open spec fn font_eqv(a: FontData, b: FontData) -> bool {
    a.id == b.id && a.data@ == b.data@ && a.index == b.index
}

/// Copy a font, blob bytes included.
pub fn copy_font_data(f: &FontData) -> (r: FontData)
    ensures
        font_eqv(r, *f),
{
    FontData { id: f.id, data: copy_vec(&f.data), index: f.index }
}

/// Renderers implement this to handle resource registration separately
/// from scene construction: resources are registered once and then
/// referenced by [`ResourceId`] during painting.
pub trait RenderContext {
    /// Well-formedness of the context's own bookkeeping; what it means is
    /// up to each implementation.
    spec fn ctx_wf(&self) -> bool;

    /// Register an image and return a handle carrying its dimensions.
    fn register_image(&mut self, image: ImageData) -> (r: ImageResource)
        requires
            old(self).ctx_wf(),
        ensures
            final(self).ctx_wf(),
            r.width == image.width,
            r.height == image.height,
    ;

    /// Unregister a previously registered resource.
    fn unregister_resource(&mut self, id: ResourceId)
        requires
            old(self).ctx_wf(),
        ensures
            final(self).ctx_wf(),
    ;
}

} // verus!
