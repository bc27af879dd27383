//! The recording data model: an ordered, replayable command list.

use vstd::prelude::*;

use crate::types::{
    Affine, BezPath, BlendMode, Brush, Color, Fill, FontData, ImageData, ImageResource,
    NormalizedCoord, Paint, RenderContext, ResourceId, Stroke, Style, Glyph,
};

verus! {

/// Pushes a new layer clipped by a shape and composed with previous layers
/// using a blend mode.  `alpha` is a single-precision bit pattern.
#[derive(Clone, Debug, PartialEq)]
pub struct LayerCommand {
    pub blend: BlendMode,
    pub alpha: u32,
    pub transform: Affine,
    pub clip: BezPath,
}

/// Equality of layer commands up to the clip-path contents.
pub open spec fn layer_eqv(a: LayerCommand, b: LayerCommand) -> bool {
    &&& a.blend == b.blend
    &&& a.alpha == b.alpha
    &&& a.transform == b.transform
    &&& a.clip@ == b.clip@
}

/// Pushes a new clip layer clipped by a shape.
#[derive(Clone, Debug, PartialEq)]
pub struct ClipCommand {
    pub transform: Affine,
    pub clip: BezPath,
}

/// Equality of clip commands up to the clip-path contents.
pub open spec fn clip_eqv(a: ClipCommand, b: ClipCommand) -> bool {
    a.transform == b.transform && a.clip@ == b.clip@
}

/// Strokes a shape using a style and a brush.
#[derive(Clone, Debug, PartialEq)]
pub struct StrokeCommand<Img> {
    pub style: Stroke,
    pub transform: Affine,
    pub brush: Brush<Img>,
    pub brush_transform: Option<Affine>,
    pub shape: BezPath,
}

/// Fills a shape using a fill rule and a brush.
#[derive(Clone, Debug, PartialEq)]
pub struct FillCommand<Img> {
    pub fill: Fill,
    pub transform: Affine,
    pub brush: Brush<Img>,
    pub brush_transform: Option<Affine>,
    pub shape: BezPath,
}

/// Draws a run of glyphs.  `font_size` and `brush_alpha` are
/// single-precision bit patterns.
#[derive(Clone, Debug, PartialEq)]
pub struct GlyphRunCommand<Font, Img> {
    pub font_data: Font,
    pub font_size: u32,
    pub hint: bool,
    pub normalized_coords: Vec<NormalizedCoord>,
    pub style: Style,
    pub brush: Brush<Img>,
    pub brush_alpha: u32,
    pub transform: Affine,
    pub glyph_transform: Option<Affine>,
    pub glyphs: Vec<Glyph>,
}

/// Draws a rounded rectangle blurred with a gaussian filter.
/// `rect` holds the corner coordinates; `radius` and `std_dev` are
/// double-precision bit patterns.
#[derive(Copy, Clone, Debug, PartialEq, Eq, Structural)]
pub struct BoxShadowCommand {
    pub transform: Affine,
    pub rect_x0: u64,
    pub rect_y0: u64,
    pub rect_x1: u64,
    pub rect_y1: u64,
    pub brush: Color,
    pub radius: u64,
    pub std_dev: u64,
}

/// One recorded drawing command.
///
/// `Font` is [`FontData`] in a live recording and a serialized font
/// reference in an archived stream; `Img` is [`ImageResource`] live and a
/// serialized resource identifier archived.
#[derive(Clone, Debug, PartialEq)]
pub enum RenderCommand<Font, Img> {
    /// Pushes a layer composed with a blend mode; commands after it are
    /// clipped by its shape until the layer is popped.
    PushLayer(LayerCommand),
    /// Pushes a clip layer.
    PushClipLayer(ClipCommand),
    /// Pops the current layer.
    PopLayer,
    /// Strokes a shape.
    Stroke(StrokeCommand<Img>),
    /// Fills a shape.
    Fill(FillCommand<Img>),
    /// Draws a run of glyphs.
    GlyphRun(GlyphRunCommand<Font, Img>),
    /// Draws a blurred rounded rectangle.
    BoxShadow(BoxShadowCommand),
}

/// A recording of a scene stored as plain data that can be archived and
/// replayed.  `tolerance` is a double-precision bit pattern of the path
/// flattening tolerance.
#[derive(Clone, Debug, PartialEq)]
pub struct Scene {
    pub tolerance: u64,
    pub commands: Vec<RenderCommand<FontData, ImageResource>>,
}

/// The bit pattern of the default flattening tolerance, one tenth.
pub const DEFAULT_TOLERANCE_BITS: u64 = 0x3FB9_9999_9999_999A;

impl Scene {
    /// Create a new empty scene with the default tolerance.
    pub fn new() -> (s: Scene)
        ensures
            s.tolerance == DEFAULT_TOLERANCE_BITS,
            s.commands@ =~= Seq::<RenderCommand<FontData, ImageResource>>::empty(),
    {
        Scene { tolerance: DEFAULT_TOLERANCE_BITS, commands: Vec::new() }
    }

    /// Create a new empty scene with the given tolerance bit pattern.
    pub fn with_tolerance(tolerance: u64) -> (s: Scene)
        ensures
            s.tolerance == tolerance,
            s.commands@ =~= Seq::<RenderCommand<FontData, ImageResource>>::empty(),
    {
        Scene { tolerance, commands: Vec::new() }
    }

    /// Collapse a paint into a recordable brush.  The custom variant
    /// becomes a fully transparent solid fill: a deliberate, documented
    /// lossy fallback, not an error.
    pub fn convert_paint(paint: Paint) -> (b: Brush<ImageResource>)
        ensures
            b == spec_convert_paint(paint),
    {
        match paint {
            Paint::Solid(color) => Brush::Solid(color),
            Paint::Gradient(gradient) => Brush::Gradient(gradient),
            Paint::Image(image) => Brush::Image(image),
            Paint::Custom(_) => Brush::Solid(Color::transparent()),
        }
    }

    /// Clear all recorded commands.
    pub fn reset(&mut self)
        ensures
            final(self).tolerance == old(self).tolerance,
            final(self).commands@ =~= Seq::<RenderCommand<FontData, ImageResource>>::empty(),
    {
        self.commands.clear()
    }

    /// Record a layer push.
    pub fn push_layer(&mut self, blend: BlendMode, alpha: u32, transform: Affine, clip: BezPath)
        ensures
            final(self).tolerance == old(self).tolerance,
            final(self).commands@ == old(self).commands@.push(
                RenderCommand::PushLayer(LayerCommand { blend, alpha, transform, clip }),
            ),
    {
        self.commands.push(RenderCommand::PushLayer(LayerCommand { blend, alpha, transform, clip }));
    }

    /// Record a clip-layer push.
    pub fn push_clip_layer(&mut self, transform: Affine, clip: BezPath)
        ensures
            final(self).tolerance == old(self).tolerance,
            final(self).commands@ == old(self).commands@.push(
                RenderCommand::PushClipLayer(ClipCommand { transform, clip }),
            ),
    {
        self.commands.push(RenderCommand::PushClipLayer(ClipCommand { transform, clip }));
    }

    /// Record a layer pop.
    pub fn pop_layer(&mut self)
        ensures
            final(self).tolerance == old(self).tolerance,
            final(self).commands@ == old(self).commands@.push(
                RenderCommand::<FontData, ImageResource>::PopLayer,
            ),
    {
        self.commands.push(RenderCommand::PopLayer);
    }

    /// Record a stroke.
    pub fn stroke(
        &mut self,
        style: Stroke,
        transform: Affine,
        paint: Paint,
        brush_transform: Option<Affine>,
        shape: BezPath,
    )
        ensures
            final(self).tolerance == old(self).tolerance,
            final(self).commands@ == old(self).commands@.push(
                RenderCommand::Stroke(
                    StrokeCommand {
                        style,
                        transform,
                        brush: spec_convert_paint(paint),
                        brush_transform,
                        shape,
                    },
                ),
            ),
    {
        let brush = Self::convert_paint(paint);
        self.commands.push(
            RenderCommand::Stroke(StrokeCommand { style, transform, brush, brush_transform, shape }),
        );
    }

    /// Record a fill.
    pub fn fill(
        &mut self,
        fill: Fill,
        transform: Affine,
        paint: Paint,
        brush_transform: Option<Affine>,
        shape: BezPath,
    )
        ensures
            final(self).tolerance == old(self).tolerance,
            final(self).commands@ == old(self).commands@.push(
                RenderCommand::Fill(
                    FillCommand {
                        fill,
                        transform,
                        brush: spec_convert_paint(paint),
                        brush_transform,
                        shape,
                    },
                ),
            ),
    {
        let brush = Self::convert_paint(paint);
        self.commands.push(
            RenderCommand::Fill(FillCommand { fill, transform, brush, brush_transform, shape }),
        );
    }

    /// Record a glyph run.
    pub fn draw_glyphs(
        &mut self,
        font: FontData,
        font_size: u32,
        hint: bool,
        normalized_coords: Vec<NormalizedCoord>,
        style: Style,
        paint: Paint,
        brush_alpha: u32,
        transform: Affine,
        glyph_transform: Option<Affine>,
        glyphs: Vec<Glyph>,
    )
        ensures
            final(self).tolerance == old(self).tolerance,
            final(self).commands@ == old(self).commands@.push(
                RenderCommand::GlyphRun(
                    GlyphRunCommand {
                        font_data: font,
                        font_size,
                        hint,
                        normalized_coords,
                        style,
                        brush: spec_convert_paint(paint),
                        brush_alpha,
                        transform,
                        glyph_transform,
                        glyphs,
                    },
                ),
            ),
    {
        let brush = Self::convert_paint(paint);
        self.commands.push(
            RenderCommand::GlyphRun(
                GlyphRunCommand {
                    font_data: font,
                    font_size,
                    hint,
                    normalized_coords,
                    style,
                    brush,
                    brush_alpha,
                    transform,
                    glyph_transform,
                    glyphs,
                },
            ),
        );
    }

    /// Record a box shadow.
    pub fn draw_box_shadow(&mut self, shadow: BoxShadowCommand)
        ensures
            final(self).tolerance == old(self).tolerance,
            final(self).commands@ == old(self).commands@.push(
                RenderCommand::<FontData, ImageResource>::BoxShadow(shadow),
            ),
    {
        self.commands.push(RenderCommand::BoxShadow(shadow));
    }
}

/// What a paint collapses to when recorded.
pub open spec fn spec_convert_paint(paint: Paint) -> Brush<ImageResource> {
    match paint {
        Paint::Solid(color) => Brush::Solid(color),
        Paint::Gradient(gradient) => Brush::Gradient(gradient),
        Paint::Image(image) => Brush::Image(image),
        Paint::Custom(_) => Brush::Solid(Color { r: 0, g: 0, b: 0, a: 0 }),
    }
}

/// A render context for recording: assigns dense resource identifiers and
/// keeps the registered image bytes so a recorded scene can later be
/// archived or replayed.
pub struct RecordingRenderContext {
    images: Vec<(u64, ImageData)>,
    next_resource_id: u64,
}

impl RecordingRenderContext {
    /// Registered identifiers are pairwise distinct and below the counter.
    closed spec fn wf(&self) -> bool {
        &&& forall|i: int, j: int|
            0 <= i < j < self.images@.len() ==> self.images@[i].0 != self.images@[j].0
        &&& forall|i: int| 0 <= i < self.images@.len() ==> self.images@[i].0 < self.next_resource_id
    }

    /// The registered images as a map from identifier to image.
    pub closed spec fn images_map(&self) -> Map<u64, ImageData> {
        Self::entries_map(self.images@)
    }

    /// The identifier the next registration will receive.
    pub closed spec fn spec_next_id(&self) -> u64 {
        self.next_resource_id
    }

    /// The entry list folded into a map, later entries winning.
    pub open spec fn entries_map(entries: Seq<(u64, ImageData)>) -> Map<u64, ImageData>
        decreases entries.len(),
    {
        if entries.len() == 0 {
            Map::empty()
        } else {
            Self::entries_map(entries.drop_last()).insert(
                entries.last().0,
                entries.last().1,
            )
        }
    }

    pub fn new() -> (c: RecordingRenderContext)
        ensures
            c.ctx_wf(),
            c.images_map() == Map::<u64, ImageData>::empty(),
            c.spec_next_id() == 0,
    {
        RecordingRenderContext { images: Vec::new(), next_resource_id: 0 }
    }

    /// Look up the image registered under an identifier.
    pub fn image_data(&self, id: u64) -> (r: Option<&ImageData>)
        ensures
            match r {
                Some(img) => self.images_map().contains_key(id) && *img == self.images_map()[id],
                None => !self.images_map().contains_key(id),
            },
    {
        let n = self.images.len();
        let mut i: usize = n;
        while i > 0
            invariant
                i <= n,
                n == self.images@.len(),
                forall|j: int| i <= j < n ==> self.images@[j].0 != id,
            decreases i,
        {
            i = i - 1;
            if self.images[i].0 == id {
                proof {
                    Self::lemma_entries_map_found(self.images@, i as int, id);
                }
                return Some(&self.images[i].1);
            }
        }
        proof {
            Self::lemma_entries_map_absent(self.images@, id);
        }
        None
    }

    proof fn lemma_entries_map_found(entries: Seq<(u64, ImageData)>, i: int, id: u64)
        requires
            0 <= i < entries.len(),
            entries[i].0 == id,
            forall|j: int| i < j < entries.len() ==> entries[j].0 != id,
        ensures
            Self::entries_map(entries).contains_key(id),
            Self::entries_map(entries)[id] == entries[i].1,
        decreases entries.len(),
    {
        if i + 1 == entries.len() {
        } else {
            Self::lemma_entries_map_found(entries.drop_last(), i, id);
        }
    }

    proof fn lemma_entries_map_absent(entries: Seq<(u64, ImageData)>, id: u64)
        requires
            forall|j: int| 0 <= j < entries.len() ==> entries[j].0 != id,
        ensures
            !Self::entries_map(entries).contains_key(id),
        decreases entries.len(),
    {
        if entries.len() > 0 {
            Self::lemma_entries_map_absent(entries.drop_last(), id);
        }
    }

    proof fn lemma_entries_map_remove(entries: Seq<(u64, ImageData)>, i: int)
        requires
            0 <= i < entries.len(),
            forall|p: int, q: int| 0 <= p < q < entries.len() ==> entries[p].0 != entries[q].0,
        ensures
            Self::entries_map(entries.remove(i)) =~= Self::entries_map(entries).remove(
                entries[i].0,
            ),
        decreases entries.len(),
    {
        let key = entries[i].0;
        if i + 1 == entries.len() {
            assert(entries.remove(i) =~= entries.drop_last());
            assert(forall|j: int|
                0 <= j < entries.drop_last().len() ==> entries.drop_last()[j].0 != key);
            Self::lemma_entries_map_absent(entries.drop_last(), key);
            assert(Self::entries_map(entries).remove(key) =~= Self::entries_map(
                entries.drop_last(),
            ));
        } else {
            let s2 = entries.remove(i);
            assert(s2.drop_last() =~= entries.drop_last().remove(i));
            assert(s2.last() == entries.last());
            Self::lemma_entries_map_remove(entries.drop_last(), i);
            assert(entries.last().0 != key);
            assert(Self::entries_map(entries.drop_last()).remove(key).insert(
                entries.last().0,
                entries.last().1,
            ) =~= Self::entries_map(entries.drop_last()).insert(
                entries.last().0,
                entries.last().1,
            ).remove(key));
        }
    }
}

impl RenderContext for RecordingRenderContext {
    /// The recording context is well formed when its identifier
    /// bookkeeping is.
    closed spec fn ctx_wf(&self) -> bool {
        self.wf()
    }

    /// Register an image under the next dense identifier.
    ///
    /// The identifier space is monotone; once the counter would wrap, no
    /// further distinct identifiers exist, so the saturated registration
    /// stores nothing and promises nothing.  Callers that register
    /// boundedly many images stay below the limit.
    fn register_image(&mut self, image: ImageData) -> (r: ImageResource)
        ensures
            old(self).spec_next_id() < u64::MAX ==> {
                &&& r.id == ResourceId(old(self).spec_next_id())
                &&& final(self).images_map() == old(self).images_map().insert(
                    old(self).spec_next_id(),
                    image,
                )
                &&& final(self).spec_next_id() == old(self).spec_next_id() + 1
            },
    {
        let id = self.next_resource_id;
        let width = image.width;
        let height = image.height;
        if self.next_resource_id < u64::MAX {
            self.next_resource_id = self.next_resource_id + 1;
            self.images.push((id, image));
            proof {
                assert(self.images@.drop_last() =~= old(self).images@);
                assert(self.images@.last() == (id, image));
            }
        }
        ImageResource { id: ResourceId(id), width, height }
    }

    /// Unregister a resource: the mapping loses the identifier.
    fn unregister_resource(&mut self, id: ResourceId)
        ensures
            final(self).images_map() == old(self).images_map().remove(id.0),
            final(self).spec_next_id() == old(self).spec_next_id(),
    {
        let n = self.images.len();
        let mut i: usize = 0;
        while i < n
            invariant
                i <= n,
                n == self.images@.len(),
                self == old(self),
                old(self).wf(),
                forall|j: int| 0 <= j < i ==> self.images@[j].0 != id.0,
            decreases n - i,
        {
            if self.images[i].0 == id.0 {
                proof {
                    Self::lemma_entries_map_remove(self.images@, i as int);
                }
                self.images.remove(i);
                return ;
            }
            i = i + 1;
        }
        proof {
            Self::lemma_entries_map_absent(self.images@, id.0);
            assert(old(self).images_map().remove(id.0) =~= old(self).images_map());
        }
    }
}

} // verus!
