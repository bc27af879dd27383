//! The scene archive: deduplicated, versioned, content-addressed.
//!
//! [`SceneArchive::from_scene`] rewrites a recording so that every inline
//! image and font payload becomes a dense archive-local identifier, and
//! [`SceneArchive::to_scene`] rewrites identifiers back into live handles.

use vstd::prelude::*;
use vstd::string::StringExecFns;

use crate::hashing::{hex_of, sha256_of, sha256_hex};
use crate::recording::{
    clip_eqv, layer_eqv, ClipCommand, FillCommand, GlyphRunCommand, LayerCommand, RenderCommand,
    Scene, StrokeCommand,
};
use crate::types::{
    copy_gradient, copy_image_data, copy_style, copy_vec, font_eqv, gradient_eqv, stroke_eqv,
    style_eqv, Brush, FontData, ImageBrush, ImageData, ImageFormat, ImageResource,
    RenderContext, ResourceId,
};
use crate::font_writer::FontWriter;

verus! {

/// A dense, zero-based identifier of a serialized resource, unique per
/// archive and per resource kind.
#[derive(Copy, Clone, Debug, PartialEq, Eq, Structural, Hash)]
pub struct SerializedResourceId(pub usize);

/// A reference to a font in a serialized scene: the font file's identifier
/// plus a face index into a possible collection.
#[derive(Copy, Clone, Debug, PartialEq, Eq, Structural)]
pub struct SerializedFontResourceId {
    pub resource_id: SerializedResourceId,
    pub index: u32,
}

/// A render command with resources replaced by identifiers.
pub type SerializableRenderCommand = RenderCommand<SerializedFontResourceId, SerializedResourceId>;

/// A brush with images replaced by identifiers.
pub type SerializableBrush = Brush<SerializedResourceId>;

/// Options of the write path.
#[derive(Copy, Clone, Debug)]
pub struct SerializeConfig {
    subset_fonts: bool,
    woff2_fonts: bool,
}

impl SerializeConfig {
    /// Whether fonts are subset to the glyphs used in the scene.
    pub closed spec fn spec_subset_fonts(&self) -> bool {
        self.subset_fonts
    }

    /// Whether stored font data is WOFF2-compressed.
    pub closed spec fn spec_woff2_fonts(&self) -> bool {
        self.woff2_fonts
    }

    /// The default configuration: no subsetting, no compression.
    pub fn new() -> (c: SerializeConfig)
        ensures
            !c.spec_subset_fonts(),
            !c.spec_woff2_fonts(),
    {
        SerializeConfig { subset_fonts: false, woff2_fonts: false }
    }

    /// Subset fonts to only the glyphs used in the scene.
    pub fn with_subset_fonts(self, subset_fonts: bool) -> (c: SerializeConfig)
        ensures
            c.spec_subset_fonts() == subset_fonts,
            c.spec_woff2_fonts() == self.spec_woff2_fonts(),
    {
        SerializeConfig { subset_fonts, woff2_fonts: self.woff2_fonts }
    }

    /// WOFF2-compress stored font data.
    pub fn with_woff2_fonts(self, woff2_fonts: bool) -> (c: SerializeConfig)
        ensures
            c.spec_woff2_fonts() == woff2_fonts,
            c.spec_subset_fonts() == self.spec_subset_fonts(),
    {
        SerializeConfig { subset_fonts: self.subset_fonts, woff2_fonts }
    }

    /// Whether subsetting is enabled.
    pub fn subset_fonts_enabled(&self) -> (r: bool)
        ensures
            r == self.spec_subset_fonts(),
    {
        self.subset_fonts
    }

    /// Whether WOFF2 compression is enabled.
    pub fn woff2_fonts_enabled(&self) -> (r: bool)
        ensures
            r == self.spec_woff2_fonts(),
    {
        self.woff2_fonts
    }
}

/// The kind of a stored resource.
#[derive(Copy, Clone, Debug, PartialEq, Eq, Structural)]
pub enum ResourceKind {
    Image,
    Font,
}

/// Metadata of one stored resource.
#[derive(Clone, Debug, PartialEq)]
pub struct ResourceEntry {
    pub id: SerializedResourceId,
    pub kind: ResourceKind,
    /// The size of the raw decompressed resource data in bytes.
    pub size: usize,
    /// Lower-case hex SHA-256 digest of the stored resource content.
    pub sha256_hash: String,
    /// Archive-relative path of the resource file.
    pub path: String,
}

/// Metadata of an image resource.  The stored bytes are always canonical
/// RGBA8; the original layout is kept so reads can reverse the
/// normalization.
#[derive(Clone, Debug, PartialEq)]
pub struct ImageMetadata {
    pub entry: ResourceEntry,
    pub format: ImageFormat,
    pub alpha_type: crate::types::ImageAlphaType,
    pub width: u32,
    pub height: u32,
}

/// Metadata of a font resource.
#[derive(Clone, Debug, PartialEq)]
pub struct FontMetadata {
    pub entry: ResourceEntry,
}

/// The versioned resource manifest stored in the archive.
#[derive(Clone, Debug, PartialEq)]
pub struct ResourceManifest {
    /// Version of the archive format.
    pub version: u32,
    /// Scene tolerance bit pattern (used for path flattening).
    pub tolerance: u64,
    pub images: Vec<ImageMetadata>,
    pub fonts: Vec<FontMetadata>,
}

impl ResourceManifest {
    /// Current archive format version.  Bump this when the format changes.
    pub const CURRENT_VERSION: u32 = 1;

    pub fn new(tolerance: u64) -> (m: ResourceManifest)
        ensures
            m.version == Self::CURRENT_VERSION,
            m.tolerance == tolerance,
            m.images@ =~= Seq::<ImageMetadata>::empty(),
            m.fonts@ =~= Seq::<FontMetadata>::empty(),
    {
        ResourceManifest { version: 1, tolerance, images: Vec::new(), fonts: Vec::new() }
    }
}

/// Everything that can go wrong while building, writing or reading an
/// archive.  Every failure aborts the whole operation; there is no
/// partial archive and no partial recording.
#[derive(Debug)]
pub enum ArchiveError {
    /// A container read or write failed.
    Io(String),
    /// The manifest or the command stream is not well-formed text.
    Json(String),
    /// The zip container is malformed.
    Zip(String),
    /// PNG encoding or decoding failed.
    Image(String),
    /// Font subsetting, compression or decompression failed.
    FontProcessing(String),
    /// An unsupported pixel format or a malformed pixel buffer.
    InvalidFormat(String),
    /// A command references an identifier absent from the resource table.
    ResourceNotFound(SerializedResourceId),
    /// The manifest's version is not the supported one.
    UnsupportedVersion(u32),
}

impl ArchiveError {
    /// A human-readable description of the failure.
    pub fn message(&self) -> (r: String)
        ensures
            r@ == message_of(*self),
    {
        let mut out = String::new();
        match self {
            ArchiveError::Io(m) => {
                out.append("IO error: ");
                out.append(m.as_str());
            },
            ArchiveError::Json(m) => {
                out.append("JSON error: ");
                out.append(m.as_str());
            },
            ArchiveError::Zip(m) => {
                out.append("Zip error: ");
                out.append(m.as_str());
            },
            ArchiveError::Image(m) => {
                out.append("Image error: ");
                out.append(m.as_str());
            },
            ArchiveError::FontProcessing(m) => {
                out.append("Font processing error: ");
                out.append(m.as_str());
            },
            ArchiveError::InvalidFormat(m) => {
                out.append("Invalid format: ");
                out.append(m.as_str());
            },
            ArchiveError::ResourceNotFound(id) => {
                out.append("Resource not found: ");
                crate::json::emit_u64(&mut out, id.0 as u64);
            },
            ArchiveError::UnsupportedVersion(v) => {
                out.append("Unsupported version: ");
                crate::json::emit_u64(&mut out, *v as u64);
            },
        }
        proof {
            assert(out@ =~= message_of(*self));
        }
        out
    }
}

/// The message text of each failure.
pub open spec fn message_of(e: ArchiveError) -> Seq<char> {
    match e {
        ArchiveError::Io(m) => "IO error: "@ + m@,
        ArchiveError::Json(m) => "JSON error: "@ + m@,
        ArchiveError::Zip(m) => "Zip error: "@ + m@,
        ArchiveError::Image(m) => "Image error: "@ + m@,
        ArchiveError::FontProcessing(m) => "Font processing error: "@ + m@,
        ArchiveError::InvalidFormat(m) => "Invalid format: "@ + m@,
        ArchiveError::ResourceNotFound(id) => "Resource not found: "@ + crate::json::dec_u64(
            id.0 as u64,
        ),
        ArchiveError::UnsupportedVersion(v) => "Unsupported version: "@ + crate::json::dec_u64(
            v as u64,
        ),
    }
}

/// A scene archive: the manifest, the rewritten command stream, and the
/// stored font and image payloads.
#[derive(Debug)]
pub struct SceneArchive {
    pub manifest: ResourceManifest,
    pub commands: Vec<SerializableRenderCommand>,
    /// Font data, one entry per font resource, as stored (possibly
    /// WOFF2-compressed).
    pub fonts: Vec<Vec<u8>>,
    /// Image data, one entry per image resource, canonical RGBA8.
    pub images: Vec<ImageData>,
}

// ------------------------------------------------------------------
// Pixel-format normalization
// ------------------------------------------------------------------

/// The byte at index `i` after swapping the first and third byte of every
/// complete four-byte pixel.
pub open spec fn rb_swapped_at(data: Seq<u8>, i: int) -> u8 {
    let full = data.len() - (data.len() % 4);
    if i < full {
        if i % 4 == 0 {
            data[i + 2]
        } else if i % 4 == 2 {
            data[i - 2]
        } else {
            data[i]
        }
    } else {
        data[i]
    }
}

/// A pixel buffer with the red and blue channels of every complete
/// four-byte pixel exchanged.  The exchange is its own inverse.
pub open spec fn rb_swapped(data: Seq<u8>) -> Seq<u8> {
    Seq::new(data.len(), |i: int| rb_swapped_at(data, i))
}

/// Swapping red and blue twice restores the original buffer.
pub proof fn lemma_rb_swapped_involutive(data: Seq<u8>)
    ensures
        rb_swapped(rb_swapped(data)) =~= data,
{
    let once = rb_swapped(data);
    assert forall|i: int| 0 <= i < data.len() implies rb_swapped(once)[i] == data[i] by {
        let full = data.len() - (data.len() % 4);
        if i < full {
            if i % 4 == 0 {
                assert((i + 2) % 4 == 2);
            } else if i % 4 == 2 {
                assert((i - 2) % 4 == 0);
            }
        }
    }
}

/// The canonical RGBA8 bytes of an image.
pub open spec fn to_rgba_bytes(img: ImageData) -> Seq<u8> {
    if img.format == ImageFormat::Rgba8 {
        img.data@
    } else {
        rb_swapped(img.data@)
    }
}

/// Canonical RGBA8 bytes converted back to a target layout.
pub open spec fn from_rgba_bytes(rgba: Seq<u8>, target: ImageFormat) -> Seq<u8> {
    if target == ImageFormat::Rgba8 {
        rgba
    } else {
        rb_swapped(rgba)
    }
}

/// Exchange the red and blue channel of every complete four-byte pixel.
fn swap_rb(data: &Vec<u8>) -> (r: Vec<u8>)
    ensures
        r@ == rb_swapped(data@),
{
    let n = data.len();
    let mut out = copy_vec(data);
    let mut i: usize = 0;
    while n - i >= 4
        invariant
            n == data@.len(),
            out@.len() == n,
            i % 4 == 0,
            i + 4 <= n + 4,
            forall|j: int| 0 <= j < i ==> out@[j] == rb_swapped_at(data@, j),
            forall|j: int| i <= j < n ==> out@[j] == data@[j],
        decreases n - i,
    {
        let t = out[i];
        let u = out[i + 2];
        out.set(i, u);
        out.set(i + 2, t);
        proof {
            assert(i % 4 == 0 && (i + 1) % 4 == 1 && (i + 2) % 4 == 2 && (i + 3) % 4 == 3);
            assert(i + 4 <= n - (n % 4)) by {
                assert(i % 4 == 0 && i + 4 <= n);
            };
        }
        i = i + 4;
    }
    proof {
        assert(i >= n - (n % 4)) by {
            assert(i % 4 == 0 && i + 4 > n);
        };
        assert(out@ =~= rb_swapped(data@));
    }
    out
}

/// Convert an image's pixels to canonical RGBA8.
pub fn convert_to_rgba(image: &ImageData) -> (r: Vec<u8>)
    ensures
        r@ == to_rgba_bytes(*image),
{
    match image.format {
        ImageFormat::Rgba8 => copy_vec(&image.data),
        ImageFormat::Bgra8 => swap_rb(&image.data),
    }
}

/// Convert canonical RGBA8 pixels to a target layout.
pub fn convert_from_rgba(rgba: &Vec<u8>, target: ImageFormat) -> (r: Vec<u8>)
    ensures
        r@ == from_rgba_bytes(rgba@, target),
{
    match target {
        ImageFormat::Rgba8 => copy_vec(rgba),
        ImageFormat::Bgra8 => swap_rb(rgba),
    }
}

// ------------------------------------------------------------------
// The write-side resource model
// ------------------------------------------------------------------

/// The image resource a command references, if any.
pub open spec fn cmd_image_res(c: RenderCommand<FontData, ImageResource>) -> Option<ImageResource> {
    match c {
        RenderCommand::Stroke(s) => match s.brush {
            Brush::Image(ib) => Some(ib.image),
            _ => None,
        },
        RenderCommand::Fill(f) => match f.brush {
            Brush::Image(ib) => Some(ib.image),
            _ => None,
        },
        RenderCommand::GlyphRun(g) => match g.brush {
            Brush::Image(ib) => Some(ib.image),
            _ => None,
        },
        _ => None,
    }
}

/// The deduplication key of a font: the blob identity plus the face index
/// when subsetting is on, or face zero when it is off, so that faces
/// sharing one collection collapse into one stored blob.
pub open spec fn font_key(f: FontData, subset: bool) -> (u64, u32) {
    if subset {
        (f.id, f.index)
    } else {
        (f.id, 0)
    }
}

/// The font a command references, if any.
pub open spec fn cmd_font(c: RenderCommand<FontData, ImageResource>) -> Option<FontData> {
    match c {
        RenderCommand::GlyphRun(g) => Some(g.font_data),
        _ => None,
    }
}

/// Image identifiers in order of first reference over a command prefix.
pub open spec fn collect_img_ids(cmds: Seq<RenderCommand<FontData, ImageResource>>) -> Seq<u64>
    decreases cmds.len(),
{
    if cmds.len() == 0 {
        Seq::empty()
    } else {
        let p = collect_img_ids(cmds.drop_last());
        match cmd_image_res(cmds.last()) {
            Some(res) => if p.contains(res.id.0) {
                p
            } else {
                p.push(res.id.0)
            },
            None => p,
        }
    }
}

/// Font deduplication keys in order of first reference.
pub open spec fn collect_font_keys(
    cmds: Seq<RenderCommand<FontData, ImageResource>>,
    subset: bool,
) -> Seq<(u64, u32)>
    decreases cmds.len(),
{
    if cmds.len() == 0 {
        Seq::empty()
    } else {
        let p = collect_font_keys(cmds.drop_last(), subset);
        match cmd_font(cmds.last()) {
            Some(f) => if p.contains(font_key(f, subset)) {
                p
            } else {
                p.push(font_key(f, subset))
            },
            None => p,
        }
    }
}

/// The font values registered, in key order: the first font seen with
/// each deduplication key.
pub open spec fn collect_fonts(
    cmds: Seq<RenderCommand<FontData, ImageResource>>,
    subset: bool,
) -> Seq<FontData>
    decreases cmds.len(),
{
    if cmds.len() == 0 {
        Seq::empty()
    } else {
        let p = collect_fonts(cmds.drop_last(), subset);
        let pk = collect_font_keys(cmds.drop_last(), subset);
        match cmd_font(cmds.last()) {
            Some(f) => if pk.contains(font_key(f, subset)) {
                p
            } else {
                p.push(f)
            },
            None => p,
        }
    }
}

/// The index of the first occurrence of a value in a duplicate-free list.
pub open spec fn idx_in<T>(s: Seq<T>, x: T) -> int
    decreases s.len(),
{
    if s.len() == 0 {
        0
    } else if s.drop_last().contains(x) {
        idx_in(s.drop_last(), x)
    } else {
        s.len() - 1
    }
}

/// A list with no repeated element.
pub open spec fn distinct<T>(s: Seq<T>) -> bool {
    forall|i: int, j: int| 0 <= i < j < s.len() ==> s[i] != s[j]
}

/// In a duplicate-free list, `idx_in` finds the position of a member.
pub proof fn lemma_idx_in_position<T>(s: Seq<T>, k: int)
    requires
        distinct(s),
        0 <= k < s.len(),
    ensures
        idx_in(s, s[k]) == k,
        s.contains(s[k]),
    decreases s.len(),
{
    if k + 1 == s.len() {
        assert(!s.drop_last().contains(s[k])) by {
            assert(forall|i: int| 0 <= i < s.len() - 1 ==> s[i] != s[k]);
        };
    } else {
        assert(distinct(s.drop_last()));
        lemma_idx_in_position(s.drop_last(), k);
        assert(s.drop_last()[k] == s[k]);
    }
}

/// `idx_in` is stable when a list containing the value grows at the end.
pub proof fn lemma_idx_in_stable<T>(p: Seq<T>, q: Seq<T>, x: T)
    requires
        p.is_prefix_of(q),
        p.contains(x),
    ensures
        idx_in(q, x) == idx_in(p, x),
        q.contains(x),
    decreases q.len(),
{
    if q.len() == p.len() {
        assert(p =~= q);
    } else {
        assert(p.is_prefix_of(q.drop_last()));
        lemma_idx_in_stable(p, q.drop_last(), x);
    }
}

/// The prefix relation composes.
pub proof fn lemma_prefix_transitive<T>(a: Seq<T>, b: Seq<T>, c: Seq<T>)
    requires
        a.is_prefix_of(b),
        b.is_prefix_of(c),
    ensures
        a.is_prefix_of(c),
{
    assert(a =~= c.subrange(0, a.len() as int));
}

/// Collected identifier lists only grow as the command prefix grows.
pub proof fn lemma_collect_img_ids_prefix(
    s: Seq<RenderCommand<FontData, ImageResource>>,
    i: int,
)
    requires
        0 <= i <= s.len(),
    ensures
        collect_img_ids(s.take(i)).is_prefix_of(collect_img_ids(s)),
    decreases s.len() - i,
{
    if i == s.len() {
        assert(s.take(i) =~= s);
        assert(collect_img_ids(s.take(i)).is_prefix_of(collect_img_ids(s)));
    } else {
        lemma_collect_img_ids_prefix(s, i + 1);
        let t1 = s.take(i + 1);
        assert(t1.drop_last() =~= s.take(i));
        assert(collect_img_ids(s.take(i)).is_prefix_of(collect_img_ids(t1)));
        lemma_prefix_transitive(
            collect_img_ids(s.take(i)),
            collect_img_ids(t1),
            collect_img_ids(s),
        );
    }
}

/// Collected font-key lists only grow as the command prefix grows.
pub proof fn lemma_collect_font_keys_prefix(
    s: Seq<RenderCommand<FontData, ImageResource>>,
    i: int,
    subset: bool,
)
    requires
        0 <= i <= s.len(),
    ensures
        collect_font_keys(s.take(i), subset).is_prefix_of(collect_font_keys(s, subset)),
    decreases s.len() - i,
{
    if i == s.len() {
        assert(s.take(i) =~= s);
        assert(collect_font_keys(s.take(i), subset).is_prefix_of(collect_font_keys(s, subset)));
    } else {
        lemma_collect_font_keys_prefix(s, i + 1, subset);
        let t1 = s.take(i + 1);
        assert(t1.drop_last() =~= s.take(i));
        assert(collect_font_keys(s.take(i), subset).is_prefix_of(
            collect_font_keys(t1, subset),
        ));
        lemma_prefix_transitive(
            collect_font_keys(s.take(i), subset),
            collect_font_keys(t1, subset),
            collect_font_keys(s, subset),
        );
    }
}

/// The collected identifier list never repeats an identifier.
pub proof fn lemma_collect_img_ids_distinct(s: Seq<RenderCommand<FontData, ImageResource>>)
    ensures
        distinct(collect_img_ids(s)),
    decreases s.len(),
{
    if s.len() > 0 {
        lemma_collect_img_ids_distinct(s.drop_last());
    }
}

/// The collected key list never repeats a key, and fonts and keys line up:
/// there are as many fonts as keys and each font carries its key.
pub proof fn lemma_collect_fonts_align(
    s: Seq<RenderCommand<FontData, ImageResource>>,
    subset: bool,
)
    ensures
        distinct(collect_font_keys(s, subset)),
        collect_fonts(s, subset).len() == collect_font_keys(s, subset).len(),
        forall|j: int|
            0 <= j < collect_fonts(s, subset).len() ==> font_key(
                collect_fonts(s, subset)[j],
                subset,
            ) == collect_font_keys(s, subset)[j],
    decreases s.len(),
{
    if s.len() > 0 {
        lemma_collect_fonts_align(s.drop_last(), subset);
    }
}

// ------------------------------------------------------------------
// The serialization relation
// ------------------------------------------------------------------

/// How a live brush serializes against the image-identifier table.
pub open spec fn ser_brush_rel(
    b: Brush<ImageResource>,
    s: SerializableBrush,
    img_ids: Seq<u64>,
) -> bool {
    match (b, s) {
        (Brush::Solid(c1), Brush::Solid(c2)) => c1 == c2,
        (Brush::Gradient(g1), Brush::Gradient(g2)) => gradient_eqv(g2, g1),
        (Brush::Image(i1), Brush::Image(i2)) => {
            &&& i2.image.0 as int == idx_in(img_ids, i1.image.id.0)
            &&& i2.sampler == i1.sampler
        },
        _ => false,
    }
}

/// How a live command serializes against the resource tables.
pub open spec fn ser_cmd_rel(
    c: RenderCommand<FontData, ImageResource>,
    s: SerializableRenderCommand,
    img_ids: Seq<u64>,
    font_keys: Seq<(u64, u32)>,
    subset: bool,
) -> bool {
    match (c, s) {
        (RenderCommand::PushLayer(a), RenderCommand::PushLayer(b)) => layer_eqv(b, a),
        (RenderCommand::PushClipLayer(a), RenderCommand::PushClipLayer(b)) => clip_eqv(b, a),
        (RenderCommand::PopLayer, RenderCommand::PopLayer) => true,
        (RenderCommand::Stroke(a), RenderCommand::Stroke(b)) => {
            &&& stroke_eqv(b.style, a.style)
            &&& b.transform == a.transform
            &&& ser_brush_rel(a.brush, b.brush, img_ids)
            &&& b.brush_transform == a.brush_transform
            &&& b.shape@ == a.shape@
        },
        (RenderCommand::Fill(a), RenderCommand::Fill(b)) => {
            &&& b.fill == a.fill
            &&& b.transform == a.transform
            &&& ser_brush_rel(a.brush, b.brush, img_ids)
            &&& b.brush_transform == a.brush_transform
            &&& b.shape@ == a.shape@
        },
        (RenderCommand::GlyphRun(a), RenderCommand::GlyphRun(b)) => {
            &&& b.font_data.resource_id.0 as int == idx_in(font_keys, font_key(a.font_data, subset))
            &&& b.font_data.index == (if subset {
                0u32
            } else {
                a.font_data.index
            })
            &&& b.font_size == a.font_size
            &&& b.hint == a.hint
            &&& b.normalized_coords@ == a.normalized_coords@
            &&& style_eqv(b.style, a.style)
            &&& ser_brush_rel(a.brush, b.brush, img_ids)
            &&& b.brush_alpha == a.brush_alpha
            &&& b.transform == a.transform
            &&& b.glyph_transform == a.glyph_transform
            &&& b.glyphs@ == a.glyphs@
        },
        (RenderCommand::BoxShadow(a), RenderCommand::BoxShadow(b)) => a == b,
        _ => false,
    }
}

/// The stored bytes of a font under a configuration (subsetting aside,
/// which never reaches storage in this build).
pub open spec fn stored_font_bytes(f: FontData, config: SerializeConfig) -> Seq<u8> {
    if config.spec_woff2_fonts() {
        crate::font_writer::woff2_of(f.data@)
    } else {
        f.data@
    }
}

/// The manifest entry of the image at position `j`.
pub open spec fn image_entry_matches(m: ImageMetadata, j: int, orig: ImageData) -> bool {
    let data = to_rgba_bytes(orig);
    let hash = hex_of(sha256_of(data));
    &&& m.entry.id == SerializedResourceId(j as usize)
    &&& m.entry.kind == ResourceKind::Image
    &&& m.entry.size as int == data.len()
    &&& m.entry.sha256_hash@ == hash
    &&& m.entry.path@ == "images/"@ + hash + ".png"@
    &&& m.format == orig.format
    &&& m.alpha_type == orig.alpha_type
    &&& m.width == orig.width
    &&& m.height == orig.height
}

/// The manifest entry of the font at position `j`.
pub open spec fn font_entry_matches(
    m: FontMetadata,
    j: int,
    f: FontData,
    config: SerializeConfig,
) -> bool {
    let stored = stored_font_bytes(f, config);
    let hash = hex_of(sha256_of(stored));
    &&& m.entry.id == SerializedResourceId(j as usize)
    &&& m.entry.kind == ResourceKind::Font
    &&& m.entry.size as int == f.data@.len()
    &&& m.entry.sha256_hash@ == hash
    &&& m.entry.path@ == "fonts/"@ + hash + (if config.spec_woff2_fonts() {
        ".woff2"@
    } else {
        ".ttf"@
    })
}

/// Whether a single command only references registered images.
pub open spec fn cmd_images_present(ctx: RecordingRenderContextSpec, c: RenderCommand<FontData, ImageResource>) -> bool {
    match cmd_image_res(c) {
        Some(res) => ctx.contains_key(res.id.0),
        None => true,
    }
}

/// Every image a scene references is registered in the context.
pub open spec fn scene_images_present(ctx: RecordingRenderContextSpec, scene: Scene) -> bool {
    forall|i: int|
        0 <= i < scene.commands@.len() ==> #[trigger] cmd_images_present(ctx, scene.commands@[i])
}

/// What `from_scene` guarantees of a produced archive.
pub open spec fn archive_matches_scene(
    ctx: Map<u64, ImageData>,
    scene: Scene,
    config: SerializeConfig,
    a: SceneArchive,
) -> bool {
    let cmds = scene.commands@;
    let subset = config.spec_subset_fonts();
    let img_ids = collect_img_ids(cmds);
    let fkeys = collect_font_keys(cmds, subset);
    let forder = collect_fonts(cmds, subset);
    &&& a.manifest.version == ResourceManifest::CURRENT_VERSION
    &&& a.manifest.tolerance == scene.tolerance
    &&& a.commands@.len() == cmds.len()
    &&& forall|i: int|
        0 <= i < cmds.len() ==> #[trigger] ser_cmd_rel(cmds[i], a.commands@[i], img_ids, fkeys, subset)
    &&& a.images@.len() == img_ids.len()
    &&& forall|j: int|
        0 <= j < img_ids.len() ==> {
            let orig = ctx[img_ids[j]];
            let norm = #[trigger] a.images@[j];
            &&& norm.data@ == to_rgba_bytes(orig)
            &&& norm.format == ImageFormat::Rgba8
            &&& norm.alpha_type == orig.alpha_type
            &&& norm.width == orig.width
            &&& norm.height == orig.height
        }
    &&& a.manifest.images@.len() == img_ids.len()
    &&& forall|j: int|
        0 <= j < img_ids.len() ==> #[trigger] image_entry_matches(a.manifest.images@[j], j, ctx[img_ids[j]])
    &&& a.fonts@.len() == forder.len()
    &&& forall|j: int|
        0 <= j < forder.len() ==> (#[trigger] a.fonts@[j])@ == stored_font_bytes(forder[j], config)
    &&& a.manifest.fonts@.len() == forder.len()
    &&& forall|j: int|
        0 <= j < forder.len() ==> #[trigger] font_entry_matches(a.manifest.fonts@[j], j, forder[j], config)
}

// ------------------------------------------------------------------
// Generic membership lemmas
// ------------------------------------------------------------------

/// Membership survives extension to a longer list.
pub proof fn lemma_contains_prefix<T>(p: Seq<T>, q: Seq<T>, x: T)
    requires
        p.is_prefix_of(q),
        p.contains(x),
    ensures
        q.contains(x),
{
    let w = choose|w: int| 0 <= w < p.len() && p[w] == x;
    assert(q[w] == x);
}

/// When a value sits at position `i` and nowhere earlier, `idx_in`
/// finds that position.
pub proof fn lemma_idx_in_found<T>(s: Seq<T>, i: int, x: T)
    requires
        0 <= i < s.len(),
        s[i] == x,
        forall|j: int| 0 <= j < i ==> s[j] != x,
    ensures
        idx_in(s, x) == i,
        s.contains(x),
    decreases s.len(),
{
    if i + 1 == s.len() {
        if s.drop_last().contains(x) {
            let w = choose|w: int| 0 <= w < s.drop_last().len() && s.drop_last()[w] == x;
            assert(s[w] == x);
            assert(false);
        }
    } else {
        if s.drop_last().contains(x) {
            lemma_idx_in_found(s.drop_last(), i, x);
        } else {
            assert(s.drop_last()[i] == x);
            assert(false);
        }
    }
}

// ------------------------------------------------------------------
// The write path
// ------------------------------------------------------------------

/// What the resource identifier list does when a brush is rewritten.
pub open spec fn step_img_brush(p: Seq<u64>, b: Brush<ImageResource>) -> Seq<u64> {
    match b {
        Brush::Image(ib) => if p.contains(ib.image.id.0) {
            p
        } else {
            p.push(ib.image.id.0)
        },
        _ => p,
    }
}

/// Whether every resource a command references already has an identifier.
pub open spec fn cmd_refs_listed(
    c: RenderCommand<FontData, ImageResource>,
    img_ids: Seq<u64>,
    fkeys: Seq<(u64, u32)>,
    subset: bool,
) -> bool {
    &&& (match cmd_image_res(c) {
        Some(res) => img_ids.contains(res.id.0),
        None => true,
    })
    &&& (match cmd_font(c) {
        Some(f) => fkeys.contains(font_key(f, subset)),
        None => true,
    })
}

/// A brush's serialization is stable when the identifier table grows.
proof fn lemma_ser_brush_rel_extend(
    b: Brush<ImageResource>,
    s: SerializableBrush,
    p_img: Seq<u64>,
    q_img: Seq<u64>,
)
    requires
        ser_brush_rel(b, s, p_img),
        p_img.is_prefix_of(q_img),
        match b {
            Brush::Image(ib) => p_img.contains(ib.image.id.0),
            _ => true,
        },
    ensures
        ser_brush_rel(b, s, q_img),
{
    match b {
        Brush::Image(ib) => {
            lemma_idx_in_stable(p_img, q_img, ib.image.id.0);
        },
        _ => {},
    }
}

/// A command's serialization is stable when the identifier tables grow.
proof fn lemma_ser_cmd_rel_extend(
    c: RenderCommand<FontData, ImageResource>,
    s: SerializableRenderCommand,
    p_img: Seq<u64>,
    q_img: Seq<u64>,
    p_fk: Seq<(u64, u32)>,
    q_fk: Seq<(u64, u32)>,
    subset: bool,
)
    requires
        ser_cmd_rel(c, s, p_img, p_fk, subset),
        p_img.is_prefix_of(q_img),
        p_fk.is_prefix_of(q_fk),
        cmd_refs_listed(c, p_img, p_fk, subset),
    ensures
        ser_cmd_rel(c, s, q_img, q_fk, subset),
{
    match (c, s) {
        (RenderCommand::Stroke(a), RenderCommand::Stroke(b)) => {
            lemma_ser_brush_rel_extend(a.brush, b.brush, p_img, q_img);
        },
        (RenderCommand::Fill(a), RenderCommand::Fill(b)) => {
            lemma_ser_brush_rel_extend(a.brush, b.brush, p_img, q_img);
        },
        (RenderCommand::GlyphRun(a), RenderCommand::GlyphRun(b)) => {
            lemma_ser_brush_rel_extend(a.brush, b.brush, p_img, q_img);
            lemma_idx_in_stable(p_fk, q_fk, font_key(a.font_data, subset));
        },
        _ => {},
    }
}

/// Collects and deduplicates resources referenced by a scene's commands.
struct ResourceCollector {
    fonts: FontWriter,
    /// Registered image identifiers, in archive order.
    image_ids: Vec<u64>,
    /// The registered images, in archive order, still in their original
    /// pixel layout.
    images: Vec<ImageData>,
}

/// The image side of the collector is consistent with the context.
pub open spec fn col_images_ok(
    image_ids: Seq<u64>,
    images: Seq<ImageData>,
    ctx: Map<u64, ImageData>,
) -> bool {
    &&& distinct(image_ids)
    &&& images.len() == image_ids.len()
    &&& forall|j: int|
        0 <= j < image_ids.len() ==> ctx.contains_key(#[trigger] image_ids[j])
            && crate::types::image_data_eqv(images[j], ctx[image_ids[j]])
}

impl ResourceCollector {
    spec fn images_ok(&self, ctx: Map<u64, ImageData>) -> bool {
        col_images_ok(self.image_ids@, self.images@, ctx)
    }

    fn new(config: &SerializeConfig) -> (c: ResourceCollector)
        ensures
            c.fonts.wf(),
            c.fonts.spec_keys() =~= Seq::<(u64, u32)>::empty(),
            c.fonts.spec_fonts() =~= Seq::<FontData>::empty(),
            c.fonts.spec_subset_fonts() == config.spec_subset_fonts(),
            c.fonts.spec_woff2_fonts() == config.spec_woff2_fonts(),
            c.image_ids@ =~= Seq::<u64>::empty(),
            c.images@ =~= Seq::<ImageData>::empty(),
    {
        ResourceCollector {
            fonts: FontWriter::new(config),
            image_ids: Vec::new(),
            images: Vec::new(),
        }
    }

    /// Register an image handle, deduplicating by its identity.
    fn register_image(
        &mut self,
        ctx: &crate::recording::RecordingRenderContext,
        res: &ImageResource,
    ) -> (id: SerializedResourceId)
        requires
            old(self).images_ok(ctx.images_map()),
            ctx.images_map().contains_key(res.id.0),
        ensures
            final(self).images_ok(ctx.images_map()),
            final(self).fonts == old(self).fonts,
            final(self).image_ids@ == (if old(self).image_ids@.contains(res.id.0) {
                old(self).image_ids@
            } else {
                old(self).image_ids@.push(res.id.0)
            }),
            id.0 as int == idx_in(final(self).image_ids@, res.id.0),
            final(self).image_ids@.contains(res.id.0),
    {
        let target = res.id.0;
        let n = self.image_ids.len();
        let mut i: usize = 0;
        while i < n
            invariant
                i <= n,
                n == self.image_ids@.len(),
                self == old(self),
                old(self).images_ok(ctx.images_map()),
                target == res.id.0,
                forall|j: int| 0 <= j < i ==> self.image_ids@[j] != target,
            decreases n - i,
        {
            if self.image_ids[i] == target {
                proof {
                    lemma_idx_in_found(self.image_ids@, i as int, target);
                }
                return SerializedResourceId(i);
            }
            i = i + 1;
        }
        proof {
            assert(forall|j: int| 0 <= j < self.image_ids@.len() ==> self.image_ids@[j] != target);
            assert(!self.image_ids@.contains(target));
        }
        let id = SerializedResourceId(self.image_ids.len());
        let data = match ctx.image_data(target) {
            Some(img) => copy_image_data(img),
            None => {
                proof {
                    assert(false);
                }
                unreached()
            },
        };
        self.image_ids.push(target);
        self.images.push(data);
        proof {
            lemma_idx_in_found(self.image_ids@, self.image_ids@.len() - 1, target);
            assert forall|j: int| 0 <= j < self.image_ids@.len() implies ctx.images_map().contains_key(
                #[trigger] self.image_ids@[j],
            ) && crate::types::image_data_eqv(self.images@[j], ctx.images_map()[self.image_ids@[j]]) by {
                if j < self.image_ids@.len() - 1 {
                    assert(self.image_ids@[j] == old(self).image_ids@[j]);
                    assert(self.images@[j] == old(self).images@[j]);
                }
            }
        }
        id
    }

    /// Rewrite a brush, replacing an inline image reference by its
    /// archive identifier.
    fn convert_brush(
        &mut self,
        ctx: &crate::recording::RecordingRenderContext,
        brush: &Brush<ImageResource>,
    ) -> (r: SerializableBrush)
        requires
            old(self).images_ok(ctx.images_map()),
            match *brush {
                Brush::Image(ib) => ctx.images_map().contains_key(ib.image.id.0),
                _ => true,
            },
        ensures
            final(self).images_ok(ctx.images_map()),
            final(self).fonts == old(self).fonts,
            final(self).image_ids@ == step_img_brush(old(self).image_ids@, *brush),
            ser_brush_rel(*brush, r, final(self).image_ids@),
            match *brush {
                Brush::Image(ib) => final(self).image_ids@.contains(ib.image.id.0),
                _ => true,
            },
    {
        match brush {
            Brush::Solid(color) => Brush::Solid(*color),
            Brush::Gradient(gradient) => Brush::Gradient(copy_gradient(gradient)),
            Brush::Image(image_brush) => {
                let id = self.register_image(ctx, &image_brush.image);
                Brush::Image(ImageBrush { image: id, sampler: image_brush.sampler })
            },
        }
    }
}


/// Reference containment survives growth of the identifier tables.
proof fn lemma_refs_listed_extend(
    c: RenderCommand<FontData, ImageResource>,
    p_img: Seq<u64>,
    q_img: Seq<u64>,
    p_fk: Seq<(u64, u32)>,
    q_fk: Seq<(u64, u32)>,
    subset: bool,
)
    requires
        cmd_refs_listed(c, p_img, p_fk, subset),
        p_img.is_prefix_of(q_img),
        p_fk.is_prefix_of(q_fk),
    ensures
        cmd_refs_listed(c, q_img, q_fk, subset),
{
    match cmd_image_res(c) {
        Some(res) => {
            lemma_contains_prefix(p_img, q_img, res.id.0);
        },
        None => {},
    }
    match cmd_font(c) {
        Some(f) => {
            lemma_contains_prefix(p_fk, q_fk, font_key(f, subset));
        },
        None => {},
    }
}

/// The collector state after the first `i` commands of a stream.
spec fn col_matches_prefix(
    c: ResourceCollector,
    cmds: Seq<RenderCommand<FontData, ImageResource>>,
    i: int,
) -> bool {
    let subset = c.fonts.spec_subset_fonts();
    &&& c.fonts.wf()
    &&& c.image_ids@ == collect_img_ids(cmds.take(i))
    &&& c.fonts.spec_keys() == collect_font_keys(cmds.take(i), subset)
    &&& c.fonts.spec_fonts().len() == collect_fonts(cmds.take(i), subset).len()
    &&& forall|j: int|
        0 <= j < c.fonts.spec_fonts().len() ==> font_eqv(
            #[trigger] c.fonts.spec_fonts()[j],
            collect_fonts(cmds.take(i), subset)[j],
        )
}

impl ResourceCollector {
    /// Rewrite one command, registering the resources it references.
    fn convert_command(
        &mut self,
        ctx: &crate::recording::RecordingRenderContext,
        cmd: &RenderCommand<FontData, ImageResource>,
        Ghost(cmds): Ghost<Seq<RenderCommand<FontData, ImageResource>>>,
        Ghost(i): Ghost<int>,
    ) -> (r: SerializableRenderCommand)
        requires
            0 <= i < cmds.len(),
            cmds[i] == *cmd,
            cmd_images_present(ctx.images_map(), *cmd),
            old(self).images_ok(ctx.images_map()),
            col_matches_prefix(*old(self), cmds, i),
        ensures
            final(self).images_ok(ctx.images_map()),
            col_matches_prefix(*final(self), cmds, i + 1),
            final(self).fonts.spec_subset_fonts() == old(self).fonts.spec_subset_fonts(),
            final(self).fonts.spec_woff2_fonts() == old(self).fonts.spec_woff2_fonts(),
            ser_cmd_rel(
                cmds[i],
                r,
                final(self).image_ids@,
                final(self).fonts.spec_keys(),
                final(self).fonts.spec_subset_fonts(),
            ),
            cmd_refs_listed(
                cmds[i],
                final(self).image_ids@,
                final(self).fonts.spec_keys(),
                final(self).fonts.spec_subset_fonts(),
            ),
    {
        proof {
            assert(cmds.take(i + 1).drop_last() =~= cmds.take(i));
            assert(cmds.take(i + 1).last() == cmds[i]);
        }
        let ghost subset = self.fonts.spec_subset_fonts();
        let r = match cmd {
            RenderCommand::PushLayer(layer) => RenderCommand::PushLayer(
                LayerCommand {
                    blend: layer.blend,
                    alpha: layer.alpha,
                    transform: layer.transform,
                    clip: copy_vec(&layer.clip),
                },
            ),
            RenderCommand::PushClipLayer(clip) => RenderCommand::PushClipLayer(
                ClipCommand { transform: clip.transform, clip: copy_vec(&clip.clip) },
            ),
            RenderCommand::PopLayer => RenderCommand::PopLayer,
            RenderCommand::Stroke(stroke) => {
                let brush = self.convert_brush(ctx, &stroke.brush);
                RenderCommand::Stroke(
                    StrokeCommand {
                        style: crate::types::copy_stroke(&stroke.style),
                        transform: stroke.transform,
                        brush,
                        brush_transform: stroke.brush_transform,
                        shape: copy_vec(&stroke.shape),
                    },
                )
            },
            RenderCommand::Fill(fill) => {
                let brush = self.convert_brush(ctx, &fill.brush);
                RenderCommand::Fill(
                    FillCommand {
                        fill: fill.fill,
                        transform: fill.transform,
                        brush,
                        brush_transform: fill.brush_transform,
                        shape: copy_vec(&fill.shape),
                    },
                )
            },
            RenderCommand::GlyphRun(glyph_run) => {
                proof {
                    lemma_collect_fonts_align(cmds.take(i), subset);
                }
                let resource_id = self.fonts.register(&glyph_run.font_data);
                proof {
                    if collect_font_keys(cmds.take(i), subset).contains(
                        font_key(glyph_run.font_data, subset),
                    ) {
                        lemma_idx_in_position(
                            collect_font_keys(cmds.take(i), subset),
                            idx_in(
                                collect_font_keys(cmds.take(i), subset),
                                font_key(glyph_run.font_data, subset),
                            ),
                        );
                    }
                }
                self.fonts.record_glyphs(resource_id, &glyph_run.glyphs);
                let index = self.fonts.face_index(&glyph_run.font_data);
                let brush = self.convert_brush(ctx, &glyph_run.brush);
                proof {
                    let new_keys = self.fonts.spec_keys();
                    let key = font_key(glyph_run.font_data, subset);
                    if !collect_font_keys(cmds.take(i), subset).contains(key) {
                        assert(new_keys.drop_last() =~= collect_font_keys(cmds.take(i), subset));
                        assert(idx_in(new_keys, key) == new_keys.len() - 1);
                        assert(new_keys[new_keys.len() - 1] == key);
                    }
                }
                RenderCommand::GlyphRun(
                    GlyphRunCommand {
                        font_data: SerializedFontResourceId { resource_id, index },
                        font_size: glyph_run.font_size,
                        hint: glyph_run.hint,
                        normalized_coords: copy_vec(&glyph_run.normalized_coords),
                        style: copy_style(&glyph_run.style),
                        brush,
                        brush_alpha: glyph_run.brush_alpha,
                        transform: glyph_run.transform,
                        glyph_transform: glyph_run.glyph_transform,
                        glyphs: copy_vec(&glyph_run.glyphs),
                    },
                )
            },
            RenderCommand::BoxShadow(shadow) => RenderCommand::BoxShadow(*shadow),
        };
        proof {
            let new_fonts = self.fonts.spec_fonts();
            let old_fonts = old(self).fonts.spec_fonts();
            let cf1 = collect_fonts(cmds.take(i + 1), subset);
            let cf0 = collect_fonts(cmds.take(i), subset);
            assert forall|j: int| 0 <= j < new_fonts.len() implies font_eqv(
                #[trigger] new_fonts[j],
                cf1[j],
            ) by {
                match cmd_font(cmds[i]) {
                    Some(f) => {
                        if collect_font_keys(cmds.take(i), subset).contains(font_key(f, subset)) {
                            assert(cf1 == cf0);
                            assert(new_fonts[j] == old_fonts[j]);
                            assert(font_eqv(old_fonts[j], cf0[j]));
                        } else {
                            assert(cf1 == cf0.push(f));
                            if j < old_fonts.len() {
                                assert(new_fonts[j] == old_fonts[j]);
                                assert(font_eqv(old_fonts[j], cf0[j]));
                                assert(cf1[j] == cf0[j]);
                            } else {
                                assert(j == new_fonts.len() - 1);
                                assert(new_fonts.drop_last() == old_fonts);
                                assert(font_eqv(new_fonts.last(), cmds[i]->GlyphRun_0.font_data));
                                assert(cf1[j] == f);
                            }
                        }
                    },
                    None => {
                        assert(cf1 == cf0);
                        assert(new_fonts[j] == old_fonts[j]);
                        assert(font_eqv(old_fonts[j], cf0[j]));
                    },
                }
            }
        }
        r
    }
}


impl SceneArchive {
    /// Build an archive from a recorded scene.
    ///
    /// Every inline resource payload becomes a dense identifier; identical
    /// content identities collapse into one stored entry.  With the
    /// default configuration the build always succeeds; a configuration
    /// that asks for subsetting fails for any scene that uses fonts, and a
    /// compression failure of the encoder is surfaced as a
    /// font-processing error.
    pub fn from_scene(
        ctx: &crate::recording::RecordingRenderContext,
        scene: &Scene,
        config: &SerializeConfig,
    ) -> (r: Result<SceneArchive, ArchiveError>)
        requires
            scene_images_present(ctx.images_map(), *scene),
        ensures
            r matches Ok(a) ==> archive_matches_scene(ctx.images_map(), *scene, *config, a),
            !config.spec_subset_fonts() && !config.spec_woff2_fonts() ==> r is Ok,
            !config.spec_subset_fonts() && (forall|j: int|
                0 <= j < collect_fonts(scene.commands@, config.spec_subset_fonts()).len()
                    ==> crate::font_writer::woff2_encodable(
                    (#[trigger] collect_fonts(scene.commands@, config.spec_subset_fonts())[
                        j
                    ]).data@,
                )) ==> r is Ok,
            config.spec_subset_fonts() && collect_fonts(
                scene.commands@,
                config.spec_subset_fonts(),
            ).len() > 0 ==> r is Err,
            r matches Err(e) ==> e is FontProcessing,
    {
        let ghost cmds = scene.commands@;
        let ghost subset = config.spec_subset_fonts();
        let mut collector = ResourceCollector::new(config);
        proof {
            assert(cmds.take(0) =~= Seq::<RenderCommand<FontData, ImageResource>>::empty());
        }
        let cmds_n = scene.commands.len();
        let mut commands: Vec<SerializableRenderCommand> = Vec::new();
        let mut i: usize = 0;
        while i < cmds_n
            invariant
                i <= cmds_n,
                cmds_n == cmds.len(),
                cmds == scene.commands@,
                scene_images_present(ctx.images_map(), *scene),
                collector.images_ok(ctx.images_map()),
                col_matches_prefix(collector, cmds, i as int),
                collector.fonts.spec_subset_fonts() == subset,
                collector.fonts.spec_woff2_fonts() == config.spec_woff2_fonts(),
                commands@.len() == i,
                forall|k: int|
                    0 <= k < i ==> ser_cmd_rel(
                        cmds[k],
                        #[trigger] commands@[k],
                        collector.image_ids@,
                        collector.fonts.spec_keys(),
                        subset,
                    ),
                forall|k: int|
                    0 <= k < i ==> #[trigger] cmd_refs_listed(
                        cmds[k],
                        collector.image_ids@,
                        collector.fonts.spec_keys(),
                        subset,
                    ),
            decreases cmds_n - i,
        {
            let cmd = &scene.commands[i];
            proof {
                assert(cmd_images_present(ctx.images_map(), cmds[i as int]));
            }
            let ghost pre_img = collector.image_ids@;
            let ghost pre_keys = collector.fonts.spec_keys();
            let sc = collector.convert_command(ctx, cmd, Ghost(cmds), Ghost(i as int));
            commands.push(sc);
            proof {
                let new_img = collector.image_ids@;
                let new_keys = collector.fonts.spec_keys();
                assert(cmds.take(i + 1 as int).take(i as int) =~= cmds.take(i as int));
                lemma_collect_img_ids_prefix(cmds.take(i + 1 as int), i as int);
                lemma_collect_font_keys_prefix(cmds.take(i + 1 as int), i as int, subset);
                assert(pre_img.is_prefix_of(new_img));
                assert(pre_keys.is_prefix_of(new_keys));
                assert forall|k: int| 0 <= k < i + 1 implies ser_cmd_rel(
                    cmds[k],
                    #[trigger] commands@[k],
                    new_img,
                    new_keys,
                    subset,
                ) by {
                    if k < i {
                        assert(cmd_refs_listed(cmds[k], pre_img, pre_keys, subset));
                        lemma_ser_cmd_rel_extend(
                            cmds[k],
                            commands@[k],
                            pre_img,
                            new_img,
                            pre_keys,
                            new_keys,
                            subset,
                        );
                    }
                }
                assert forall|k: int| 0 <= k < i + 1 implies #[trigger] cmd_refs_listed(
                    cmds[k],
                    new_img,
                    new_keys,
                    subset,
                ) by {
                    if k < i {
                        lemma_refs_listed_extend(cmds[k], pre_img, new_img, pre_keys, new_keys, subset);
                    }
                }
            }
            i = i + 1;
        }
        proof {
            assert(cmds.take(cmds_n as int) =~= cmds);
        }

        // Normalize all images to canonical RGBA8.
        let ghost img_ids = collector.image_ids@;
        let img_n = collector.images.len();
        let mut images: Vec<ImageData> = Vec::new();
        let mut j: usize = 0;
        while j < img_n
            invariant
                j <= img_n,
                img_n == collector.images@.len(),
                collector.images_ok(ctx.images_map()),
                img_ids == collector.image_ids@,
                images@.len() == j,
                forall|k: int|
                    0 <= k < j ==> {
                        let orig = ctx.images_map()[img_ids[k]];
                        let norm = #[trigger] images@[k];
                        &&& norm.data@ == to_rgba_bytes(orig)
                        &&& norm.format == ImageFormat::Rgba8
                        &&& norm.alpha_type == orig.alpha_type
                        &&& norm.width == orig.width
                        &&& norm.height == orig.height
                    },
            decreases img_n - j,
        {
            let orig = &collector.images[j];
            let data = convert_to_rgba(orig);
            proof {
                assert(crate::types::image_data_eqv(
                    collector.images@[j as int],
                    ctx.images_map()[img_ids[j as int]],
                ));
                assert(to_rgba_bytes(collector.images@[j as int]) == to_rgba_bytes(
                    ctx.images_map()[img_ids[j as int]],
                ));
            }
            images.push(
                ImageData {
                    data,
                    format: ImageFormat::Rgba8,
                    alpha_type: orig.alpha_type,
                    width: orig.width,
                    height: orig.height,
                },
            );
            j = j + 1;
        }

        // Image metadata, in identifier order.
        let mut manifest = ResourceManifest::new(scene.tolerance);
        let mut j2: usize = 0;
        while j2 < img_n
            invariant
                j2 <= img_n,
                img_n == collector.images@.len(),
                img_n == images@.len(),
                collector.images_ok(ctx.images_map()),
                img_ids == collector.image_ids@,
                manifest.version == ResourceManifest::CURRENT_VERSION,
                manifest.tolerance == scene.tolerance,
                manifest.fonts@.len() == 0,
                manifest.images@.len() == j2,
                forall|k: int|
                    0 <= k < img_n ==> {
                        let orig = ctx.images_map()[img_ids[k]];
                        let norm = #[trigger] images@[k];
                        &&& norm.data@ == to_rgba_bytes(orig)
                        &&& norm.format == ImageFormat::Rgba8
                        &&& norm.alpha_type == orig.alpha_type
                        &&& norm.width == orig.width
                        &&& norm.height == orig.height
                    },
                forall|k: int|
                    0 <= k < j2 ==> #[trigger] image_entry_matches(
                        manifest.images@[k],
                        k,
                        ctx.images_map()[img_ids[k]],
                    ),
            decreases img_n - j2,
        {
            let norm = &images[j2];
            let hash = sha256_hex(norm.data.as_slice());
            let mut path = String::new();
            path.append("images/");
            path.append(hash.as_str());
            path.append(".png");
            proof {
                assert(path@ =~= "images/"@ + hash@ + ".png"@);
                assert(crate::types::image_data_eqv(
                    collector.images@[j2 as int],
                    ctx.images_map()[img_ids[j2 as int]],
                ));
            }
            let size = norm.data.len();
            let orig = &collector.images[j2];
            manifest.images.push(
                ImageMetadata {
                    entry: ResourceEntry {
                        id: SerializedResourceId(j2),
                        kind: ResourceKind::Image,
                        size,
                        sha256_hash: hash,
                        path,
                    },
                    format: orig.format,
                    alpha_type: orig.alpha_type,
                    width: orig.width,
                    height: orig.height,
                },
            );
            j2 = j2 + 1;
        }

        // Process and store fonts, in identifier order.
        let ghost fonts_before = collector.fonts.spec_fonts();
        let ResourceCollector { fonts: font_writer, image_ids: _, images: _ } = collector;
        let processed = match font_writer.into_processed() {
            Ok(v) => v,
            Err(e) => {
                proof {
                    let cf = collect_fonts(cmds, subset);
                    if !subset {
                        assert(!(forall|j: int|
                            0 <= j < fonts_before.len() ==> crate::font_writer::woff2_encodable(
                                (#[trigger] fonts_before[j]).data@,
                            )));
                        let w = choose|w: int|
                            0 <= w < fonts_before.len() && !crate::font_writer::woff2_encodable(
                                (#[trigger] fonts_before[w]).data@,
                            );
                        assert(font_eqv(fonts_before[w], cf[w]));
                        assert(!crate::font_writer::woff2_encodable(cf[w].data@));
                    }
                }
                return Err(e);
            },
        };
        let font_n = processed.len();
        let mut fonts: Vec<Vec<u8>> = Vec::new();
        let mut k: usize = 0;
        while k < font_n
            invariant
                k <= font_n,
                font_n == processed@.len(),
                font_n == collect_fonts(cmds, subset).len(),
                forall|t: int|
                    0 <= t < font_n ==> #[trigger] crate::font_writer::processed_matches(
                        processed@[t],
                        collect_fonts(cmds, subset)[t],
                        config.spec_woff2_fonts(),
                    ),
                manifest.version == ResourceManifest::CURRENT_VERSION,
                manifest.tolerance == scene.tolerance,
                manifest.images@.len() == img_n,
                img_n == images@.len(),
                forall|t: int|
                    0 <= t < img_n ==> #[trigger] image_entry_matches(
                        manifest.images@[t],
                        t,
                        ctx.images_map()[img_ids[t]],
                    ),
                fonts@.len() == k,
                manifest.fonts@.len() == k,
                forall|t: int|
                    0 <= t < k ==> (#[trigger] fonts@[t])@ == stored_font_bytes(
                        collect_fonts(cmds, subset)[t],
                        *config,
                    ),
                forall|t: int|
                    0 <= t < k ==> #[trigger] font_entry_matches(
                        manifest.fonts@[t],
                        t,
                        collect_fonts(cmds, subset)[t],
                        *config,
                    ),
            decreases font_n - k,
        {
            let p = &processed[k];
            manifest.fonts.push(
                FontMetadata {
                    entry: ResourceEntry {
                        id: SerializedResourceId(k),
                        kind: ResourceKind::Font,
                        size: p.raw_size,
                        sha256_hash: p.hash.clone(),
                        path: p.path.clone(),
                    },
                },
            );
            fonts.push(copy_vec(&p.stored_data));
            proof {
                let f = collect_fonts(cmds, subset)[k as int];
                assert(crate::font_writer::processed_matches(
                    processed@[k as int],
                    f,
                    config.spec_woff2_fonts(),
                ));
                assert(stored_font_bytes(f, *config) == (if config.spec_woff2_fonts() {
                    crate::font_writer::woff2_of(f.data@)
                } else {
                    f.data@
                }));
                assert(fonts@[k as int]@ == stored_font_bytes(f, *config));
                assert(font_entry_matches(manifest.fonts@[k as int], k as int, f, *config));
            }
            k = k + 1;
        }

        Ok(SceneArchive { manifest, commands, fonts, images })
    }
}


// ------------------------------------------------------------------
// The read path
// ------------------------------------------------------------------

/// Whether stored bytes carry the WOFF2 signature.
pub open spec fn is_woff2(s: Seq<u8>) -> bool {
    s.len() >= 4 && s[0] == 0x77 && s[1] == 0x4f && s[2] == 0x46 && s[3] == 0x32
}

/// The font bytes a read reconstructs from stored entry `j`: decompressed
/// when the signature says WOFF2, verbatim otherwise.
pub open spec fn recon_font_bytes(a: SceneArchive, j: int) -> Seq<u8> {
    if is_woff2(a.fonts@[j]@) {
        crate::font_writer::woff2_decoded(a.fonts@[j]@)
    } else {
        a.fonts@[j]@
    }
}

/// How many images a read reconstructs: stored payloads and manifest
/// entries are paired off.
pub open spec fn archive_image_count(a: SceneArchive) -> int {
    if a.images@.len() <= a.manifest.images@.len() {
        a.images@.len() as int
    } else {
        a.manifest.images@.len() as int
    }
}

/// The image a read reconstructs from stored entry `j`: canonical RGBA8
/// bytes converted back to the original layout recorded in the manifest.
pub open spec fn recon_image_ok(a: SceneArchive, j: int, img: ImageData) -> bool {
    &&& img.data@ == from_rgba_bytes(a.images@[j].data@, a.manifest.images@[j].format)
    &&& img.format == a.manifest.images@[j].format
    &&& img.alpha_type == a.images@[j].alpha_type
    &&& img.width == a.images@[j].width
    &&& img.height == a.images@[j].height
}

/// The image identifier a serialized command references, if any.
pub open spec fn ser_cmd_image_id(s: SerializableRenderCommand) -> Option<SerializedResourceId> {
    match s {
        RenderCommand::Stroke(c) => match c.brush {
            Brush::Image(ib) => Some(ib.image),
            _ => None,
        },
        RenderCommand::Fill(c) => match c.brush {
            Brush::Image(ib) => Some(ib.image),
            _ => None,
        },
        RenderCommand::GlyphRun(c) => match c.brush {
            Brush::Image(ib) => Some(ib.image),
            _ => None,
        },
        _ => None,
    }
}

/// Whether every identifier a serialized command references denotes a
/// reconstructed resource.
pub open spec fn ser_cmd_refs_in_range(a: SceneArchive, s: SerializableRenderCommand) -> bool {
    &&& (match ser_cmd_image_id(s) {
        Some(sid) => (sid.0 as int) < archive_image_count(a),
        None => true,
    })
    &&& (match s {
        RenderCommand::GlyphRun(g) => (g.font_data.resource_id.0 as int) < a.fonts@.len(),
        _ => true,
    })
}

/// Whether no stored font entry is WOFF2-compressed.
pub open spec fn no_woff2_fonts(a: SceneArchive) -> bool {
    forall|j: int| 0 <= j < a.fonts@.len() ==> !is_woff2((#[trigger] a.fonts@[j])@)
}

/// The handle a read binds to the image at position `j`, given the first
/// fresh context identifier.
pub open spec fn recon_handle(a: SceneArchive, base: u64, j: int) -> ImageResource {
    ImageResource {
        id: ResourceId((base + j) as u64),
        width: a.images@[j].width,
        height: a.images@[j].height,
    }
}

/// How a serialized brush reconstructs against freshly bound handles.
pub open spec fn rec_brush_rel(
    a: SceneArchive,
    base: u64,
    s: SerializableBrush,
    b: Brush<ImageResource>,
) -> bool {
    match (s, b) {
        (Brush::Solid(c1), Brush::Solid(c2)) => c2 == c1,
        (Brush::Gradient(g1), Brush::Gradient(g2)) => gradient_eqv(g2, g1),
        (Brush::Image(i1), Brush::Image(i2)) => {
            &&& (i1.image.0 as int) < archive_image_count(a)
            &&& i2.image == recon_handle(a, base, i1.image.0 as int)
            &&& i2.sampler == i1.sampler
        },
        _ => false,
    }
}

/// How a serialized command reconstructs against the resource tables.
pub open spec fn rec_cmd_rel(
    a: SceneArchive,
    base: u64,
    s: SerializableRenderCommand,
    c: RenderCommand<FontData, ImageResource>,
) -> bool {
    match (s, c) {
        (RenderCommand::PushLayer(x), RenderCommand::PushLayer(y)) => layer_eqv(y, x),
        (RenderCommand::PushClipLayer(x), RenderCommand::PushClipLayer(y)) => clip_eqv(y, x),
        (RenderCommand::PopLayer, RenderCommand::PopLayer) => true,
        (RenderCommand::Stroke(x), RenderCommand::Stroke(y)) => {
            &&& stroke_eqv(y.style, x.style)
            &&& y.transform == x.transform
            &&& rec_brush_rel(a, base, x.brush, y.brush)
            &&& y.brush_transform == x.brush_transform
            &&& y.shape@ == x.shape@
        },
        (RenderCommand::Fill(x), RenderCommand::Fill(y)) => {
            &&& y.fill == x.fill
            &&& y.transform == x.transform
            &&& rec_brush_rel(a, base, x.brush, y.brush)
            &&& y.brush_transform == x.brush_transform
            &&& y.shape@ == x.shape@
        },
        (RenderCommand::GlyphRun(x), RenderCommand::GlyphRun(y)) => {
            &&& (x.font_data.resource_id.0 as int) < a.fonts@.len()
            &&& y.font_data.id == x.font_data.resource_id.0 as u64
            &&& y.font_data.data@ == recon_font_bytes(a, x.font_data.resource_id.0 as int)
            &&& y.font_data.index == x.font_data.index
            &&& y.font_size == x.font_size
            &&& y.hint == x.hint
            &&& y.normalized_coords@ == x.normalized_coords@
            &&& style_eqv(y.style, x.style)
            &&& rec_brush_rel(a, base, x.brush, y.brush)
            &&& y.brush_alpha == x.brush_alpha
            &&& y.transform == x.transform
            &&& y.glyph_transform == x.glyph_transform
            &&& y.glyphs@ == x.glyphs@
        },
        (RenderCommand::BoxShadow(x), RenderCommand::BoxShadow(y)) => y == x,
        _ => false,
    }
}

impl SceneArchive {
    /// Rebuild a brush, binding an image identifier to its live handle.
    fn recon_brush(
        &self,
        brush: &SerializableBrush,
        handles: &Vec<ImageResource>,
        Ghost(base): Ghost<u64>,
    ) -> (r: Result<Brush<ImageResource>, ArchiveError>)
        requires
            handles@.len() == archive_image_count(*self),
            forall|j: int|
                0 <= j < handles@.len() ==> #[trigger] handles@[j] == recon_handle(
                    *self,
                    base,
                    j,
                ),
        ensures
            r matches Ok(b) ==> rec_brush_rel(*self, base, *brush, b),
            r matches Err(e) ==> e is ResourceNotFound,
            (match *brush {
                Brush::Image(ib) => (ib.image.0 as int) < archive_image_count(*self),
                _ => true,
            }) ==> r is Ok,
    {
        match brush {
            Brush::Solid(color) => Ok(Brush::Solid(*color)),
            Brush::Gradient(gradient) => Ok(Brush::Gradient(copy_gradient(gradient))),
            Brush::Image(image_brush) => {
                let idx = image_brush.image.0;
                if idx < handles.len() {
                    Ok(
                        Brush::Image(
                            ImageBrush { image: handles[idx], sampler: image_brush.sampler },
                        ),
                    )
                } else {
                    Err(ArchiveError::ResourceNotFound(image_brush.image))
                }
            },
        }
    }

    /// Rebuild one command, binding identifiers to live resources.
    fn recon_command(
        &self,
        cmd: &SerializableRenderCommand,
        fonts: &Vec<FontData>,
        handles: &Vec<ImageResource>,
        Ghost(base): Ghost<u64>,
    ) -> (r: Result<RenderCommand<FontData, ImageResource>, ArchiveError>)
        requires
            handles@.len() == archive_image_count(*self),
            forall|j: int|
                0 <= j < handles@.len() ==> #[trigger] handles@[j] == recon_handle(
                    *self,
                    base,
                    j,
                ),
            fonts@.len() == self.fonts@.len(),
            forall|j: int|
                0 <= j < fonts@.len() ==> {
                    let f = #[trigger] fonts@[j];
                    f.id == j as u64 && f.data@ == recon_font_bytes(*self, j) && f.index == 0
                },
        ensures
            r matches Ok(c) ==> rec_cmd_rel(*self, base, *cmd, c),
            r matches Err(e) ==> e is ResourceNotFound,
            ser_cmd_refs_in_range(*self, *cmd) ==> r is Ok,
    {
        match cmd {
            RenderCommand::PushLayer(layer) => Ok(
                RenderCommand::PushLayer(
                    LayerCommand {
                        blend: layer.blend,
                        alpha: layer.alpha,
                        transform: layer.transform,
                        clip: copy_vec(&layer.clip),
                    },
                ),
            ),
            RenderCommand::PushClipLayer(clip) => Ok(
                RenderCommand::PushClipLayer(
                    ClipCommand { transform: clip.transform, clip: copy_vec(&clip.clip) },
                ),
            ),
            RenderCommand::PopLayer => Ok(RenderCommand::PopLayer),
            RenderCommand::Stroke(stroke) => {
                let brush = match self.recon_brush(&stroke.brush, handles, Ghost(base)) {
                    Ok(b) => b,
                    Err(e) => {
                        return Err(e);
                    },
                };
                Ok(
                    RenderCommand::Stroke(
                        StrokeCommand {
                            style: crate::types::copy_stroke(&stroke.style),
                            transform: stroke.transform,
                            brush,
                            brush_transform: stroke.brush_transform,
                            shape: copy_vec(&stroke.shape),
                        },
                    ),
                )
            },
            RenderCommand::Fill(fill) => {
                let brush = match self.recon_brush(&fill.brush, handles, Ghost(base)) {
                    Ok(b) => b,
                    Err(e) => {
                        return Err(e);
                    },
                };
                Ok(
                    RenderCommand::Fill(
                        FillCommand {
                            fill: fill.fill,
                            transform: fill.transform,
                            brush,
                            brush_transform: fill.brush_transform,
                            shape: copy_vec(&fill.shape),
                        },
                    ),
                )
            },
            RenderCommand::GlyphRun(glyph_run) => {
                let rid = glyph_run.font_data.resource_id.0;
                if rid >= fonts.len() {
                    return Err(ArchiveError::ResourceNotFound(glyph_run.font_data.resource_id));
                }
                let stored = &fonts[rid];
                let font_data = FontData {
                    id: stored.id,
                    data: copy_vec(&stored.data),
                    index: glyph_run.font_data.index,
                };
                let brush = match self.recon_brush(&glyph_run.brush, handles, Ghost(base)) {
                    Ok(b) => b,
                    Err(e) => {
                        return Err(e);
                    },
                };
                Ok(
                    RenderCommand::GlyphRun(
                        GlyphRunCommand {
                            font_data,
                            font_size: glyph_run.font_size,
                            hint: glyph_run.hint,
                            normalized_coords: copy_vec(&glyph_run.normalized_coords),
                            style: copy_style(&glyph_run.style),
                            brush,
                            brush_alpha: glyph_run.brush_alpha,
                            transform: glyph_run.transform,
                            glyph_transform: glyph_run.glyph_transform,
                            glyphs: copy_vec(&glyph_run.glyphs),
                        },
                    ),
                )
            },
            RenderCommand::BoxShadow(shadow) => Ok(RenderCommand::BoxShadow(*shadow)),
        }
    }

    /// Rebuild a scene from this archive, registering every stored image
    /// with the given context.
    ///
    /// Stored images are converted back to their original pixel layout;
    /// stored fonts are decompressed when they carry the WOFF2 signature.
    /// A command referencing an identifier outside the reconstructed
    /// tables fails with a resource-not-found error, and a decompression
    /// failure with a font-processing error; no partial scene is returned.
    pub fn to_scene(&self, ctx: &mut crate::recording::RecordingRenderContext) -> (r: Result<
        Scene,
        ArchiveError,
    >)
        requires
            old(ctx).ctx_wf(),
            old(ctx).spec_next_id() + archive_image_count(*self) <= u64::MAX,
        ensures
            final(ctx).ctx_wf(),
            r matches Ok(s2) ==> {
                let base = old(ctx).spec_next_id();
                let count = archive_image_count(*self);
                &&& s2.tolerance == self.manifest.tolerance
                &&& s2.commands@.len() == self.commands@.len()
                &&& forall|i: int|
                    0 <= i < self.commands@.len() ==> rec_cmd_rel(
                        *self,
                        base,
                        self.commands@[i],
                        #[trigger] s2.commands@[i],
                    )
                &&& final(ctx).spec_next_id() == base + count
                &&& forall|j: int|
                    0 <= j < count ==> final(ctx).images_map().contains_key(
                        #[trigger] ((base + j) as u64),
                    ) && recon_image_ok(*self, j, final(ctx).images_map()[(base + j) as u64])
                &&& forall|k: u64|
                    #![trigger old(ctx).images_map().contains_key(k)]
                    !(base <= k && k < base + count) ==> (final(ctx).images_map().contains_key(k)
                        == old(ctx).images_map().contains_key(k)) && (old(ctx).images_map().contains_key(k) ==> final(ctx).images_map()[k] == old(ctx).images_map()[k])
            },
            (no_woff2_fonts(*self) && forall|i: int|
                0 <= i < self.commands@.len() ==> ser_cmd_refs_in_range(
                    *self,
                    #[trigger] self.commands@[i],
                )) ==> r is Ok,
            r matches Err(e) ==> (e is ResourceNotFound || e is FontProcessing),
    {
        let ghost base = ctx.spec_next_id();

        // Convert stored images back to their original pixel layout.
        let icount = if self.images.len() <= self.manifest.images.len() {
            self.images.len()
        } else {
            self.manifest.images.len()
        };
        let mut rimgs: Vec<ImageData> = Vec::new();
        let mut j: usize = 0;
        while j < icount
            invariant
                j <= icount,
                icount as int == archive_image_count(*self),
                icount <= self.images@.len(),
                icount <= self.manifest.images@.len(),
                rimgs@.len() == j,
                forall|t: int| 0 <= t < j ==> recon_image_ok(*self, t, #[trigger] rimgs@[t]),
            decreases icount - j,
        {
            let img = &self.images[j];
            let meta = &self.manifest.images[j];
            let data = convert_from_rgba(&img.data, meta.format);
            rimgs.push(
                ImageData {
                    data,
                    format: meta.format,
                    alpha_type: img.alpha_type,
                    width: img.width,
                    height: img.height,
                },
            );
            j = j + 1;
        }

        // Decode stored fonts.
        let fcount = self.fonts.len();
        let mut rfonts: Vec<FontData> = Vec::new();
        let mut j2: usize = 0;
        while j2 < fcount
            invariant
                j2 <= fcount,
                fcount == self.fonts@.len(),
                ctx == old(ctx),
                old(ctx).ctx_wf(),
                rfonts@.len() == j2,
                forall|t: int|
                    0 <= t < j2 ==> {
                        let f = #[trigger] rfonts@[t];
                        f.id == t as u64 && f.data@ == recon_font_bytes(*self, t) && f.index == 0
                    },
            decreases fcount - j2,
        {
            let blob = &self.fonts[j2];
            let has_magic = blob.len() >= 4 && blob[0] == 0x77 && blob[1] == 0x4f && blob[2]
                == 0x46 && blob[3] == 0x32;
            proof {
                assert(has_magic == is_woff2(blob@));
            }
            let bytes = if has_magic {
                match crate::font_writer::woff2_decode(blob) {
                    Ok(v) => v,
                    Err(e) => {
                        let mut msg = String::new();
                        msg.append("WOFF2 decoding failed: ");
                        msg.append(e.as_str());
                        return Err(ArchiveError::FontProcessing(msg));
                    },
                }
            } else {
                copy_vec(blob)
            };
            rfonts.push(FontData { id: j2 as u64, data: bytes, index: 0 });
            j2 = j2 + 1;
        }

        // Register the reconstructed images, in identifier order.
        let mut handles: Vec<ImageResource> = Vec::new();
        let mut j3: usize = 0;
        while j3 < icount
            invariant
                j3 <= icount,
                icount as int == archive_image_count(*self),
                icount <= self.images@.len(),
                icount <= self.manifest.images@.len(),
                rimgs@.len() == icount,
                forall|t: int| 0 <= t < icount ==> recon_image_ok(*self, t, #[trigger] rimgs@[t]),
                ctx.ctx_wf(),
                base == old(ctx).spec_next_id(),
                base + icount <= u64::MAX,
                ctx.spec_next_id() == base + j3,
                handles@.len() == j3,
                forall|t: int|
                    0 <= t < j3 ==> #[trigger] handles@[t] == recon_handle(*self, base, t),
                forall|t: int|
                    0 <= t < j3 ==> ctx.images_map().contains_key(#[trigger] ((base + t) as u64))
                        && recon_image_ok(*self, t, ctx.images_map()[(base + t) as u64]),
                forall|k: u64|
                    #![trigger old(ctx).images_map().contains_key(k)]
                    !(base <= k && k < base + j3) ==> (ctx.images_map().contains_key(k) == old(ctx).images_map().contains_key(k)) && (old(ctx).images_map().contains_key(k)
                        ==> ctx.images_map()[k] == old(ctx).images_map()[k]),
            decreases icount - j3,
        {
            let img = copy_image_data(&rimgs[j3]);
            let ghost pre_map = ctx.images_map();
            let ghost pre_next = ctx.spec_next_id();
            let ghost imgv = img;
            let h = ctx.register_image(img);
            handles.push(h);
            proof {
                assert(pre_next == base + j3);
                assert(pre_next < u64::MAX);
                assert(ctx.images_map() == pre_map.insert(pre_next, imgv));
                assert(crate::types::image_data_eqv(imgv, rimgs@[j3 as int]));
                assert(recon_image_ok(*self, j3 as int, imgv));
                assert(handles@[j3 as int] == recon_handle(*self, base, j3 as int));
                assert forall|t: int|
                    0 <= t < j3 + 1 implies ctx.images_map().contains_key(
                    #[trigger] ((base + t) as u64),
                ) && recon_image_ok(*self, t, ctx.images_map()[(base + t) as u64]) by {
                    if t < j3 {
                        assert(pre_map.contains_key((base + t) as u64));
                        assert((base + t) as u64 != pre_next);
                    }
                }
                assert forall|k: u64|
                    !(base <= k && k < base + (j3 + 1)) implies (ctx.images_map().contains_key(k)
                    == old(ctx).images_map().contains_key(k)) && (old(
                    ctx).images_map().contains_key(k) ==> ctx.images_map()[k] == old(
                    ctx).images_map()[k]) by {
                    assert(k != pre_next);
                    assert(pre_map.insert(pre_next, imgv).dom() =~= pre_map.dom().insert(
                        pre_next,
                    ));
                    assert(ctx.images_map().contains_key(k) == pre_map.contains_key(k));
                    assert(pre_map.contains_key(k) == old(ctx).images_map().contains_key(k));
                }
            }
            j3 = j3 + 1;
        }

        // Rebuild the command stream.
        let n = self.commands.len();
        let mut out: Vec<RenderCommand<FontData, ImageResource>> = Vec::new();
        let mut i: usize = 0;
        while i < n
            invariant
                i <= n,
                n == self.commands@.len(),
                icount as int == archive_image_count(*self),
                ctx.ctx_wf(),
                base == old(ctx).spec_next_id(),
                ctx.spec_next_id() == base + icount,
                forall|t: int|
                    0 <= t < icount ==> ctx.images_map().contains_key(
                        #[trigger] ((base + t) as u64),
                    ) && recon_image_ok(*self, t, ctx.images_map()[(base + t) as u64]),
                forall|k: u64|
                    #![trigger old(ctx).images_map().contains_key(k)]
                    !(base <= k && k < base + icount) ==> (ctx.images_map().contains_key(k)
                        == old(ctx).images_map().contains_key(k)) && (old(
                        ctx).images_map().contains_key(k) ==> ctx.images_map()[k] == old(
                        ctx).images_map()[k]),
                handles@.len() == icount,
                forall|t: int|
                    0 <= t < icount ==> #[trigger] handles@[t] == recon_handle(*self, base, t),
                rfonts@.len() == self.fonts@.len(),
                forall|t: int|
                    0 <= t < rfonts@.len() ==> {
                        let f = #[trigger] rfonts@[t];
                        f.id == t as u64 && f.data@ == recon_font_bytes(*self, t) && f.index == 0
                    },
                out@.len() == i,
                forall|t: int|
                    0 <= t < i ==> rec_cmd_rel(*self, base, self.commands@[t], #[trigger] out@[t]),
            decreases n - i,
        {
            let c = match self.recon_command(&self.commands[i], &rfonts, &handles, Ghost(base)) {
                Ok(c) => c,
                Err(e) => {
                    return Err(e);
                },
            };
            out.push(c);
            i = i + 1;
        }

        Ok(Scene { tolerance: self.manifest.tolerance, commands: out })
    }
}


/// Shorthand for the registered-image map of a recording context.
pub type RecordingRenderContextSpec = Map<u64, ImageData>;

} // verus!
