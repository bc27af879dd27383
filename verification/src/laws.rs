//! The codec's global guarantees, proved from the write and read
//! relations: round-trip identity and resource deduplication.

use vstd::prelude::*;

use crate::archive::{
    archive_image_count, archive_matches_scene, cmd_font, cmd_image_res, cmd_images_present,
    collect_font_keys, collect_fonts, collect_img_ids, distinct, font_key, idx_in, is_woff2,
    lemma_collect_fonts_align, lemma_collect_img_ids_distinct, lemma_collect_img_ids_prefix,
    lemma_collect_font_keys_prefix, lemma_contains_prefix, lemma_idx_in_position,
    lemma_rb_swapped_involutive, rec_cmd_rel, recon_image_ok, recon_font_bytes, ser_cmd_rel,
    SceneArchive, SerializeConfig,
};
use crate::recording::{clip_eqv, layer_eqv, RenderCommand, Scene};
use crate::types::{
    gradient_eqv, image_data_eqv, stroke_eqv, style_eqv, Brush, FontData, ImageData, ImageResource,
};

verus! {

/// How an original brush and its round-tripped counterpart correspond:
/// solid colors and gradients are equal, and an image brush points at a
/// registration with the same dimensions and the same pixel content.
pub open spec fn rt_brush_eqv(
    b1: Brush<ImageResource>,
    b2: Brush<ImageResource>,
    ctx1: Map<u64, ImageData>,
    ctx2: Map<u64, ImageData>,
) -> bool {
    match (b1, b2) {
        (Brush::Solid(c1), Brush::Solid(c2)) => c2 == c1,
        (Brush::Gradient(g1), Brush::Gradient(g2)) => gradient_eqv(g2, g1),
        (Brush::Image(i1), Brush::Image(i2)) => {
            &&& i2.sampler == i1.sampler
            &&& i2.image.width == i1.image.width
            &&& i2.image.height == i1.image.height
            &&& ctx1.contains_key(i1.image.id.0)
            &&& ctx2.contains_key(i2.image.id.0)
            &&& image_data_eqv(ctx2[i2.image.id.0], ctx1[i1.image.id.0])
        },
        _ => false,
    }
}

/// How an original command and its round-tripped counterpart correspond:
/// every copied field is equal; image handles satisfy [`rt_brush_eqv`];
/// a font carries the original blob bytes and face index.
pub open spec fn rt_cmd_eqv(
    c1: RenderCommand<FontData, ImageResource>,
    c2: RenderCommand<FontData, ImageResource>,
    ctx1: Map<u64, ImageData>,
    ctx2: Map<u64, ImageData>,
) -> bool {
    match (c1, c2) {
        (RenderCommand::PushLayer(a), RenderCommand::PushLayer(b)) => layer_eqv(b, a),
        (RenderCommand::PushClipLayer(a), RenderCommand::PushClipLayer(b)) => clip_eqv(b, a),
        (RenderCommand::PopLayer, RenderCommand::PopLayer) => true,
        (RenderCommand::Stroke(a), RenderCommand::Stroke(b)) => {
            &&& stroke_eqv(b.style, a.style)
            &&& b.transform == a.transform
            &&& rt_brush_eqv(a.brush, b.brush, ctx1, ctx2)
            &&& b.brush_transform == a.brush_transform
            &&& b.shape@ == a.shape@
        },
        (RenderCommand::Fill(a), RenderCommand::Fill(b)) => {
            &&& b.fill == a.fill
            &&& b.transform == a.transform
            &&& rt_brush_eqv(a.brush, b.brush, ctx1, ctx2)
            &&& b.brush_transform == a.brush_transform
            &&& b.shape@ == a.shape@
        },
        (RenderCommand::GlyphRun(a), RenderCommand::GlyphRun(b)) => {
            &&& b.font_data.data@ == a.font_data.data@
            &&& b.font_data.index == a.font_data.index
            &&& b.font_size == a.font_size
            &&& b.hint == a.hint
            &&& b.normalized_coords@ == a.normalized_coords@
            &&& style_eqv(b.style, a.style)
            &&& rt_brush_eqv(a.brush, b.brush, ctx1, ctx2)
            &&& b.brush_alpha == a.brush_alpha
            &&& b.transform == a.transform
            &&& b.glyph_transform == a.glyph_transform
            &&& b.glyphs@ == a.glyphs@
        },
        (RenderCommand::BoxShadow(a), RenderCommand::BoxShadow(b)) => b == a,
        _ => false,
    }
}

/// A scene fit for a byte-faithful round trip: every referenced image is
/// registered and its handle carries the registered dimensions; fonts
/// with one blob identity carry one byte content; and no font blob
/// begins with the WOFF2 signature, which the read path would take for a
/// compressed payload.
pub open spec fn scene_valid_for_roundtrip(ctx: Map<u64, ImageData>, scene: Scene) -> bool {
    &&& crate::archive::scene_images_present(ctx, scene)
    &&& forall|i: int|
        0 <= i < scene.commands@.len() ==> match #[trigger] cmd_image_res(scene.commands@[i]) {
            Some(res) => ctx[res.id.0].width == res.width && ctx[res.id.0].height == res.height,
            None => true,
        }
    &&& forall|i: int|
        0 <= i < scene.commands@.len() ==> match #[trigger] cmd_font(scene.commands@[i]) {
            Some(f) => !is_woff2(f.data@),
            None => true,
        }
    &&& forall|i: int, j: int|
        0 <= i < scene.commands@.len() && 0 <= j < scene.commands@.len() ==> match (
            #[trigger] cmd_font(scene.commands@[i]),
            #[trigger] cmd_font(scene.commands@[j]),
        ) {
            (Some(f1), Some(f2)) => f1.id == f2.id ==> f1.data@ == f2.data@,
            _ => true,
        }
}

/// Every identifier a command references appears in the collected list.
proof fn lemma_collect_contains_img(s: Seq<RenderCommand<FontData, ImageResource>>, i: int)
    requires
        0 <= i < s.len(),
        cmd_image_res(s[i]) is Some,
    ensures
        collect_img_ids(s).contains(cmd_image_res(s[i])->Some_0.id.0),
    decreases s.len(),
{
    let id = cmd_image_res(s[i])->Some_0.id.0;
    if i + 1 == s.len() {
        let p = collect_img_ids(s.drop_last());
        if p.contains(id) {
            assert(collect_img_ids(s) == p);
        } else {
            assert(collect_img_ids(s) == p.push(id));
            assert(collect_img_ids(s).last() == id);
        }
    } else {
        assert(s.drop_last()[i] == s[i]);
        lemma_collect_contains_img(s.drop_last(), i);
        assert(s.drop_last() =~= s.take(s.len() - 1));
        lemma_collect_img_ids_prefix(s, s.len() - 1);
        lemma_contains_prefix(collect_img_ids(s.take(s.len() - 1)), collect_img_ids(s), id);
    }
}

/// Every font key a command references appears in the collected list.
proof fn lemma_collect_contains_font(
    s: Seq<RenderCommand<FontData, ImageResource>>,
    i: int,
    subset: bool,
)
    requires
        0 <= i < s.len(),
        cmd_font(s[i]) is Some,
    ensures
        collect_font_keys(s, subset).contains(font_key(cmd_font(s[i])->Some_0, subset)),
    decreases s.len(),
{
    let key = font_key(cmd_font(s[i])->Some_0, subset);
    if i + 1 == s.len() {
        let p = collect_font_keys(s.drop_last(), subset);
        if p.contains(key) {
            assert(collect_font_keys(s, subset) == p);
        } else {
            assert(collect_font_keys(s, subset) == p.push(key));
            assert(collect_font_keys(s, subset).last() == key);
        }
    } else {
        assert(s.drop_last()[i] == s[i]);
        lemma_collect_contains_font(s.drop_last(), i, subset);
        assert(s.drop_last() =~= s.take(s.len() - 1));
        lemma_collect_font_keys_prefix(s, s.len() - 1, subset);
        lemma_contains_prefix(
            collect_font_keys(s.take(s.len() - 1), subset),
            collect_font_keys(s, subset),
            key,
        );
    }
}

/// Every collected font is the font of some command.
proof fn lemma_collect_fonts_member(
    s: Seq<RenderCommand<FontData, ImageResource>>,
    j: int,
    subset: bool,
)
    requires
        0 <= j < collect_fonts(s, subset).len(),
    ensures
        exists|i: int|
            0 <= i < s.len() && #[trigger] cmd_font(s[i]) == Some(collect_fonts(s, subset)[j]),
    decreases s.len(),
{
    if s.len() > 0 {
        let p = collect_fonts(s.drop_last(), subset);
        if j < p.len() {
            lemma_collect_fonts_member(s.drop_last(), j, subset);
            let i = choose|i: int|
                0 <= i < s.drop_last().len() && #[trigger] cmd_font(s.drop_last()[i]) == Some(
                    p[j],
                );
            assert(s[i] == s.drop_last()[i]);
            assert(cmd_font(s[i]) == Some(collect_fonts(s, subset)[j]));
        } else {
            assert(cmd_font(s.last()) == Some(collect_fonts(s, subset)[j]));
            assert(s[s.len() - 1] == s.last());
        }
    }
}

/// In a duplicate-free list that holds a value, `idx_in` points at it.
proof fn lemma_idx_in_member<T>(s: Seq<T>, x: T)
    requires
        distinct(s),
        s.contains(x),
    ensures
        0 <= idx_in(s, x) < s.len(),
        s[idx_in(s, x)] == x,
{
    let k = choose|k: int| 0 <= k < s.len() && s[k] == x;
    lemma_idx_in_position(s, k);
}

/// Round-trip identity: an archive written from a valid recording and
/// read back yields the same command stream, the same tolerance, and,
/// for every resource reference, a freshly registered resource with the
/// same content, the empty recording included.  Subsetting and
/// compression are off, as in the default configuration, so stored
/// payloads are byte-faithful.
pub proof fn lemma_roundtrip(
    ctx1: Map<u64, ImageData>,
    scene: Scene,
    config: SerializeConfig,
    a: SceneArchive,
    base: u64,
    s2: Scene,
    ctx2: Map<u64, ImageData>,
)
    requires
        !config.spec_subset_fonts(),
        !config.spec_woff2_fonts(),
        scene_valid_for_roundtrip(ctx1, scene),
        archive_matches_scene(ctx1, scene, config, a),
        s2.tolerance == a.manifest.tolerance,
        s2.commands@.len() == a.commands@.len(),
        forall|i: int|
            0 <= i < a.commands@.len() ==> rec_cmd_rel(
                a,
                base,
                a.commands@[i],
                #[trigger] s2.commands@[i],
            ),
        forall|j: int|
            0 <= j < archive_image_count(a) ==> ctx2.contains_key(#[trigger] ((base + j) as u64))
                && recon_image_ok(a, j, ctx2[(base + j) as u64]),
        base + archive_image_count(a) <= u64::MAX,
    ensures
        s2.tolerance == scene.tolerance,
        s2.commands@.len() == scene.commands@.len(),
        forall|i: int|
            0 <= i < scene.commands@.len() ==> rt_cmd_eqv(
                scene.commands@[i],
                #[trigger] s2.commands@[i],
                ctx1,
                ctx2,
            ),
{
    let cmds = scene.commands@;
    let subset = config.spec_subset_fonts();
    let img_ids = collect_img_ids(cmds);
    let fkeys = collect_font_keys(cmds, subset);
    let forder = collect_fonts(cmds, subset);
    lemma_collect_img_ids_distinct(cmds);
    lemma_collect_fonts_align(cmds, subset);
    assert(archive_image_count(a) == img_ids.len());
    assert forall|i: int| 0 <= i < cmds.len() implies rt_cmd_eqv(
        cmds[i],
        #[trigger] s2.commands@[i],
        ctx1,
        ctx2,
    ) by {
        let c1 = cmds[i];
        let cs = a.commands@[i];
        let c2 = s2.commands@[i];
        assert(ser_cmd_rel(c1, cs, img_ids, fkeys, subset));
        assert(rec_cmd_rel(a, base, cs, c2));
        match cmd_image_res(c1) {
            Some(res) => {
                lemma_collect_contains_img(cmds, i);
                lemma_idx_in_member(img_ids, res.id.0);
                let sid = idx_in(img_ids, res.id.0);
                assert(img_ids[sid] == res.id.0);
                let orig = ctx1[res.id.0];
                assert(cmd_images_present(ctx1, cmds[i]));
                assert(a.images@[sid].data@ == crate::archive::to_rgba_bytes(orig));
                assert(crate::archive::image_entry_matches(
                    a.manifest.images@[sid],
                    sid,
                    ctx1[img_ids[sid]],
                ));
                assert(a.manifest.images@[sid].format == orig.format);
                assert(ctx2.contains_key((base + sid) as u64));
                assert(recon_image_ok(a, sid, ctx2[(base + sid) as u64]));
                lemma_rb_swapped_involutive(orig.data@);
                assert(ctx2[(base + sid) as u64].data@ == orig.data@);
                assert(image_data_eqv(ctx2[(base + sid) as u64], orig));
            },
            None => {},
        }
        match cmd_font(c1) {
            Some(f) => {
                let key = font_key(f, subset);
                lemma_collect_contains_font(cmds, i, subset);
                lemma_idx_in_member(fkeys, key);
                let rid = idx_in(fkeys, key);
                assert(fkeys[rid] == key);
                assert(font_key(forder[rid], subset) == key);
                assert(forder[rid].id == f.id);
                lemma_collect_fonts_member(cmds, rid, subset);
                let w = choose|w: int|
                    0 <= w < cmds.len() && #[trigger] cmd_font(cmds[w]) == Some(forder[rid]);
                assert(forder[rid].data@ == f.data@);
                assert(a.fonts@[rid]@ == forder[rid].data@);
                assert(!is_woff2(a.fonts@[rid]@));
                assert(recon_font_bytes(a, rid) == a.fonts@[rid]@);
            },
            None => {},
        }
        assert(rt_cmd_eqv(c1, c2, ctx1, ctx2));
    }
}

/// Image deduplication: two commands that reference one content identity
/// reference one serialized resource, and the archive stores one image
/// entry per distinct referenced identity.
pub proof fn lemma_image_dedup(
    ctx: Map<u64, ImageData>,
    scene: Scene,
    config: SerializeConfig,
    a: SceneArchive,
    i1: int,
    i2: int,
)
    requires
        archive_matches_scene(ctx, scene, config, a),
        0 <= i1 < scene.commands@.len(),
        0 <= i2 < scene.commands@.len(),
        cmd_image_res(scene.commands@[i1]) is Some,
        cmd_image_res(scene.commands@[i2]) is Some,
        cmd_image_res(scene.commands@[i1])->Some_0.id == cmd_image_res(
            scene.commands@[i2],
        )->Some_0.id,
    ensures
        crate::archive::ser_cmd_image_id(a.commands@[i1]) is Some,
        crate::archive::ser_cmd_image_id(a.commands@[i1]) == crate::archive::ser_cmd_image_id(
            a.commands@[i2],
        ),
        a.images@.len() == collect_img_ids(scene.commands@).len(),
        distinct(collect_img_ids(scene.commands@)),
{
    let cmds = scene.commands@;
    let subset = config.spec_subset_fonts();
    let img_ids = collect_img_ids(cmds);
    lemma_collect_img_ids_distinct(cmds);
    assert(ser_cmd_rel(cmds[i1], a.commands@[i1], img_ids, collect_font_keys(cmds, subset), subset));
    assert(ser_cmd_rel(cmds[i2], a.commands@[i2], img_ids, collect_font_keys(cmds, subset), subset));
}

/// Font deduplication: two glyph runs whose fonts share one
/// deduplication key reference one serialized font resource, and the
/// archive stores one font entry per distinct key.
pub proof fn lemma_font_dedup(
    ctx: Map<u64, ImageData>,
    scene: Scene,
    config: SerializeConfig,
    a: SceneArchive,
    i1: int,
    i2: int,
)
    requires
        archive_matches_scene(ctx, scene, config, a),
        0 <= i1 < scene.commands@.len(),
        0 <= i2 < scene.commands@.len(),
        cmd_font(scene.commands@[i1]) is Some,
        cmd_font(scene.commands@[i2]) is Some,
        font_key(cmd_font(scene.commands@[i1])->Some_0, config.spec_subset_fonts()) == font_key(
            cmd_font(scene.commands@[i2])->Some_0,
            config.spec_subset_fonts(),
        ),
    ensures
        a.commands@[i1] is GlyphRun,
        a.commands@[i2] is GlyphRun,
        a.commands@[i1]->GlyphRun_0.font_data.resource_id == a.commands@[
            i2
        ]->GlyphRun_0.font_data.resource_id,
        a.fonts@.len() == collect_font_keys(scene.commands@, config.spec_subset_fonts()).len(),
        distinct(collect_font_keys(scene.commands@, config.spec_subset_fonts())),
{
    let cmds = scene.commands@;
    let subset = config.spec_subset_fonts();
    let fkeys = collect_font_keys(cmds, subset);
    lemma_collect_fonts_align(cmds, subset);
    assert(ser_cmd_rel(cmds[i1], a.commands@[i1], collect_img_ids(cmds), fkeys, subset));
    assert(ser_cmd_rel(cmds[i2], a.commands@[i2], collect_img_ids(cmds), fkeys, subset));
}

} // verus!
