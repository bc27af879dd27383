//! Integration tests for scene serialization.

use anyrender_serialize::archive::{ResourceManifest, SceneArchive, SerializeConfig};
use anyrender_serialize::recording::{RecordingRenderContext, RenderCommand, Scene};
use anyrender_serialize::recording::BoxShadowCommand;
use anyrender_serialize::types::{
    BlendMode, Brush, Color, Compose, Fill, FontData, Glyph, ImageAlphaType, ImageBrush,
    ImageData, ImageFormat, ImageSampler, Mix, Paint, PathEl, Point, RenderContext, Stroke,
};

fn b64(x: f64) -> u64 {
    x.to_bits()
}

fn b32(x: f32) -> u32 {
    x.to_bits()
}

fn identity() -> anyrender_serialize::types::Affine {
    anyrender_serialize::types::Affine {
        c0: b64(1.0),
        c1: b64(0.0),
        c2: b64(0.0),
        c3: b64(1.0),
        c4: b64(0.0),
        c5: b64(0.0),
    }
}

fn translate(x: f64, y: f64) -> anyrender_serialize::types::Affine {
    anyrender_serialize::types::Affine {
        c0: b64(1.0),
        c1: b64(0.0),
        c2: b64(0.0),
        c3: b64(1.0),
        c4: b64(x),
        c5: b64(y),
    }
}

fn scale(s: f64) -> anyrender_serialize::types::Affine {
    anyrender_serialize::types::Affine {
        c0: b64(s),
        c1: b64(0.0),
        c2: b64(0.0),
        c3: b64(s),
        c4: b64(0.0),
        c5: b64(0.0),
    }
}

fn rotate(th: f64) -> anyrender_serialize::types::Affine {
    let (sin, cos) = th.sin_cos();
    anyrender_serialize::types::Affine {
        c0: b64(cos),
        c1: b64(sin),
        c2: b64(-sin),
        c3: b64(cos),
        c4: b64(0.0),
        c5: b64(0.0),
    }
}

fn pt(x: f64, y: f64) -> Point {
    Point { x: b64(x), y: b64(y) }
}

/// The flattened path of an axis-aligned rectangle.
fn rect_path(x0: f64, y0: f64, x1: f64, y1: f64) -> Vec<PathEl> {
    vec![
        PathEl::MoveTo(pt(x0, y0)),
        PathEl::LineTo(pt(x1, y0)),
        PathEl::LineTo(pt(x1, y1)),
        PathEl::LineTo(pt(x0, y1)),
        PathEl::ClosePath,
    ]
}

fn rgb8(r: u8, g: u8, b: u8) -> Color {
    Color {
        r: b32(r as f32 / 255.0),
        g: b32(g as f32 / 255.0),
        b: b32(b as f32 / 255.0),
        a: b32(1.0),
    }
}

fn rgba8(r: u8, g: u8, b: u8, a: u8) -> Color {
    Color {
        r: b32(r as f32 / 255.0),
        g: b32(g as f32 / 255.0),
        b: b32(b as f32 / 255.0),
        a: b32(a as f32 / 255.0),
    }
}

fn stroke_with_width(w: f64) -> Stroke {
    Stroke {
        width: b64(w),
        miter_limit: b64(4.0),
        start_cap: anyrender_serialize::types::Cap::Round,
        end_cap: anyrender_serialize::types::Cap::Round,
        join: anyrender_serialize::types::Join::Round,
        dash_pattern: Vec::new(),
        dash_offset: b64(0.0),
    }
}

fn default_config() -> SerializeConfig {
    SerializeConfig::new()
}

fn serialize_to_vec(
    ctx: &RecordingRenderContext,
    scene: &Scene,
    config: &SerializeConfig,
) -> Vec<u8> {
    SceneArchive::from_scene(ctx, scene, config)
        .unwrap()
        .serialize()
        .unwrap()
}

fn assert_scene_roundtrip(ctx: &RecordingRenderContext, scene: &Scene) {
    let data = serialize_to_vec(ctx, scene, &default_config());
    let restored = SceneArchive::deserialize(&data)
        .unwrap()
        .to_scene(&mut RecordingRenderContext::new())
        .unwrap();
    assert_eq!(*scene, restored);
}

fn make_1x1_image(r: u8, g: u8, b: u8, a: u8) -> ImageData {
    ImageData {
        data: vec![r, g, b, a],
        format: ImageFormat::Rgba8,
        alpha_type: ImageAlphaType::Alpha,
        width: 1,
        height: 1,
    }
}

fn extract_image_pixels(
    scene: &Scene,
    render_ctx: &RecordingRenderContext,
    command_index: usize,
) -> Vec<u8> {
    match &scene.commands[command_index] {
        RenderCommand::Fill(f) => match &f.brush {
            Brush::Image(img) => {
                let data = render_ctx
                    .image_data(img.image.id.0)
                    .expect("Image data not found for resource");
                data.data.clone()
            }
            other => panic!("Expected image brush, got {other:?}"),
        },
        other => panic!("Expected Fill command, got {other:?}"),
    }
}

/// A stand-in font blob: dedup and storage never parse it with the
/// default configuration.
fn test_font(id: u64, len: usize) -> FontData {
    let mut bytes = Vec::new();
    for i in 0..len {
        bytes.push((i % 251) as u8);
    }
    FontData::new(id, bytes, 0)
}

fn build_glyph_scene(font: &FontData) -> Scene {
    let mut scene = Scene::new();
    let glyphs = vec![
        Glyph { id: 43, x: b32(0.0), y: b32(0.0) },
        Glyph { id: 72, x: b32(10.0), y: b32(0.0) },
        Glyph { id: 79, x: b32(20.0), y: b32(0.0) },
    ];
    scene.draw_glyphs(
        font.clone(),
        b32(16.0),
        false,
        Vec::new(),
        anyrender_serialize::types::Style::Fill(Fill::NonZero),
        Paint::Solid(rgb8(0, 0, 0)),
        b32(1.0),
        translate(10.0, 50.0),
        None,
        glyphs,
    );
    scene
}

fn assert_glyph_run_preserved(restored: &Scene) {
    assert_eq!(restored.commands.len(), 1);

    match &restored.commands[0] {
        RenderCommand::GlyphRun(glyph_run) => {
            assert_eq!(glyph_run.font_size, b32(16.0));
            assert_eq!(glyph_run.hint, false);
            assert_eq!(glyph_run.brush_alpha, b32(1.0));
            assert_eq!(glyph_run.transform, translate(10.0, 50.0));
            assert_eq!(glyph_run.glyph_transform, None);
            assert_eq!(glyph_run.glyphs.len(), 3);
            // Glyph positions are preserved
            assert_eq!(glyph_run.glyphs[0].x, b32(0.0));
            assert_eq!(glyph_run.glyphs[1].x, b32(10.0));
            assert_eq!(glyph_run.glyphs[2].x, b32(20.0));
            // Glyph identifiers are preserved
            assert_eq!(glyph_run.glyphs[0].id, 43);
            assert_eq!(glyph_run.glyphs[1].id, 72);
            assert_eq!(glyph_run.glyphs[2].id, 79);
        }
        other => panic!("Expected GlyphRun command, got {other:?}"),
    }
}

#[test]
fn test_empty_scene_roundtrip() {
    assert_scene_roundtrip(&RecordingRenderContext::new(), &Scene::new());
}

/// Tests that all non-image and non-font command types survive a roundtrip.
#[test]
fn test_all_command_types_roundtrip() {
    let mut scene = Scene::new();

    // Layer with blend mode
    scene.push_layer(
        BlendMode { mix: Mix::Multiply, compose: Compose::SrcOver },
        b32(0.75),
        translate(5.0, 5.0),
        rect_path(0.0, 0.0, 500.0, 500.0),
    );

    // Fill (NonZero)
    scene.fill(
        Fill::NonZero,
        translate(10.0, 20.0),
        Paint::Solid(rgb8(255, 0, 0)),
        None,
        rect_path(0.0, 0.0, 100.0, 50.0),
    );

    // Fill (EvenOdd) with brush transform
    scene.fill(
        Fill::EvenOdd,
        identity(),
        Paint::Solid(rgb8(0, 0, 255)),
        Some(rotate(std::f64::consts::PI / 4.0)),
        rect_path(0.0, 0.0, 50.0, 50.0),
    );

    // Stroke
    scene.stroke(
        stroke_with_width(3.5),
        scale(2.0),
        Paint::Solid(rgb8(0, 255, 0)),
        None,
        rect_path(10.0, 10.0, 90.0, 90.0),
    );

    // Box shadow
    scene.draw_box_shadow(BoxShadowCommand {
        transform: translate(0.0, 100.0),
        rect_x0: b64(0.0),
        rect_y0: b64(0.0),
        rect_x1: b64(100.0),
        rect_y1: b64(50.0),
        brush: rgba8(0, 0, 0, 100),
        radius: b64(5.0),
        std_dev: b64(3.0),
    });

    // Clip layer
    scene.push_clip_layer(scale(1.5), rect_path(50.0, 50.0, 150.0, 150.0));
    scene.fill(
        Fill::NonZero,
        identity(),
        Paint::Solid(rgb8(255, 255, 0)),
        None,
        rect_path(0.0, 0.0, 200.0, 200.0),
    );
    scene.pop_layer();

    // Layer with compose blend mode
    scene.push_layer(
        BlendMode { mix: Mix::Normal, compose: Compose::SrcOver },
        b32(1.0),
        identity(),
        rect_path(0.0, 0.0, 500.0, 500.0),
    );
    scene.fill(
        Fill::NonZero,
        identity(),
        Paint::Solid(rgb8(128, 128, 128)),
        None,
        rect_path(0.0, 0.0, 100.0, 100.0),
    );
    scene.pop_layer();

    scene.pop_layer();

    assert_scene_roundtrip(&RecordingRenderContext::new(), &scene);
}

#[test]
fn test_image_data_roundtrip() {
    let pixels: Vec<u8> = vec![
        255, 0, 0, 255, // red
        0, 255, 0, 255, // green
        0, 0, 255, 255, // blue
        255, 255, 255, 255, // white
    ];
    let image_data = ImageData {
        data: pixels.clone(),
        format: ImageFormat::Rgba8,
        alpha_type: ImageAlphaType::Alpha,
        width: 2,
        height: 2,
    };

    let mut ctx = RecordingRenderContext::new();
    let resource = ctx.register_image(image_data);
    let image_brush = ImageBrush { image: resource, sampler: ImageSampler::new_default() };

    let mut scene = Scene::new();
    scene.fill(
        Fill::NonZero,
        identity(),
        Paint::Image(image_brush),
        None,
        rect_path(0.0, 0.0, 100.0, 100.0),
    );

    let data = serialize_to_vec(&ctx, &scene, &default_config());
    let archive = SceneArchive::deserialize(&data).unwrap();

    // Verify manifest metadata
    assert_eq!(archive.manifest.images.len(), 1);
    assert_eq!(archive.manifest.images[0].width, 2);
    assert_eq!(archive.manifest.images[0].height, 2);
    assert_eq!(archive.manifest.images[0].entry.size, 16);

    // Verify pixel data survives the roundtrip
    let mut restore_ctx = RecordingRenderContext::new();
    let restored = archive.to_scene(&mut restore_ctx).unwrap();
    assert_eq!(extract_image_pixels(&restored, &restore_ctx, 0), pixels);
}

#[test]
fn test_image_deduplication() {
    let mut ctx = RecordingRenderContext::new();
    let resource = ctx.register_image(make_1x1_image(255, 0, 0, 255));
    let image_brush = ImageBrush { image: resource, sampler: ImageSampler::new_default() };

    let mut scene = Scene::new();
    // Same image drawn twice
    scene.fill(
        Fill::NonZero,
        identity(),
        Paint::Image(image_brush),
        None,
        rect_path(0.0, 0.0, 50.0, 50.0),
    );
    scene.fill(
        Fill::NonZero,
        translate(50.0, 0.0),
        Paint::Image(image_brush),
        None,
        rect_path(0.0, 0.0, 50.0, 50.0),
    );

    let archive = SceneArchive::from_scene(&ctx, &scene, &default_config()).unwrap();
    assert_eq!(archive.commands.len(), 2);
    assert_eq!(archive.images.len(), 1); // deduplicated
}

#[test]
fn test_multiple_different_images() {
    let red_pixels = vec![255, 0, 0, 255];
    let blue_pixels = vec![0, 0, 255, 255];

    let mut ctx = RecordingRenderContext::new();
    let red_resource = ctx.register_image(make_1x1_image(255, 0, 0, 255));
    let blue_resource = ctx.register_image(make_1x1_image(0, 0, 255, 255));

    let mut scene = Scene::new();
    scene.fill(
        Fill::NonZero,
        identity(),
        Paint::Image(ImageBrush { image: red_resource, sampler: ImageSampler::new_default() }),
        None,
        rect_path(0.0, 0.0, 50.0, 50.0),
    );
    scene.fill(
        Fill::NonZero,
        identity(),
        Paint::Image(ImageBrush { image: blue_resource, sampler: ImageSampler::new_default() }),
        None,
        rect_path(0.0, 0.0, 50.0, 50.0),
    );

    let archive = SceneArchive::from_scene(&ctx, &scene, &default_config()).unwrap();
    assert_eq!(archive.commands.len(), 2);
    assert_eq!(archive.images.len(), 2);

    // Verify pixel data survives roundtrip
    let data = archive.serialize().unwrap();
    let mut restore_ctx = RecordingRenderContext::new();
    let restored = SceneArchive::deserialize(&data)
        .unwrap()
        .to_scene(&mut restore_ctx)
        .unwrap();
    assert_eq!(extract_image_pixels(&restored, &restore_ctx, 0), red_pixels);
    assert_eq!(extract_image_pixels(&restored, &restore_ctx, 1), blue_pixels);
}

#[test]
fn test_glyph_run_roundtrip() {
    let font = test_font(7, 1024);

    let scene = build_glyph_scene(&font);
    let data = serialize_to_vec(&RecordingRenderContext::new(), &scene, &default_config());
    let archive = SceneArchive::deserialize(&data).unwrap();

    // Verify font metadata
    assert_eq!(archive.manifest.fonts.len(), 1);

    assert!(archive.manifest.fonts[0].entry.path.ends_with(".ttf"));
    assert_eq!(archive.manifest.fonts[0].entry.size, font.data.len());
    let restored = archive.to_scene(&mut RecordingRenderContext::new()).unwrap();
    assert_glyph_run_preserved(&restored);
}

#[test]
fn test_font_deduplication() {
    let font = test_font(100, 640);

    let mut scene = Scene::new();
    // Two glyph runs with the same font
    for x_offset in [0.0, 100.0] {
        scene.draw_glyphs(
            font.clone(),
            b32(12.0),
            false,
            Vec::new(),
            anyrender_serialize::types::Style::Fill(Fill::NonZero),
            Paint::Solid(rgb8(0, 0, 0)),
            b32(1.0),
            translate(x_offset, 0.0),
            None,
            vec![Glyph { id: 1, x: b32(0.0), y: b32(0.0) }],
        );
    }

    let archive =
        SceneArchive::from_scene(&RecordingRenderContext::new(), &scene, &default_config())
            .unwrap();
    assert_eq!(archive.commands.len(), 2);
    assert_eq!(archive.fonts.len(), 1); // deduplicated
}

#[test]
fn test_resource_manifest_version() {
    assert_eq!(ResourceManifest::CURRENT_VERSION, 1);
}

#[test]
fn test_archive_contains_expected_files() {
    let mut scene = Scene::new();
    scene.fill(
        Fill::NonZero,
        identity(),
        Paint::Solid(rgb8(255, 0, 0)),
        None,
        rect_path(0.0, 0.0, 100.0, 100.0),
    );

    let data = serialize_to_vec(&RecordingRenderContext::new(), &scene, &default_config());
    let mut zip = zip::ZipArchive::new(std::io::Cursor::new(&data)).unwrap();

    // Verify resources.json
    let mut resources_json = String::new();
    std::io::Read::read_to_string(
        &mut zip.by_name("resources.json").unwrap(),
        &mut resources_json,
    )
    .unwrap();
    let manifest: serde_json::Value = serde_json::from_str(&resources_json).unwrap();
    assert_eq!(manifest["version"], 1);
    assert!(manifest["images"].as_array().unwrap().is_empty());
    assert!(manifest["fonts"].as_array().unwrap().is_empty());

    // Verify draw_commands.json
    let mut commands_json = String::new();
    std::io::Read::read_to_string(
        &mut zip.by_name("draw_commands.json").unwrap(),
        &mut commands_json,
    )
    .unwrap();
    let commands: serde_json::Value = serde_json::from_str(&commands_json).unwrap();
    assert_eq!(commands.as_array().unwrap().len(), 1);
}
