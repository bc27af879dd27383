//! Scenario and edge-case tests of the archive codec: pixel-format
//! normalization, integrity verification, the version gate, hashing, and
//! the configuration error paths.

use anyrender_serialize::archive::{
    ArchiveError, ResourceManifest, SceneArchive, SerializeConfig,
};
use anyrender_serialize::container::check_version;
use anyrender_serialize::null_backend::{
    NullImageRenderer, NullRenderContext, NullScenePainter, NullWindowRenderer,
};
use anyrender_serialize::hashing::hex_encode;
use anyrender_serialize::recording::{RecordingRenderContext, RenderCommand, Scene};
use anyrender_serialize::types::{
    Brush, Color, ColorSpaceTag, ColorStop, Extend, Fill, FontData, Glyph, Gradient,
    GradientKind, HueDirection, ImageAlphaType, ImageBrush, ImageData, ImageFormat, ImageSampler,
    Paint, PathEl, Point, RenderContext, Stroke,
};

fn pb64(x: f64) -> u64 {
    x.to_bits()
}

fn pb32(x: f32) -> u32 {
    x.to_bits()
}

fn p_identity() -> anyrender_serialize::types::Affine {
    anyrender_serialize::types::Affine {
        c0: pb64(1.0),
        c1: pb64(0.0),
        c2: pb64(0.0),
        c3: pb64(1.0),
        c4: pb64(0.0),
        c5: pb64(0.0),
    }
}

fn p_pt(x: f64, y: f64) -> Point {
    Point { x: pb64(x), y: pb64(y) }
}

fn p_rect(x0: f64, y0: f64, x1: f64, y1: f64) -> Vec<PathEl> {
    vec![
        PathEl::MoveTo(p_pt(x0, y0)),
        PathEl::LineTo(p_pt(x1, y0)),
        PathEl::LineTo(p_pt(x1, y1)),
        PathEl::LineTo(p_pt(x0, y1)),
        PathEl::ClosePath,
    ]
}

fn p_red() -> Color {
    Color { r: pb32(1.0), g: pb32(0.0), b: pb32(0.0), a: pb32(1.0) }
}

#[test]
fn bgra_image_normalizes_to_rgba_and_back() {
    // A single-pixel BGRA8 image: stored bytes are the red/blue-swapped
    // canonical RGBA8, and reading restores the original ordering.
    let original_bytes = vec![255u8, 0, 0, 255];
    let image = ImageData {
        data: original_bytes.clone(),
        format: ImageFormat::Bgra8,
        alpha_type: ImageAlphaType::Alpha,
        width: 1,
        height: 1,
    };
    let mut ctx = RecordingRenderContext::new();
    let resource = ctx.register_image(image);
    let mut scene = Scene::new();
    scene.fill(
        Fill::NonZero,
        p_identity(),
        Paint::Image(ImageBrush { image: resource, sampler: ImageSampler::new_default() }),
        None,
        p_rect(0.0, 0.0, 1.0, 1.0),
    );

    let archive = SceneArchive::from_scene(&ctx, &scene, &SerializeConfig::new()).unwrap();
    assert_eq!(archive.manifest.images.len(), 1);
    assert_eq!(archive.manifest.images[0].format, ImageFormat::Bgra8);
    assert_eq!(archive.images.len(), 1);
    assert_eq!(archive.images[0].data, vec![0u8, 0, 255, 255]);

    let bytes = archive.serialize().unwrap();
    let mut restore_ctx = RecordingRenderContext::new();
    let restored = SceneArchive::deserialize(&bytes)
        .unwrap()
        .to_scene(&mut restore_ctx)
        .unwrap();
    match &restored.commands[0] {
        RenderCommand::Fill(f) => match &f.brush {
            Brush::Image(ib) => {
                let data = restore_ctx.image_data(ib.image.id.0).unwrap();
                assert_eq!(data.format, ImageFormat::Bgra8);
                assert_eq!(data.data, original_bytes);
            }
            other => panic!("Expected image brush, got {other:?}"),
        },
        other => panic!("Expected Fill command, got {other:?}"),
    }
}

#[test]
fn version_mismatch_fails_deserialization() {
    // A manifest with any version other than the supported one is
    // rejected as unsupported, never parsed best-effort.
    let manifest = ResourceManifest {
        version: 2,
        tolerance: pb64(0.1),
        images: Vec::new(),
        fonts: Vec::new(),
    };
    let archive = SceneArchive {
        manifest,
        commands: Vec::new(),
        fonts: Vec::new(),
        images: Vec::new(),
    };
    let bytes = archive.serialize().unwrap();
    match SceneArchive::deserialize(&bytes) {
        Err(ArchiveError::UnsupportedVersion(v)) => assert_eq!(v, 2),
        other => panic!("Expected an unsupported-version error, got {other:?}"),
    }
}

#[test]
fn check_version_accepts_only_current() {
    assert!(check_version(1).is_ok());
    assert!(matches!(check_version(0), Err(ArchiveError::UnsupportedVersion(0))));
    assert!(matches!(check_version(2), Err(ArchiveError::UnsupportedVersion(2))));
}

#[test]
fn tampered_image_payload_fails_hash_check() {
    // Write an archive, then store a payload whose bytes differ in one
    // byte from what the manifest digest names: reading fails with a
    // hash mismatch, not a silent acceptance.
    let image = ImageData {
        data: vec![10u8, 20, 30, 255],
        format: ImageFormat::Rgba8,
        alpha_type: ImageAlphaType::Alpha,
        width: 1,
        height: 1,
    };
    let mut ctx = RecordingRenderContext::new();
    let resource = ctx.register_image(image);
    let mut scene = Scene::new();
    scene.fill(
        Fill::NonZero,
        p_identity(),
        Paint::Image(ImageBrush { image: resource, sampler: ImageSampler::new_default() }),
        None,
        p_rect(0.0, 0.0, 1.0, 1.0),
    );
    let archive = SceneArchive::from_scene(&ctx, &scene, &SerializeConfig::new()).unwrap();

    let mut tampered_pixels = archive.images[0].data.clone();
    tampered_pixels[0] ^= 1;
    let tampered = SceneArchive {
        manifest: archive.manifest,
        commands: archive.commands,
        fonts: archive.fonts,
        images: vec![ImageData {
            data: tampered_pixels,
            format: ImageFormat::Rgba8,
            alpha_type: ImageAlphaType::Alpha,
            width: 1,
            height: 1,
        }],
    };
    let bytes = tampered.serialize().unwrap();
    match SceneArchive::deserialize(&bytes) {
        Err(ArchiveError::InvalidFormat(_)) => {}
        other => panic!("Expected a hash-mismatch error, got {other:?}"),
    }
}

#[test]
fn tampered_font_payload_fails_hash_check() {
    let font = FontData::new(3, vec![1u8, 2, 3, 4, 5, 6, 7, 8], 0);
    let mut scene = Scene::new();
    scene.draw_glyphs(
        font,
        pb32(14.0),
        true,
        Vec::new(),
        anyrender_serialize::types::Style::Fill(Fill::NonZero),
        Paint::Solid(p_red()),
        pb32(1.0),
        p_identity(),
        None,
        vec![Glyph { id: 4, x: pb32(0.0), y: pb32(0.0) }],
    );
    let archive =
        SceneArchive::from_scene(&RecordingRenderContext::new(), &scene, &SerializeConfig::new())
            .unwrap();
    let mut tampered_font = archive.fonts[0].clone();
    tampered_font[0] ^= 1;
    let tampered = SceneArchive {
        manifest: archive.manifest,
        commands: archive.commands,
        fonts: vec![tampered_font],
        images: archive.images,
    };
    let bytes = tampered.serialize().unwrap();
    match SceneArchive::deserialize(&bytes) {
        Err(ArchiveError::InvalidFormat(_)) => {}
        other => panic!("Expected a hash-mismatch error, got {other:?}"),
    }
}

#[test]
fn hex_encode_known_bytes() {
    assert_eq!(hex_encode(&[]), "");
    assert_eq!(hex_encode(&[0x00, 0xab, 0xff, 0x10]), "00abff10");
}

#[test]
fn sha256_digest_of_empty_input_is_standard() {
    // The digest of the empty input is fixed by the hash standard; the
    // manifest of an archive with one empty-ish payload must carry a
    // real digest, not an echo of its input.
    let archive = SceneArchive::from_scene(
        &RecordingRenderContext::new(),
        &Scene::new(),
        &SerializeConfig::new(),
    )
    .unwrap();
    assert!(archive.manifest.images.is_empty());
    assert!(archive.manifest.fonts.is_empty());
    let font = FontData::new(9, Vec::new(), 0);
    let mut scene = Scene::new();
    scene.draw_glyphs(
        font,
        pb32(10.0),
        false,
        Vec::new(),
        anyrender_serialize::types::Style::Fill(Fill::NonZero),
        Paint::Solid(p_red()),
        pb32(1.0),
        p_identity(),
        None,
        Vec::new(),
    );
    let archive =
        SceneArchive::from_scene(&RecordingRenderContext::new(), &scene, &SerializeConfig::new())
            .unwrap();
    assert_eq!(
        archive.manifest.fonts[0].entry.sha256_hash,
        "e3b0c44298fc1c149afbf4c8996fb92427ae41e4649b934ca495991b7852b855"
    );
    assert_eq!(
        archive.manifest.fonts[0].entry.path,
        "fonts/e3b0c44298fc1c149afbf4c8996fb92427ae41e4649b934ca495991b7852b855.ttf"
    );
}

#[test]
fn subsetting_configuration_fails_font_processing() {
    // The subsetting backend is not linked in this build, so asking for
    // subsetting fails loudly instead of storing unsubsetted bytes.
    let font = FontData::new(5, vec![0u8; 64], 0);
    let mut scene = Scene::new();
    scene.draw_glyphs(
        font,
        pb32(12.0),
        false,
        Vec::new(),
        anyrender_serialize::types::Style::Fill(Fill::NonZero),
        Paint::Solid(p_red()),
        pb32(1.0),
        p_identity(),
        None,
        vec![Glyph { id: 2, x: pb32(0.0), y: pb32(0.0) }],
    );
    let config = SerializeConfig::new().with_subset_fonts(true);
    match SceneArchive::from_scene(&RecordingRenderContext::new(), &scene, &config) {
        Err(ArchiveError::FontProcessing(_)) => {}
        other => panic!("Expected a font-processing error, got {other:?}"),
    }
}

#[test]
fn woff2_of_garbage_font_fails_font_processing() {
    // The compression encoder parses its input; a blob that is not a
    // font is surfaced as a font-processing failure.
    let font = FontData::new(6, vec![0u8; 32], 0);
    let mut scene = Scene::new();
    scene.draw_glyphs(
        font,
        pb32(12.0),
        false,
        Vec::new(),
        anyrender_serialize::types::Style::Fill(Fill::NonZero),
        Paint::Solid(p_red()),
        pb32(1.0),
        p_identity(),
        None,
        vec![Glyph { id: 2, x: pb32(0.0), y: pb32(0.0) }],
    );
    let config = SerializeConfig::new().with_woff2_fonts(true);
    match SceneArchive::from_scene(&RecordingRenderContext::new(), &scene, &config) {
        Err(ArchiveError::FontProcessing(_)) => {}
        other => panic!("Expected a font-processing error, got {other:?}"),
    }
}

#[test]
fn gradient_and_dashed_stroke_roundtrip() {
    // Gradients and dash patterns carry many scalar payloads; all of
    // them must survive the text round trip bit for bit.
    let gradient = Gradient {
        kind: GradientKind::Radial {
            start_center: p_pt(1.5, 2.5),
            start_radius: pb32(0.5),
            end_center: p_pt(3.5, 4.5),
            end_radius: pb32(9.5),
        },
        extend: Extend::Reflect,
        interpolation_cs: ColorSpaceTag::Oklab,
        hue_direction: HueDirection::Longer,
        stops: vec![
            ColorStop { offset: pb32(0.0), color: p_red() },
            ColorStop {
                offset: pb32(1.0),
                color: Color { r: pb32(0.0), g: pb32(0.25), b: pb32(1.0), a: pb32(0.5) },
            },
        ],
    };
    let mut scene = Scene::new();
    scene.stroke(
        Stroke {
            width: pb64(2.0),
            miter_limit: pb64(10.0),
            start_cap: anyrender_serialize::types::Cap::Square,
            end_cap: anyrender_serialize::types::Cap::Butt,
            join: anyrender_serialize::types::Join::Bevel,
            dash_pattern: vec![pb64(4.0), pb64(2.0)],
            dash_offset: pb64(-1.0_f64),
        },
        p_identity(),
        Paint::Gradient(gradient),
        None,
        p_rect(0.0, 0.0, 10.0, 10.0),
    );
    let mut run_scene = Scene::new();
    run_scene.commands = scene.commands.clone();
    let data = SceneArchive::from_scene(
        &RecordingRenderContext::new(),
        &run_scene,
        &SerializeConfig::new(),
    )
    .unwrap()
    .serialize()
    .unwrap();
    let restored = SceneArchive::deserialize(&data)
        .unwrap()
        .to_scene(&mut RecordingRenderContext::new())
        .unwrap();
    assert_eq!(run_scene, restored);
}

#[test]
fn negative_variation_coords_roundtrip() {
    let font = FontData::new(8, vec![9u8; 16], 2);
    let mut scene = Scene::new();
    scene.draw_glyphs(
        font,
        pb32(11.0),
        true,
        vec![-5i16, 0, 37, -32768, 32767],
        anyrender_serialize::types::Style::Fill(Fill::EvenOdd),
        Paint::Solid(p_red()),
        pb32(0.5),
        p_identity(),
        Some(p_identity()),
        vec![Glyph { id: 11, x: pb32(-3.0), y: pb32(2.0) }],
    );
    let data = SceneArchive::from_scene(
        &RecordingRenderContext::new(),
        &scene,
        &SerializeConfig::new(),
    )
    .unwrap()
    .serialize()
    .unwrap();
    let restored = SceneArchive::deserialize(&data)
        .unwrap()
        .to_scene(&mut RecordingRenderContext::new())
        .unwrap();
    match &restored.commands[0] {
        RenderCommand::GlyphRun(run) => {
            assert_eq!(run.normalized_coords, vec![-5i16, 0, 37, -32768, 32767]);
            assert_eq!(run.font_data.index, 2);
            assert_eq!(run.font_data.data, vec![9u8; 16]);
        }
        other => panic!("Expected GlyphRun command, got {other:?}"),
    }
}

#[test]
fn custom_paint_collapses_to_transparent_fill() {
    // The documented lossy fallback: a custom paint records as a fully
    // transparent solid fill, not as an error.
    let mut scene = Scene::new();
    scene.fill(
        Fill::NonZero,
        p_identity(),
        Paint::Custom(anyrender_serialize::types::CustomPaint {
            source_id: 17,
            width: 64,
            height: 64,
            scale: pb64(2.0),
        }),
        None,
        p_rect(0.0, 0.0, 4.0, 4.0),
    );
    match &scene.commands[0] {
        RenderCommand::Fill(f) => {
            assert_eq!(f.brush, Brush::Solid(Color { r: 0, g: 0, b: 0, a: 0 }));
        }
        other => panic!("Expected Fill command, got {other:?}"),
    }
    assert_scene_roundtrips(&scene);
}

fn assert_scene_roundtrips(scene: &Scene) {
    let data = SceneArchive::from_scene(
        &RecordingRenderContext::new(),
        scene,
        &SerializeConfig::new(),
    )
    .unwrap()
    .serialize()
    .unwrap();
    let restored = SceneArchive::deserialize(&data)
        .unwrap()
        .to_scene(&mut RecordingRenderContext::new())
        .unwrap();
    assert_eq!(*scene, restored);
}

#[test]
fn missing_resource_id_fails_reconstruction() {
    // A command referencing an identifier outside the reconstructed
    // tables is fatal: no partially valid recording is returned.
    let mut ctx = RecordingRenderContext::new();
    let resource = ctx.register_image(ImageData {
        data: vec![1u8, 2, 3, 4],
        format: ImageFormat::Rgba8,
        alpha_type: ImageAlphaType::Alpha,
        width: 1,
        height: 1,
    });
    let mut scene = Scene::new();
    scene.fill(
        Fill::NonZero,
        p_identity(),
        Paint::Image(ImageBrush { image: resource, sampler: ImageSampler::new_default() }),
        None,
        p_rect(0.0, 0.0, 1.0, 1.0),
    );
    let archive = SceneArchive::from_scene(&ctx, &scene, &SerializeConfig::new()).unwrap();
    let broken = SceneArchive {
        manifest: ResourceManifest {
            version: archive.manifest.version,
            tolerance: archive.manifest.tolerance,
            images: Vec::new(),
            fonts: Vec::new(),
        },
        commands: archive.commands,
        fonts: Vec::new(),
        images: Vec::new(),
    };
    match broken.to_scene(&mut RecordingRenderContext::new()) {
        Err(ArchiveError::ResourceNotFound(id)) => assert_eq!(id.0, 0),
        other => panic!("Expected a resource-not-found error, got {other:?}"),
    }
}

#[test]
fn unregistering_resources_forgets_them() {
    let mut ctx = RecordingRenderContext::new();
    let a = ctx.register_image(make_img(vec![1, 1, 1, 1]));
    let b = ctx.register_image(make_img(vec![2, 2, 2, 2]));
    assert!(ctx.image_data(a.id.0).is_some());
    assert!(ctx.image_data(b.id.0).is_some());
    ctx.unregister_resource(a.id);
    assert!(ctx.image_data(a.id.0).is_none());
    assert_eq!(ctx.image_data(b.id.0).unwrap().data, vec![2, 2, 2, 2]);
}

fn make_img(data: Vec<u8>) -> ImageData {
    ImageData {
        data,
        format: ImageFormat::Rgba8,
        alpha_type: ImageAlphaType::Alpha,
        width: 1,
        height: 1,
    }
}

#[test]
fn null_backend_accepts_commands() {
    let mut ctx = NullRenderContext::new();
    let handle = ctx.register_image(make_img(vec![5, 5, 5, 5]));
    assert_eq!(handle.width, 1);
    let mut renderer = NullWindowRenderer::new();
    assert!(!renderer.is_active());
    renderer.resume();
    assert!(renderer.is_active());
    renderer.suspend();
    assert!(!renderer.is_active());
    let _ = NullImageRenderer::new();
    let _ = NullScenePainter::new();
}

#[test]
fn malformed_container_fails_with_zip_error() {
    let bytes = vec![0u8, 1, 2, 3, 4, 5, 6, 7];
    match SceneArchive::deserialize(&bytes) {
        Err(ArchiveError::Zip(_)) => {}
        other => panic!("Expected a container error, got {other:?}"),
    }
}

#[test]
fn malformed_manifest_fails_with_json_error() {
    let mut writer = zip::ZipWriter::new(std::io::Cursor::new(Vec::new()));
    let opts = zip::write::SimpleFileOptions::default();
    writer.start_file("resources.json", opts).unwrap();
    std::io::Write::write_all(&mut writer, b"hello").unwrap();
    let bytes = writer.finish().unwrap().into_inner();
    match SceneArchive::deserialize(&bytes) {
        Err(ArchiveError::Json(_)) => {}
        other => panic!("Expected a metadata error, got {other:?}"),
    }
}

#[test]
fn corrupt_image_payload_fails_with_image_error() {
    // Rebuild the container with garbage at the stored image path: the
    // PNG decoder rejects it before any hash comparison.
    let image = ImageData {
        data: vec![9u8, 8, 7, 255],
        format: ImageFormat::Rgba8,
        alpha_type: ImageAlphaType::Alpha,
        width: 1,
        height: 1,
    };
    let mut ctx = RecordingRenderContext::new();
    let resource = ctx.register_image(image);
    let mut scene = Scene::new();
    scene.fill(
        Fill::NonZero,
        p_identity(),
        Paint::Image(ImageBrush { image: resource, sampler: ImageSampler::new_default() }),
        None,
        p_rect(0.0, 0.0, 1.0, 1.0),
    );
    let archive = SceneArchive::from_scene(&ctx, &scene, &SerializeConfig::new()).unwrap();
    let image_path = archive.manifest.images[0].entry.path.clone();
    let bytes = archive.serialize().unwrap();

    let mut reader = zip::ZipArchive::new(std::io::Cursor::new(bytes)).unwrap();
    let mut writer = zip::ZipWriter::new(std::io::Cursor::new(Vec::new()));
    let opts = zip::write::SimpleFileOptions::default();
    for index in 0..reader.len() {
        let mut entry = reader.by_index(index).unwrap();
        let name = entry.name().to_owned();
        let mut payload = Vec::new();
        std::io::Read::read_to_end(&mut entry, &mut payload).unwrap();
        if name == image_path {
            payload = vec![0u8; 16];
        }
        writer.start_file(name, opts).unwrap();
        std::io::Write::write_all(&mut writer, &payload).unwrap();
    }
    let tampered = writer.finish().unwrap().into_inner();
    match SceneArchive::deserialize(&tampered) {
        Err(ArchiveError::Image(_)) => {}
        other => panic!("Expected an image decode error, got {other:?}"),
    }
}
