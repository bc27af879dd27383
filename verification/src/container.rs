//! Archive container I/O: the named-entry byte store holding the
//! manifest, the command stream, and one entry per stored resource.

use vstd::prelude::*;
use vstd::string::StringExecFns;

use image::ImageEncoder;

use crate::archive::{ArchiveError, ResourceManifest, SceneArchive, SerializableRenderCommand};
use crate::hashing::{hex_of, sha256_of, sha256_hex};
use crate::json::{string_to_utf8, utf8_of, utf8_to_string};
use crate::json_manifest::{emit_manifest, j_manifest, parse_manifest};
use crate::json_scene::{commands_to_text, j_cmds, parse_commands_text};
use crate::types::{copy_vec, ImageData, ImageFormat};

verus! {

/// The named entries a container's bytes hold, when they are a
/// well-formed container.
pub uninterp spec fn container_entries_of(bytes: Seq<u8>) -> Option<Map<Seq<char>, Seq<u8>>>;

/// A name-to-payload list folded into a map, later entries winning, as a
/// container stores it.
pub open spec fn entries_list_map(s: Seq<(String, Vec<u8>)>) -> Map<Seq<char>, Seq<u8>>
    decreases s.len(),
{
    if s.len() == 0 {
        Map::empty()
    } else {
        entries_list_map(s.drop_last()).insert(s.last().0@, s.last().1@)
    }
}

/// A name list fit for a container: pairwise distinct and short enough
/// that each UTF-8 encoding fits the format's length field.
pub open spec fn container_names_ok(entries: Seq<(String, Vec<u8>)>) -> bool {
    &&& forall|i: int, j: int|
        0 <= i < j < entries.len() ==> (#[trigger] entries[i]).0@ != (#[trigger] entries[j]).0@
    &&& forall|i: int| 0 <= i < entries.len() ==> (#[trigger] entries[i]).0@.len() <= 0x3FFF
}

/// Relies on zip::ZipWriter::new, start_file (with the large-file
/// option, so payload sizes never overflow the format's plain size
/// fields), std::io::Write::write_all and finish: the produced bytes are
/// a well-formed container holding exactly the entries given, in order,
/// a later entry with a repeated name winning on lookup; writing to an
/// in-memory vector fails only on a repeated or overlong entry name.
#[verifier::external_body]
fn write_container(entries: &Vec<(String, Vec<u8>)>) -> (r: Result<Vec<u8>, String>)
    ensures
        r matches Ok(bytes) ==> container_entries_of(bytes@) == Some(entries_list_map(entries@)),
        r is Err ==> !container_names_ok(entries@),
{
    let mut writer = zip::ZipWriter::new(std::io::Cursor::new(Vec::new()));
    let opts = zip::write::SimpleFileOptions::default().large_file(true);
    for (name, data) in entries.iter() {
        writer.start_file(name, opts).map_err(|e| format!("{e}"))?;
        std::io::Write::write_all(&mut writer, data).map_err(|e| format!("{e}"))?;
    }
    Ok(writer.finish().map_err(|e| format!("{e}"))?.into_inner())
}

/// Relies on zip::ZipArchive::new, zip::ZipArchive::by_name and
/// std::io::Read::read_to_end: reading is a function of the container
/// bytes; a present entry yields its stored bytes, an absent entry or a
/// malformed container an error.
#[verifier::external_body]
pub(crate) fn read_entry(bytes: &Vec<u8>, name: &str) -> (r: Result<Vec<u8>, String>)
    ensures
        r matches Ok(v) ==> container_entries_of(bytes@) matches Some(es) && es.contains_key(
            name@,
        ) && v@ == es[name@],
        r is Err ==> (container_entries_of(bytes@) is None || !container_entries_of(
            bytes@,
        )->Some_0.contains_key(name@)),
{
    let cursor = std::io::Cursor::new(bytes.as_slice());
    let mut archive = zip::ZipArchive::new(cursor).map_err(|e| format!("{e}"))?;
    let mut file = archive.by_name(name).map_err(|e| format!("{e}"))?;
    let mut out = Vec::new();
    std::io::Read::read_to_end(&mut file, &mut out).map_err(|e| format!("{e}"))?;
    Ok(out)
}

/// The PNG encoding of a canonical RGBA8 pixel buffer, as the outside
/// encoder computes it.
pub uninterp spec fn png_of(rgba: Seq<u8>, width: u32, height: u32) -> Seq<u8>;

/// The RGBA8 pixels the outside decoder reads from PNG bytes.
pub uninterp spec fn png_decoded(data: Seq<u8>) -> Seq<u8>;

/// Relies on image::codecs::png::PngEncoder::write_image: the output
/// depends on the pixels and dimensions alone, and with a correctly
/// sized buffer written to an in-memory vector the encoder rejects only
/// a zero width or height.
#[verifier::external_body]
fn png_encode(rgba: &Vec<u8>, width: u32, height: u32) -> (r: Result<Vec<u8>, String>)
    requires
        rgba@.len() as int == 4 * ((width as int) * (height as int)),
    ensures
        r matches Ok(v) ==> v@ == png_of(rgba@, width, height),
        r is Err ==> !(width > 0 && height > 0),
{
    let mut out = Vec::new();
    let encoder = image::codecs::png::PngEncoder::new(&mut out);
    encoder.write_image(rgba.as_slice(), width, height, image::ExtendedColorType::Rgba8).map_err(
        |e| format!("{e}"),
    )?;
    Ok(out)
}

/// Relies on image::ImageReader with the allocation limits switched off
/// and image::DynamicImage::into_rgba8: decoding depends on the bytes
/// alone, and PNG is lossless, so the encoding of an RGBA8 buffer with
/// format-representable dimensions (nonzero, below two to the
/// thirty-first) decodes back to that buffer.
#[verifier::external_body]
fn png_decode(data: &Vec<u8>) -> (r: Result<Vec<u8>, String>)
    ensures
        r matches Ok(v) ==> v@ == png_decoded(data@) && (forall|d: Seq<u8>, w: u32, h: u32|
            data@ == #[trigger] png_of(d, w, h) && d.len() == 4 * ((w as int) * (h as int))
                && 0 < w < 0x8000_0000u32 && 0 < h < 0x8000_0000u32 ==> v@ == d),
        r is Err ==> (forall|d: Seq<u8>, w: u32, h: u32|
            !(data@ == #[trigger] png_of(d, w, h) && d.len() == 4 * ((w as int) * (h as int))
                && 0 < w < 0x8000_0000u32 && 0 < h < 0x8000_0000u32)),
{
    let cursor = std::io::Cursor::new(data.as_slice());
    let mut reader = image::ImageReader::with_format(cursor, image::ImageFormat::Png);
    reader.no_limits();
    match reader.decode() {
        Ok(img) => Ok(img.into_rgba8().into_raw()),
        Err(e) => Err(format!("{e}")),
    }
}

/// The entry map after the image payloads of the first `n` manifest
/// entries are stored.
pub open spec fn entries_with_images(
    m0: Map<Seq<char>, Seq<u8>>,
    a: SceneArchive,
    n: int,
) -> Map<Seq<char>, Seq<u8>>
    decreases n,
{
    if n <= 0 {
        m0
    } else {
        entries_with_images(m0, a, n - 1).insert(
            a.manifest.images@[n - 1].entry.path@,
            png_of(a.images@[n - 1].data@, a.images@[n - 1].width, a.images@[n - 1].height),
        )
    }
}

/// The entry map after the font payloads of the first `n` manifest
/// entries are stored.
pub open spec fn entries_with_fonts(
    m0: Map<Seq<char>, Seq<u8>>,
    a: SceneArchive,
    n: int,
) -> Map<Seq<char>, Seq<u8>>
    decreases n,
{
    if n <= 0 {
        m0
    } else {
        entries_with_fonts(m0, a, n - 1).insert(
            a.manifest.fonts@[n - 1].entry.path@,
            a.fonts@[n - 1]@,
        )
    }
}

/// The named entries a serialized archive holds: the manifest, the
/// command stream, and one payload per resource at its manifest path.
pub open spec fn archive_entry_map(a: SceneArchive) -> Map<Seq<char>, Seq<u8>> {
    let m0 = Map::<Seq<char>, Seq<u8>>::empty().insert(
        "resources.json"@,
        utf8_of(j_manifest(a.manifest)),
    ).insert("draw_commands.json"@, utf8_of(j_cmds(a.commands@)));
    let m1 = entries_with_images(m0, a, a.images@.len() as int);
    entries_with_fonts(m1, a, a.fonts@.len() as int)
}

/// Reject a manifest version other than the supported one.  A version
/// mismatch is always fatal, by design, so a future format is never
/// silently misread.
pub fn check_version(version: u32) -> (r: Result<(), ArchiveError>)
    ensures
        r is Ok <==> version == ResourceManifest::CURRENT_VERSION,
        r matches Err(e) ==> e == ArchiveError::UnsupportedVersion(version),
{
    if version == 1 {
        Ok(())
    } else {
        Err(ArchiveError::UnsupportedVersion(version))
    }
}

/// Verify a stored payload against its manifest digest: accepted exactly
/// when the recomputed digest equals the stored one.
pub fn verify_payload(expected_hex: &String, data: &[u8]) -> (r: Result<(), ArchiveError>)
    ensures
        r is Ok <==> expected_hex@ == hex_of(sha256_of(data@)),
        r matches Err(e) ==> e is InvalidFormat,
{
    let actual = sha256_hex(data);
    if actual.eq(expected_hex) {
        Ok(())
    } else {
        let mut msg = String::new();
        msg.append("hash mismatch: expected ");
        msg.append(expected_hex.as_str());
        msg.append(", got ");
        msg.append(actual.as_str());
        Err(ArchiveError::InvalidFormat(msg))
    }
}


/// A short, unreserved entry name.
pub open spec fn ok_path_name(n: Seq<char>) -> bool {
    &&& n != "resources.json"@
    &&& n != "draw_commands.json"@
    &&& n.len() <= 0x3FFF
}

/// An archive whose container write cannot fail: lists line up, every
/// pixel buffer matches its nonzero dimensions, and the manifest paths
/// are pairwise distinct, short, and distinct from the two metadata
/// entry names.
pub open spec fn serializable(a: SceneArchive) -> bool {
    let imgs = a.manifest.images@;
    let fnts = a.manifest.fonts@;
    &&& imgs.len() == a.images@.len()
    &&& fnts.len() == a.fonts@.len()
    &&& forall|j: int|
        0 <= j < a.images@.len() ==> {
            let img = #[trigger] a.images@[j];
            &&& img.data@.len() == 4 * ((img.width as int) * (img.height as int))
            &&& img.width > 0
            &&& img.height > 0
        }
    &&& forall|i: int| 0 <= i < imgs.len() ==> ok_path_name((#[trigger] imgs[i]).entry.path@)
    &&& forall|i: int| 0 <= i < fnts.len() ==> ok_path_name((#[trigger] fnts[i]).entry.path@)
    &&& forall|i: int, j: int|
        0 <= i < j < imgs.len() ==> (#[trigger] imgs[i]).entry.path@ != (
        #[trigger] imgs[j]).entry.path@
    &&& forall|i: int, j: int|
        0 <= i < j < fnts.len() ==> (#[trigger] fnts[i]).entry.path@ != (
        #[trigger] fnts[j]).entry.path@
    &&& forall|i: int, j: int|
        0 <= i < imgs.len() && 0 <= j < fnts.len() ==> (#[trigger] imgs[i]).entry.path@ != (
        #[trigger] fnts[j]).entry.path@
}

impl SceneArchive {
    /// Serialize the archive into container bytes.
    ///
    /// The container holds the manifest under `resources.json`, the
    /// command stream under `draw_commands.json`, each image as PNG at
    /// its manifest path and each font at its manifest path.  Writing
    /// cannot fail for a [`serializable`] archive: well-sized nonzero
    /// pixel buffers and distinct, unreserved, short paths.
    pub fn serialize(&self) -> (r: Result<Vec<u8>, ArchiveError>)
        requires
            self.manifest.images@.len() == self.images@.len(),
            self.manifest.fonts@.len() == self.fonts@.len(),
        ensures
            r matches Ok(bytes) ==> container_entries_of(bytes@) == Some(
                archive_entry_map(*self),
            ),
            r matches Err(e) ==> (e is Zip || e is Image || e is InvalidFormat),
            serializable(*self) ==> r is Ok,
    {
        let mut entries: Vec<(String, Vec<u8>)> = Vec::new();
        let manifest_text = emit_manifest(&self.manifest);
        let manifest_bytes = string_to_utf8(manifest_text);
        entries.push((lit_string("resources.json"), manifest_bytes));
        let commands_text = commands_to_text(&self.commands);
        let commands_bytes = string_to_utf8(commands_text);
        entries.push((lit_string("draw_commands.json"), commands_bytes));
        let ghost m0 = Map::<Seq<char>, Seq<u8>>::empty().insert(
            "resources.json"@,
            utf8_of(j_manifest(self.manifest)),
        ).insert("draw_commands.json"@, utf8_of(j_cmds(self.commands@)));
        proof {
            let s2 = entries@;
            assert(s2.len() == 2);
            assert(s2.drop_last().drop_last() =~= Seq::<(String, Vec<u8>)>::empty());
            assert(s2.drop_last().last() == s2[0]);
            assert(s2.last() == s2[1]);
            assert(s2[0].0@ == "resources.json"@);
            assert(s2[0].1@ == utf8_of(j_manifest(self.manifest)));
            assert(s2[1].0@ == "draw_commands.json"@);
            assert(s2[1].1@ == utf8_of(j_cmds(self.commands@)));
            assert(s2.drop_last().len() == 1);
            assert(entries_list_map(s2) == entries_list_map(s2.drop_last()).insert(
                s2.last().0@,
                s2.last().1@,
            ));
            assert(entries_list_map(s2.drop_last()) == entries_list_map(
                s2.drop_last().drop_last(),
            ).insert(s2.drop_last().last().0@, s2.drop_last().last().1@));
            assert(entries_list_map(s2.drop_last().drop_last()) == Map::<Seq<char>, Seq<u8>>::empty());
            assert(entries_list_map(s2) =~= m0);
        }
        let img_n = self.images.len();
        let mut i: usize = 0;
        while i < img_n
            invariant
                i <= img_n,
                img_n == self.images@.len(),
                img_n == self.manifest.images@.len(),
                entries_list_map(entries@) == entries_with_images(m0, *self, i as int),
                entries@.len() == 2 + i,
                entries@[0].0@ == "resources.json"@,
                entries@[1].0@ == "draw_commands.json"@,
                forall|t: int|
                    0 <= t < i ==> (#[trigger] entries@[2 + t]).0@ == self.manifest.images@[
                        t
                    ].entry.path@,
            decreases img_n - i,
        {
            let img = &self.images[i];
            let w128: u128 = img.width as u128;
            let h128: u128 = img.height as u128;
            proof {
                assert(w128 * h128 < 0x10000000000000000u128) by (nonlinear_arith)
                    requires
                        w128 < 0x100000000u128,
                        h128 < 0x100000000u128,
                ;
            }
            let expected: u128 = 4u128 * (w128 * h128);
            if img.data.len() as u128 != expected {
                proof {
                    assert(!serializable(*self)) by {
                        if serializable(*self) {
                            assert(self.images@[i as int].data@.len() == 4 * ((
                            self.images@[i as int].width as int) * (
                            self.images@[i as int].height as int)));
                        }
                    };
                }
                return Err(ArchiveError::InvalidFormat(buffer_size_message()));
            }
            let png = match png_encode(&img.data, img.width, img.height) {
                Ok(v) => v,
                Err(e) => {
                    proof {
                        assert(!serializable(*self)) by {
                            if serializable(*self) {
                                assert(self.images@[i as int].width > 0);
                                assert(self.images@[i as int].height > 0);
                            }
                        };
                    }
                    return Err(ArchiveError::Image(e));
                },
            };
            let ghost pre = entries@;
            entries.push((self.manifest.images[i].entry.path.clone(), png));
            proof {
                assert(entries@.drop_last() =~= pre);
                assert forall|t: int|
                    0 <= t < i + 1 implies (#[trigger] entries@[2 + t]).0@ == self.manifest.images@[
                    t
                ].entry.path@ by {
                    if t < i {
                        assert(entries@[2 + t] == pre[2 + t]);
                    }
                }
            }
            i = i + 1;
        }
        let font_n = self.fonts.len();
        let ghost m1 = entries_with_images(m0, *self, img_n as int);
        let mut k: usize = 0;
        while k < font_n
            invariant
                k <= font_n,
                font_n == self.fonts@.len(),
                font_n == self.manifest.fonts@.len(),
                img_n == self.manifest.images@.len(),
                entries_list_map(entries@) == entries_with_fonts(m1, *self, k as int),
                entries@.len() == 2 + img_n + k,
                entries@[0].0@ == "resources.json"@,
                entries@[1].0@ == "draw_commands.json"@,
                forall|t: int|
                    0 <= t < img_n ==> (#[trigger] entries@[2 + t]).0@ == self.manifest.images@[
                        t
                    ].entry.path@,
                forall|t: int|
                    0 <= t < k ==> (#[trigger] entries@[2 + img_n + t]).0@ == self.manifest.fonts@[
                        t
                    ].entry.path@,
            decreases font_n - k,
        {
            let data = copy_vec(&self.fonts[k]);
            let ghost pre = entries@;
            entries.push((self.manifest.fonts[k].entry.path.clone(), data));
            proof {
                assert(entries@.drop_last() =~= pre);
                assert forall|t: int|
                    0 <= t < img_n implies (#[trigger] entries@[2 + t]).0@ == self.manifest.images@[
                    t
                ].entry.path@ by {
                    assert(entries@[2 + t] == pre[2 + t]);
                }
                assert forall|t: int|
                    0 <= t < k + 1 implies (#[trigger] entries@[2 + img_n + t]).0@
                    == self.manifest.fonts@[t].entry.path@ by {
                    if t < k {
                        assert(entries@[2 + img_n + t] == pre[2 + img_n + t]);
                    }
                }
            }
            k = k + 1;
        }
        proof {
            assert(serializable(*self) ==> container_names_ok(entries@)) by {
                if serializable(*self) {
                    reveal_strlit("resources.json");
                    reveal_strlit("draw_commands.json");
                    let es = entries@;
                    assert forall|x: int, y: int| 0 <= x < y < es.len() implies (
                    #[trigger] es[x]).0@ != (#[trigger] es[y]).0@ by {
                        if x == 0 && y == 1 {
                            assert("resources.json"@.len() != "draw_commands.json"@.len());
                        } else if y >= 2 && y < 2 + img_n {
                            assert(es[2 + (y - 2)].0@ == self.manifest.images@[
                                y - 2
                            ].entry.path@);
                            assert(ok_path_name(self.manifest.images@[y - 2].entry.path@));
                            if x >= 2 {
                                assert(es[2 + (x - 2)].0@ == self.manifest.images@[
                                    x - 2
                                ].entry.path@);
                            }
                        } else if y >= 2 + img_n {
                            assert(es[2 + img_n + (y - 2 - img_n)].0@ == self.manifest.fonts@[
                                y - 2 - img_n
                            ].entry.path@);
                            assert(ok_path_name(self.manifest.fonts@[y - 2 - img_n].entry.path@));
                            if 2 <= x < 2 + img_n {
                                assert(es[2 + (x - 2)].0@ == self.manifest.images@[
                                    x - 2
                                ].entry.path@);
                            } else if x >= 2 + img_n {
                                assert(es[2 + img_n + (x - 2 - img_n)].0@ == self.manifest.fonts@[
                                    x - 2 - img_n
                                ].entry.path@);
                            }
                        }
                    }
                    assert forall|x: int| 0 <= x < es.len() implies (#[trigger] es[x]).0@.len()
                        <= 0x3FFF by {
                        if x >= 2 && x < 2 + img_n {
                            assert(es[2 + (x - 2)].0@ == self.manifest.images@[
                                x - 2
                            ].entry.path@);
                            assert(ok_path_name(self.manifest.images@[x - 2].entry.path@));
                        } else if x >= 2 + img_n {
                            assert(es[2 + img_n + (x - 2 - img_n)].0@ == self.manifest.fonts@[
                                x - 2 - img_n
                            ].entry.path@);
                            assert(ok_path_name(self.manifest.fonts@[x - 2 - img_n].entry.path@));
                        }
                    }
                }
            };
        }
        match write_container(&entries) {
            Ok(bytes) => {
                proof {
                    assert(entries_list_map(entries@) == archive_entry_map(*self));
                }
                Ok(bytes)
            },
            Err(e) => {
                proof {
                    assert(!serializable(*self));
                }
                Err(zip_error(e))
            },
        }
    }

    /// Deserialize an archive from container bytes.
    ///
    /// The manifest entry is read and parsed first and its version gates
    /// the rest of the read; every resource payload must re-hash to the
    /// manifest digest or the read fails; there is no partial archive.
    pub fn deserialize(bytes: &Vec<u8>) -> (r: Result<SceneArchive, ArchiveError>)
        ensures
            r matches Ok(a) ==> {
                &&& a.manifest.version == ResourceManifest::CURRENT_VERSION
                &&& container_entries_of(bytes@) matches Some(es) && deserialized_matches(
                    es,
                    a,
                )
            },
            r matches Err(e) ==> (e is Zip || e is Json || e is UnsupportedVersion
                || e is Image || e is InvalidFormat),
            forall|m: ResourceManifest| entryless_container(bytes@, m) ==> r is Ok,
    {
        let manifest_bytes = match read_entry(bytes, "resources.json") {
            Ok(v) => v,
            Err(e) => {
                proof {
                    assert forall|m: ResourceManifest| !entryless_container(bytes@, m) by {
                        if entryless_container(bytes@, m) {

                            assert(false);
                        }
                    }
                }
                return Err(zip_error(e));
            },
        };
        let manifest_text = match utf8_to_string(&manifest_bytes) {
            Some(v) => v,
            None => {
                proof {
                    assert forall|m: ResourceManifest| !entryless_container(bytes@, m) by {
                        if entryless_container(bytes@, m) {

                            assert(false);
                        }
                    }
                }
                return Err(ArchiveError::Json(bad_text_message()));
            },
        };
        let manifest = match parse_manifest(manifest_text.as_str()) {
            Some(m) => m,
            None => {
                proof {
                    assert forall|m: ResourceManifest| !entryless_container(bytes@, m) by {
                        if entryless_container(bytes@, m) {
                            assert(manifest_text@ == j_manifest(m));
                            assert(crate::json_manifest::empty_manifest_text(manifest_text@, m));
                            assert(false);
                        }
                    }
                }
                return Err(ArchiveError::Json(bad_text_message()));
            },
        };
        match check_version(manifest.version) {
            Ok(()) => (),
            Err(e) => {
                proof {
                    assert forall|m: ResourceManifest| !entryless_container(bytes@, m) by {
                        if entryless_container(bytes@, m) {
                            assert(manifest_text@ == j_manifest(m));
                            assert(crate::json_manifest::empty_manifest_text(manifest_text@, m));
                            assert(manifest.version == m.version);
                            assert(false);
                        }
                    }
                }
                return Err(e);
            },
        }
        let commands_bytes = match read_entry(bytes, "draw_commands.json") {
            Ok(v) => v,
            Err(e) => {
                proof {
                    assert forall|m: ResourceManifest| !entryless_container(bytes@, m) by {
                        if entryless_container(bytes@, m) {

                            assert(false);
                        }
                    }
                }
                return Err(zip_error(e));
            },
        };
        let commands_text = match utf8_to_string(&commands_bytes) {
            Some(v) => v,
            None => {
                proof {
                    assert forall|m: ResourceManifest| !entryless_container(bytes@, m) by {
                        if entryless_container(bytes@, m) {

                            assert(false);
                        }
                    }
                }
                return Err(ArchiveError::Json(bad_text_message()));
            },
        };
        let commands = match parse_commands_text(commands_text.as_str()) {
            Some(v) => v,
            None => {
                proof {
                    assert forall|m: ResourceManifest| !entryless_container(bytes@, m) by {
                        if entryless_container(bytes@, m) {
                            assert(commands_text@ == j_cmds(
                                Seq::<SerializableRenderCommand>::empty(),
                            ));
                            assert(false);
                        }
                    }
                }
                return Err(ArchiveError::Json(bad_text_message()));
            },
        };
        let ghost es = container_entries_of(bytes@)->Some_0;
        proof {
            assert((exists|m: ResourceManifest| entryless_container(bytes@, m))
                ==> manifest.images@.len() == 0 && manifest.fonts@.len() == 0) by {
                if exists|m: ResourceManifest| entryless_container(bytes@, m) {
                    let m = choose|m: ResourceManifest| entryless_container(bytes@, m);
                    assert(manifest_text@ == j_manifest(m));
                    assert(crate::json_manifest::empty_manifest_text(manifest_text@, m));
                }
            };
        }
        let img_n = manifest.images.len();
        let mut images: Vec<ImageData> = Vec::new();
        let mut i: usize = 0;
        while i < img_n
            invariant
                i <= img_n,
                img_n == manifest.images@.len(),
                (exists|m: ResourceManifest| entryless_container(bytes@, m)) ==> img_n == 0,
                container_entries_of(bytes@) == Some(es),
                images@.len() == i,
                forall|t: int|
                    0 <= t < i ==> image_payload_matches(
                        es,
                        manifest.images@[t],
                        #[trigger] images@[t],
                    ),
            decreases img_n - i,
        {
            let meta = &manifest.images[i];
            let png_bytes = match read_entry(bytes, meta.entry.path.as_str()) {
                Ok(v) => v,
                Err(e) => {
                    return Err(zip_error(e));
                },
            };
            let rgba = match png_decode(&png_bytes) {
                Ok(v) => v,
                Err(e) => {
                    return Err(ArchiveError::Image(e));
                },
            };
            match verify_payload(&meta.entry.sha256_hash, rgba.as_slice()) {
                Ok(()) => (),
                Err(e) => {
                    return Err(e);
                },
            }
            images.push(
                ImageData {
                    data: rgba,
                    format: ImageFormat::Rgba8,
                    alpha_type: meta.alpha_type,
                    width: meta.width,
                    height: meta.height,
                },
            );
            i = i + 1;
        }
        let font_n = manifest.fonts.len();
        let mut fonts: Vec<Vec<u8>> = Vec::new();
        let mut k: usize = 0;
        while k < font_n
            invariant
                k <= font_n,
                font_n == manifest.fonts@.len(),
                (exists|m: ResourceManifest| entryless_container(bytes@, m)) ==> font_n == 0,
                container_entries_of(bytes@) == Some(es),
                fonts@.len() == k,
                forall|t: int|
                    0 <= t < k ==> font_payload_matches(
                        es,
                        manifest.fonts@[t],
                        (#[trigger] fonts@[t])@,
                    ),
            decreases font_n - k,
        {
            let meta = &manifest.fonts[k];
            let data = match read_entry(bytes, meta.entry.path.as_str()) {
                Ok(v) => v,
                Err(e) => {
                    return Err(zip_error(e));
                },
            };
            match verify_payload(&meta.entry.sha256_hash, data.as_slice()) {
                Ok(()) => (),
                Err(e) => {
                    return Err(e);
                },
            }
            fonts.push(data);
            k = k + 1;
        }
        Ok(SceneArchive { manifest, commands, fonts, images })
    }
}

/// A container that stores an entryless archive: the two metadata
/// entries are the exact encodings of a current-version manifest without
/// resources and of the empty command stream.
pub open spec fn entryless_container(bytes: Seq<u8>, m: ResourceManifest) -> bool {
    &&& container_entries_of(bytes) matches Some(es) && es.contains_key("resources.json"@)
        && es["resources.json"@] == utf8_of(j_manifest(m)) && es.contains_key(
        "draw_commands.json"@,
    ) && es["draw_commands.json"@] == utf8_of(
        j_cmds(Seq::<SerializableRenderCommand>::empty()),
    )
    &&& m.version == ResourceManifest::CURRENT_VERSION
    &&& m.images@.len() == 0
    &&& m.fonts@.len() == 0
}

/// A written entryless archive reads back: the entries `serialize`
/// guarantees for an archive with a current-version manifest and no
/// resources or commands are exactly an [`entryless_container`], which
/// `deserialize` guarantees to accept.
pub proof fn lemma_entryless_write_read(a: SceneArchive, bytes: Seq<u8>)
    requires
        container_entries_of(bytes) == Some(archive_entry_map(a)),
        a.manifest.version == ResourceManifest::CURRENT_VERSION,
        a.manifest.images@.len() == 0,
        a.manifest.fonts@.len() == 0,
        a.images@.len() == 0,
        a.fonts@.len() == 0,
        a.commands@.len() == 0,
    ensures
        entryless_container(bytes, a.manifest),
{
    let m0 = Map::<Seq<char>, Seq<u8>>::empty().insert(
        "resources.json"@,
        utf8_of(j_manifest(a.manifest)),
    ).insert("draw_commands.json"@, utf8_of(j_cmds(a.commands@)));
    assert(entries_with_images(m0, a, 0) == m0);
    assert(entries_with_fonts(m0, a, 0) == m0);
    assert(archive_entry_map(a) == m0);
    assert(a.commands@ =~= Seq::<SerializableRenderCommand>::empty());
    assert(m0.contains_key("resources.json"@));
    assert(m0.contains_key("draw_commands.json"@));
    assert(m0["resources.json"@] == utf8_of(j_manifest(a.manifest))) by {
        reveal_strlit("resources.json");
        reveal_strlit("draw_commands.json");
        assert("resources.json"@.len() != "draw_commands.json"@.len());
    };
}

/// What holds of a reconstructed image against the container entries.
pub open spec fn image_payload_matches(
    es: Map<Seq<char>, Seq<u8>>,
    meta: crate::archive::ImageMetadata,
    img: ImageData,
) -> bool {
    &&& es.contains_key(meta.entry.path@)
    &&& img.data@ == png_decoded(es[meta.entry.path@])
    &&& meta.entry.sha256_hash@ == hex_of(sha256_of(img.data@))
    &&& img.format == ImageFormat::Rgba8
    &&& img.alpha_type == meta.alpha_type
    &&& img.width == meta.width
    &&& img.height == meta.height
}

/// What holds of a stored font payload against the container entries.
pub open spec fn font_payload_matches(
    es: Map<Seq<char>, Seq<u8>>,
    meta: crate::archive::FontMetadata,
    data: Seq<u8>,
) -> bool {
    &&& es.contains_key(meta.entry.path@)
    &&& data == es[meta.entry.path@]
    &&& meta.entry.sha256_hash@ == hex_of(sha256_of(data))
}

/// What a successful read guarantees against the container entries: the
/// two metadata entries round-trip through their text forms, and every
/// payload re-hashed to its manifest digest.
pub open spec fn deserialized_matches(es: Map<Seq<char>, Seq<u8>>, a: SceneArchive) -> bool {
    &&& es.contains_key("resources.json"@)
    &&& es["resources.json"@] == utf8_of(j_manifest(a.manifest))
    &&& es.contains_key("draw_commands.json"@)
    &&& es["draw_commands.json"@] == utf8_of(j_cmds(a.commands@))
    &&& a.images@.len() == a.manifest.images@.len()
    &&& forall|t: int|
        0 <= t < a.images@.len() ==> image_payload_matches(
            es,
            a.manifest.images@[t],
            #[trigger] a.images@[t],
        )
    &&& a.fonts@.len() == a.manifest.fonts@.len()
    &&& forall|t: int|
        0 <= t < a.fonts@.len() ==> font_payload_matches(
            es,
            a.manifest.fonts@[t],
            (#[trigger] a.fonts@[t])@,
        )
}

/// Wrap an outside container error message.
fn zip_error(e: String) -> (r: ArchiveError)
    ensures
        r is Zip,
{
    let mut msg = String::new();
    msg.append("container error: ");
    msg.append(e.as_str());
    ArchiveError::Zip(msg)
}

/// The message of a malformed metadata entry.
fn bad_text_message() -> (r: String) {
    let mut msg = String::new();
    msg.append("malformed metadata entry");
    msg
}

/// The message of a pixel buffer whose size disagrees with its
/// dimensions.
fn buffer_size_message() -> (r: String) {
    let mut msg = String::new();
    msg.append("pixel buffer does not match its dimensions");
    msg
}

/// A literal as an owned string.
fn lit_string(s: &str) -> (r: String)
    ensures
        r@ == s@,
{
    let mut out = String::new();
    out.append(s);
    proof {
        assert(out@ =~= s@);
    }
    out
}

} // verus!
