//! Write-side font processing: collection, deduplication and encoding.

use vstd::prelude::*;
use vstd::string::StringExecFns;

use crate::archive::{ArchiveError, SerializeConfig, SerializedResourceId};
use crate::hashing::{hex_of, sha256_of, sha256_hex};
use crate::types::{copy_font_data, copy_vec, font_eqv, FontData};

verus! {

/// The WOFF2 encoding of a font blob, as the outside encoder computes it
/// at the default Brotli quality.
pub uninterp spec fn woff2_of(data: Seq<u8>) -> Seq<u8>;

/// The result of decompressing WOFF2 bytes, as the outside decoder
/// computes it.
pub uninterp spec fn woff2_decoded(data: Seq<u8>) -> Seq<u8>;

/// Whether the WOFF2 encoder accepts these font bytes; like its output,
/// the encoder's success depends on the input bytes alone.
pub uninterp spec fn woff2_encodable(data: Seq<u8>) -> bool;

/// Relies on ttf2woff2::encode_no_transform at the default Brotli quality:
/// the output depends on the input bytes alone and, like every WOFF2
/// file, starts with the `wOF2` signature.
#[verifier::external_body]
fn woff2_encode(data: &Vec<u8>) -> (r: Result<Vec<u8>, String>)
    ensures
        r is Ok <==> woff2_encodable(data@),
        r matches Ok(v) ==> {
            &&& v@ == woff2_of(data@)
            &&& v@.len() >= 4
            &&& v@[0] == 0x77u8
            &&& v@[1] == 0x4fu8
            &&& v@[2] == 0x46u8
            &&& v@[3] == 0x32u8
        },
{
    match ttf2woff2::encode_no_transform(data.as_slice(), ttf2woff2::BrotliQuality::default()) {
        Ok(v) => Ok(v),
        Err(e) => Err(format!("{e}")),
    }
}

/// Relies on wuff::decompress_woff2: the output depends on the input
/// bytes alone.
#[verifier::external_body]
pub(crate) fn woff2_decode(data: &Vec<u8>) -> (r: Result<Vec<u8>, String>)
    ensures
        r matches Ok(v) ==> v@ == woff2_decoded(data@),
{
    match wuff::decompress_woff2(data.as_slice()) {
        Ok(v) => Ok(v),
        Err(e) => Err(format!("{e}")),
    }
}

/// A font that has been processed and is ready to be written into the
/// archive.
pub struct ProcessedFont {
    /// Size of the raw (uncompressed) font data in bytes.
    pub raw_size: usize,
    /// The stored font data (WOFF2-compressed or raw, depending on the
    /// configuration).
    pub stored_data: Vec<u8>,
    /// Lower-case hex SHA-256 digest of the stored data.
    pub hash: String,
    /// Archive-relative path derived from the digest and the extension.
    pub path: String,
}

/// Collects, deduplicates and processes fonts for writing into an archive.
///
/// With subsetting enabled each `(blob identity, face index)` pair is a
/// distinct resource, because subsetting would extract each face into a
/// standalone font.  With it disabled fonts deduplicate by blob alone and
/// faces sharing one collection are stored together.
pub struct FontWriter {
    subset_fonts: bool,
    woff2_fonts: bool,
    keys: Vec<(u64, u32)>,
    fonts: Vec<FontData>,
    glyph_ids: Vec<Vec<u32>>,
}

impl FontWriter {
    /// The deduplication keys, in identifier order.
    pub closed spec fn spec_keys(&self) -> Seq<(u64, u32)> {
        self.keys@
    }

    /// The registered fonts, in identifier order.
    pub closed spec fn spec_fonts(&self) -> Seq<FontData> {
        self.fonts@
    }

    /// The recorded used-glyph lists, in identifier order.
    pub closed spec fn spec_glyphs(&self) -> Seq<Seq<u32>> {
        self.glyph_ids@.map_values(|v: Vec<u32>| v@)
    }

    pub closed spec fn spec_subset_fonts(&self) -> bool {
        self.subset_fonts
    }

    pub closed spec fn spec_woff2_fonts(&self) -> bool {
        self.woff2_fonts
    }

    /// Keys, fonts and glyph lists stay aligned.
    pub open spec fn wf(&self) -> bool {
        &&& self.spec_fonts().len() == self.spec_keys().len()
        &&& self.spec_glyphs().len() == self.spec_keys().len()
    }

    pub fn new(config: &SerializeConfig) -> (w: FontWriter)
        ensures
            w.wf(),
            w.spec_keys() =~= Seq::<(u64, u32)>::empty(),
            w.spec_fonts() =~= Seq::<FontData>::empty(),
            w.spec_subset_fonts() == config.spec_subset_fonts(),
            w.spec_woff2_fonts() == config.spec_woff2_fonts(),
    {
        let w = FontWriter {
            subset_fonts: config.subset_fonts_enabled(),
            woff2_fonts: config.woff2_fonts_enabled(),
            keys: Vec::new(),
            fonts: Vec::new(),
            glyph_ids: Vec::new(),
        };
        proof {
            assert(w.spec_glyphs() =~= Seq::<Seq<u32>>::empty());
        }
        w
    }

    /// Register a font and return its dense archive identifier.  A font
    /// whose deduplication key was seen before keeps its first identifier.
    pub fn register(&mut self, font: &FontData) -> (id: SerializedResourceId)
        requires
            old(self).wf(),
        ensures
            final(self).wf(),
            final(self).spec_subset_fonts() == old(self).spec_subset_fonts(),
            final(self).spec_woff2_fonts() == old(self).spec_woff2_fonts(),
            ({
                let key = crate::archive::font_key(*font, old(self).spec_subset_fonts());
                if old(self).spec_keys().contains(key) {
                    &&& final(self).spec_keys() == old(self).spec_keys()
                    &&& final(self).spec_fonts() == old(self).spec_fonts()
                    &&& final(self).spec_glyphs() == old(self).spec_glyphs()
                    &&& id.0 as int == crate::archive::idx_in(old(self).spec_keys(), key)
                    &&& distinct_keys(old(self).spec_keys()) ==> 0 <= id.0 < old(self).spec_keys().len()
                } else {
                    &&& final(self).spec_keys() == old(self).spec_keys().push(key)
                    &&& final(self).spec_fonts().len() == old(self).spec_fonts().len() + 1
                    &&& final(self).spec_fonts().drop_last() == old(self).spec_fonts()
                    &&& font_eqv(final(self).spec_fonts().last(), *font)
                    &&& final(self).spec_glyphs() == old(self).spec_glyphs().push(
                        Seq::<u32>::empty(),
                    )
                    &&& id.0 == old(self).spec_keys().len()
                }
            }),
    {
        let key: (u64, u32) = if self.subset_fonts {
            (font.id, font.index)
        } else {
            (font.id, 0)
        };
        let n = self.keys.len();
        let mut i: usize = 0;
        while i < n
            invariant
                i <= n,
                n == self.keys@.len(),
                self == old(self),
                old(self).wf(),
                key == crate::archive::font_key(*font, old(self).spec_subset_fonts()),
                forall|j: int| 0 <= j < i ==> self.keys@[j] != key,
            decreases n - i,
        {
            if self.keys[i].0 == key.0 && self.keys[i].1 == key.1 {
                proof {
                    lemma_idx_in_found(self.keys@, i as int, key);
                }
                return SerializedResourceId(i);
            }
            i = i + 1;
        }
        proof {
            assert(forall|j: int| 0 <= j < self.keys@.len() ==> self.keys@[j] != key);
            assert(!self.keys@.contains(key));
        }
        let id = SerializedResourceId(self.keys.len());
        self.keys.push(key);
        self.fonts.push(copy_font_data(font));
        self.glyph_ids.push(Vec::new());
        proof {
            assert(self.spec_glyphs() =~= old(self).spec_glyphs().push(Seq::<u32>::empty()));
            assert(self.spec_fonts().drop_last() =~= old(self).spec_fonts());
        }
        id
    }

    /// Record the glyph identifiers a run uses, for subsetting.  With
    /// subsetting off nothing is recorded.
    pub fn record_glyphs(&mut self, id: SerializedResourceId, glyphs: &Vec<crate::types::Glyph>)
        requires
            old(self).wf(),
            old(self).spec_subset_fonts() ==> id.0 < old(self).spec_keys().len(),
        ensures
            final(self).wf(),
            final(self).spec_keys() == old(self).spec_keys(),
            final(self).spec_fonts() == old(self).spec_fonts(),
            final(self).spec_subset_fonts() == old(self).spec_subset_fonts(),
            final(self).spec_woff2_fonts() == old(self).spec_woff2_fonts(),
            final(self).spec_glyphs().len() == old(self).spec_glyphs().len(),
            forall|j: int|
                0 <= j < old(self).spec_glyphs().len() && j != id.0 as int ==> final(self).spec_glyphs()[j]
                    == old(self).spec_glyphs()[j],
            !old(self).spec_subset_fonts() ==> final(self).spec_glyphs() == old(self).spec_glyphs(),
            old(self).spec_subset_fonts() ==> forall|x: u32|
                #[trigger] final(self).spec_glyphs()[id.0 as int].contains(x) <==> (old(
                    self,
                ).spec_glyphs()[id.0 as int].contains(x) || glyph_id_listed(glyphs@, x)),
    {
        if !self.subset_fonts {
            return ;
        }
        let n = glyphs.len();
        let mut i: usize = 0;
        while i < n
            invariant
                i <= n,
                n == glyphs@.len(),
                id.0 < self.glyph_ids@.len(),
                self.glyph_ids@.len() == old(self).glyph_ids@.len(),
                self.keys@ == old(self).keys@,
                self.fonts@ == old(self).fonts@,
                self.subset_fonts == old(self).subset_fonts,
                self.woff2_fonts == old(self).woff2_fonts,
                forall|j: int|
                    0 <= j < self.glyph_ids@.len() && j != id.0 as int ==> self.glyph_ids@[j]
                        == old(self).glyph_ids@[j],
                forall|x: u32|
                    #[trigger] self.glyph_ids@[id.0 as int]@.contains(x) <==> (old(
                        self,
                    ).glyph_ids@[id.0 as int]@.contains(x) || glyph_id_listed(
                        glyphs@.take(i as int),
                        x,
                    )),
            decreases n - i,
        {
            let gid = glyphs[i].id;
            let present = contains_u32(&self.glyph_ids[id.0], gid);
            let ghost pre = self.glyph_ids@;
            if !present {
                let mut set_vec = self.glyph_ids.remove(id.0);
                set_vec.push(gid);
                self.glyph_ids.insert(id.0, set_vec);
                proof {
                    assert(self.glyph_ids@ =~= pre.update(
                        id.0 as int,
                        self.glyph_ids@[id.0 as int],
                    ));
                    assert(self.glyph_ids@[id.0 as int]@ =~= pre[id.0 as int]@.push(gid));
                }
            }
            proof {
                let cur = self.glyph_ids@[id.0 as int]@;
                let was = pre[id.0 as int]@;
                assert forall|x: u32| #[trigger] cur.contains(x) <==> (old(self).glyph_ids@[
                    id.0 as int
                ]@.contains(x) || glyph_id_listed(glyphs@.take(i + 1 as int), x)) by {
                    if !present {
                        assert(cur =~= was.push(gid));
                        assert(cur[cur.len() - 1] == gid);
                        assert(forall|k: int| 0 <= k < was.len() ==> cur[k] == was[k]);
                        if cur.contains(x) {
                            let w = choose|w: int| 0 <= w < cur.len() && cur[w] == x;
                            if w < was.len() {
                                assert(was[w] == x);
                            }
                        }
                        if was.contains(x) {
                            let w = choose|w: int| 0 <= w < was.len() && was[w] == x;
                            assert(cur[w] == x);
                        }
                    } else {
                        assert(cur == was);
                        if glyph_id_listed(glyphs@.take(i as int), x) {
                            lemma_glyph_id_listed_extend(glyphs@, i as int, x);
                        }
                    }
                    assert(glyphs@.take(i + 1 as int)[i as int] == glyphs@[i as int]);
                    if glyph_id_listed(glyphs@.take(i + 1 as int), x) {
                        let w = choose|w: int|
                            0 <= w < i + 1 && (#[trigger] glyphs@.take(i + 1 as int)[w]).id == x;
                        if w < i {
                            assert(glyphs@.take(i as int)[w].id == x);
                        }
                    }
                    if glyph_id_listed(glyphs@.take(i as int), x) {
                        let w = choose|w: int| 0 <= w < i && (#[trigger] glyphs@.take(i as int)[w]).id == x;
                        assert(glyphs@.take(i + 1 as int)[w].id == x);
                    }
                    if present && x == gid {
                        assert(was.contains(gid));
                    }
                }
            }
            i = i + 1;
        }
        proof {
            assert(glyphs@.take(n as int) =~= glyphs@);
            assert(self.spec_glyphs().len() == old(self).spec_glyphs().len());
            assert forall|j: int|
                0 <= j < old(self).spec_glyphs().len() && j != id.0 as int implies self.spec_glyphs()[j]
                == old(self).spec_glyphs()[j] by {
                assert(self.glyph_ids@[j] == old(self).glyph_ids@[j]);
            }
            assert forall|x: u32| #[trigger] self.spec_glyphs()[id.0 as int].contains(x) <==> (old(
                self,
            ).spec_glyphs()[id.0 as int].contains(x) || glyph_id_listed(glyphs@, x)) by {
                assert(self.spec_glyphs()[id.0 as int] == self.glyph_ids@[id.0 as int]@);
                assert(old(self).spec_glyphs()[id.0 as int] == old(self).glyph_ids@[id.0 as int]@);
            }
        }
    }

    /// The face index stored in a serialized font reference.  With
    /// subsetting on, faces would be extracted standalone, so the stored
    /// index is zero; otherwise the original index is preserved.
    pub fn face_index(&self, font: &FontData) -> (r: u32)
        ensures
            r == (if self.spec_subset_fonts() {
                0u32
            } else {
                font.index
            }),
    {
        if self.subset_fonts {
            0
        } else {
            font.index
        }
    }

    /// Consume the writer and process every registered font for storage.
    ///
    /// Subsetting requires a font subsetter, which this build does not
    /// link; a configuration that asks for it fails with a
    /// font-processing error rather than storing unsubsetted bytes.
    pub fn into_processed(self) -> (r: Result<Vec<ProcessedFont>, ArchiveError>)
        requires
            self.wf(),
        ensures
            self.spec_subset_fonts() && self.spec_fonts().len() > 0 ==> r is Err,
            !self.spec_subset_fonts() && !self.spec_woff2_fonts() ==> r is Ok,
            !self.spec_subset_fonts() && (forall|j: int|
                0 <= j < self.spec_fonts().len() ==> woff2_encodable(
                    (#[trigger] self.spec_fonts()[j]).data@,
                )) ==> r is Ok,
            r matches Ok(out) ==> {
                &&& out@.len() == self.spec_fonts().len()
                &&& forall|j: int|
                    0 <= j < out@.len() ==> processed_matches(
                        out@[j],
                        self.spec_fonts()[j],
                        self.spec_woff2_fonts(),
                    )
            },
            r matches Err(e) ==> e is FontProcessing,
    {
        if self.subset_fonts && self.fonts.len() > 0 {
            // A subsetting configuration cannot be honoured: storing the
            // full blobs instead would silently change the format's
            // promise, so the build fails loudly.
            let mut msg = String::new();
            msg.append("font subsetting is not supported by this build");
            return Err(ArchiveError::FontProcessing(msg));
        }
        let n = self.fonts.len();
        let mut out: Vec<ProcessedFont> = Vec::new();
        let mut idx: usize = 0;
        while idx < n
            invariant
                idx <= n,
                n == self.spec_fonts().len(),
                self.wf(),
                !self.spec_subset_fonts() || n == 0,
                out@.len() == idx,
                forall|j: int|
                    0 <= j < idx ==> processed_matches(
                        out@[j],
                        self.spec_fonts()[j],
                        self.spec_woff2_fonts(),
                    ),
            decreases n - idx,
        {
            let font = &self.fonts[idx];
            let raw_size = font.data.len();
            let stored_data: Vec<u8> = if self.woff2_fonts {
                match woff2_encode(&font.data) {
                    Ok(v) => v,
                    Err(e) => {
                        proof {
                            assert(!woff2_encodable(self.spec_fonts()[idx as int].data@));
                        }
                        let mut msg = String::new();
                        msg.append("WOFF2 encoding failed: ");
                        msg.append(e.as_str());
                        return Err(ArchiveError::FontProcessing(msg));
                    },
                }
            } else {
                copy_vec(&font.data)
            };
            let hash = sha256_hex(stored_data.as_slice());
            let ext: &str = if self.woff2_fonts {
                ".woff2"
            } else {
                ".ttf"
            };
            let mut path = String::new();
            path.append("fonts/");
            path.append(hash.as_str());
            path.append(ext);
            proof {
                assert(path@ =~= "fonts/"@ + hash@ + ext@);
            }
            out.push(ProcessedFont { raw_size, stored_data, hash, path });
            idx = idx + 1;
        }
        Ok(out)
    }
}

/// What processing promises for each stored font.
pub open spec fn processed_matches(p: ProcessedFont, f: FontData, woff2: bool) -> bool {
    let stored = if woff2 {
        woff2_of(f.data@)
    } else {
        f.data@
    };
    let hash = hex_of(sha256_of(stored));
    &&& p.raw_size as int == f.data@.len()
    &&& p.stored_data@ == stored
    &&& p.hash@ == hash
    &&& p.path@ == "fonts/"@ + hash + (if woff2 {
        ".woff2"@
    } else {
        ".ttf"@
    })
}

/// Duplicate-free key lists, restated here for the register contract.
pub open spec fn distinct_keys(s: Seq<(u64, u32)>) -> bool {
    crate::archive::distinct(s)
}

/// Whether some glyph in the list carries the given identifier.
pub open spec fn glyph_id_listed(glyphs: Seq<crate::types::Glyph>, x: u32) -> bool {
    exists|k: int| 0 <= k < glyphs.len() && (#[trigger] glyphs[k]).id == x
}

proof fn lemma_glyph_id_listed_extend(glyphs: Seq<crate::types::Glyph>, i: int, x: u32)
    requires
        0 <= i < glyphs.len(),
        glyph_id_listed(glyphs.take(i), x),
    ensures
        glyph_id_listed(glyphs.take(i + 1), x),
{
    let w = choose|w: int| 0 <= w < i && (#[trigger] glyphs.take(i)[w]).id == x;
    assert(glyphs.take(i + 1)[w].id == x);
}

/// Membership by linear search.
fn contains_u32(v: &Vec<u32>, x: u32) -> (r: bool)
    ensures
        r == v@.contains(x),
{
    let n = v.len();
    let mut i: usize = 0;
    while i < n
        invariant
            i <= n,
            n == v@.len(),
            forall|j: int| 0 <= j < i ==> v@[j] != x,
        decreases n - i,
    {
        if v[i] == x {
            return true;
        }
        i = i + 1;
    }
    proof {
        assert(!v@.contains(x));
    }
    false
}

/// When a key sits at position `i` and nowhere earlier, `idx_in` finds it.
proof fn lemma_idx_in_found(s: Seq<(u64, u32)>, i: int, key: (u64, u32))
    requires
        0 <= i < s.len(),
        s[i] == key,
        forall|j: int| 0 <= j < i ==> s[j] != key,
    ensures
        crate::archive::idx_in(s, key) == i,
        s.contains(key),
    decreases s.len(),
{
    if i + 1 == s.len() {
        if s.drop_last().contains(key) {
            let w = choose|w: int| 0 <= w < s.drop_last().len() && s.drop_last()[w] == key;
            assert(s[w] == key);
            assert(false);
        }
    } else {
        if s.drop_last().contains(key) {
            lemma_idx_in_found(s.drop_last(), i, key);
        } else {
            assert(s.drop_last()[i] == key);
            assert(false);
        }
    }
}

} // verus!
