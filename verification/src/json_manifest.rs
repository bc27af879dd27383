//! Text form of the resource manifest: the versioned metadata that names
//! every stored resource with its kind, size, digest and path.
//!
//! The field names are a format contract.  The printer states the exact
//! character sequence it produces; the parser states that an accepted
//! input is exactly the printed form of the manifest it returns.

use vstd::prelude::*;
use vstd::string::StrSliceExecFns;
use vstd::string::StringExecFns;

use crate::archive::{
    FontMetadata, ImageMetadata, ResourceEntry, ResourceKind, ResourceManifest,
    SerializedResourceId,
};
use crate::json::{dec_u64, emit_u64, expect_lit, lemma_add_assoc, lemma_subrange_split, parse_u64};
use crate::types::{ImageAlphaType, ImageFormat};

verus! {

/// The tag of a resource kind.
pub open spec fn kind_tag(k: ResourceKind) -> Seq<char> {
    match k {
        ResourceKind::Image => "image"@,
        ResourceKind::Font => "font"@,
    }
}

/// The tag of a pixel format.
pub open spec fn format_tag(f: ImageFormat) -> Seq<char> {
    match f {
        ImageFormat::Rgba8 => "Rgba8"@,
        ImageFormat::Bgra8 => "Bgra8"@,
    }
}

/// The tag of an alpha type.
pub open spec fn alpha_tag(a: ImageAlphaType) -> Seq<char> {
    match a {
        ImageAlphaType::Alpha => "Alpha"@,
        ImageAlphaType::AlphaPremultiplied => "AlphaPremultiplied"@,
    }
}

/// A character sequence without a double quote, as a quoted field holds.
pub open spec fn quote_free(s: Seq<char>) -> bool {
    forall|i: int| 0 <= i < s.len() ==> s[i] != '"'
}

/// A quote-free text sits at `pos`, closed by a quote.
pub open spec fn quoted_token_at(s: Seq<char>, pos: int, q: Seq<char>) -> bool {
    &&& 0 <= pos
    &&& pos + q.len() + 1 <= s.len()
    &&& s.subrange(pos, pos + q.len()) == q
    &&& quote_free(q)
    &&& s[pos + q.len()] == '"'
}

/// Parse the contents of a quoted string, up to and including the
/// closing quote.
fn parse_quoted(s: &str, pos: usize) -> (r: Option<(String, usize)>)
    ensures
        r matches Some(p) ==> {
            &&& pos < p.1 <= s@.len()
            &&& s@.subrange(pos as int, p.1 as int) == p.0@ + "\""@
            &&& quote_free(p.0@)
        },
        forall|q: Seq<char>|
            quoted_token_at(s@, pos as int, q) ==> (r matches Some(p) && p.0@ == q && p.1 == pos
                + q.len() + 1),
{
    let total = s.unicode_len();
    if pos > total {
        return None;
    }
    let mut out = String::new();
    let mut p = pos;
    loop
        invariant
            pos <= p <= total,
            total == s@.len(),
            out@ == s@.subrange(pos as int, p as int),
            quote_free(out@),
        decreases total - p,
    {
        if p >= total {
            proof {
                assert forall|q: Seq<char>| !quoted_token_at(s@, pos as int, q) by {
                    if quoted_token_at(s@, pos as int, q) {
                        assert(p - pos <= q.len()) by {
                            if p - pos > q.len() {
                                assert(out@[q.len() as int] == s@[pos + q.len()]);
                            }
                        };
                    }
                }
            }
            return None;
        }
        let c = s.get_char(p);
        if c == '"' {
            proof {
                reveal_strlit("\"");
                lemma_subrange_split(s@, pos as int, p as int, p + 1);
                assert(s@.subrange(p as int, (p + 1) as int) =~= "\""@);
                assert forall|q: Seq<char>| quoted_token_at(s@, pos as int, q) implies (out@ == q
                    && p + 1 == pos + q.len() + 1) by {
                    assert(p - pos <= q.len()) by {
                        if p - pos > q.len() {
                            assert(out@[q.len() as int] == s@[pos + q.len()]);
                        }
                    };
                    assert(p - pos >= q.len()) by {
                        if p - pos < q.len() {
                            assert(s@.subrange(pos as int, pos + q.len() as int)[p - pos] == s@[
                                p as int
                            ]);
                            assert(q[p - pos] == '"');
                        }
                    };
                    assert(out@ =~= q);
                }
            }
            return Some((out, p + 1));
        }
        let piece = s.substring_char(p, p + 1);
        out.append(piece);
        proof {
            lemma_subrange_split(s@, pos as int, p as int, p + 1);
            assert(out@ =~= s@.subrange(pos as int, (p + 1) as int));
        }
        p = p + 1;
    }
}

/// The text of an image manifest entry.
pub open spec fn j_image_entry(v: ImageMetadata) -> Seq<char> {
    "{\"id\":"@ + dec_u64(v.entry.id.0 as u64) + ",\"kind\":\""@ + kind_tag(v.entry.kind)
        + "\",\"size\":"@ + dec_u64(v.entry.size as u64) + ",\"sha256_hash\":\""@
        + v.entry.sha256_hash@ + "\""@ + ",\"path\":\""@ + v.entry.path@ + "\""@
        + ",\"format\":\""@ + format_tag(v.format) + "\",\"alpha_type\":\""@ + alpha_tag(
        v.alpha_type,
    ) + "\",\"width\":"@ + dec_u64(v.width as u64) + ",\"height\":"@ + dec_u64(v.height as u64)
        + "}"@
}

/// The text of a font manifest entry.
pub open spec fn j_font_entry(v: FontMetadata) -> Seq<char> {
    "{\"id\":"@ + dec_u64(v.entry.id.0 as u64) + ",\"kind\":\""@ + kind_tag(v.entry.kind)
        + "\",\"size\":"@ + dec_u64(v.entry.size as u64) + ",\"sha256_hash\":\""@
        + v.entry.sha256_hash@ + "\""@ + ",\"path\":\""@ + v.entry.path@ + "\""@ + "}"@
}

#[verifier::rlimit(100)]
#[verifier::spinoff_prover]
fn emit_image_entry(out: &mut String, v: &ImageMetadata)
    ensures
        final(out)@ == old(out)@ + j_image_entry(*v),
{
    out.append("{\"id\":");
    proof {
        assert(out@ == old(out)@ + ("{\"id\":"@));
    }
    emit_u64(out, v.entry.id.0 as u64);
    proof {
        lemma_add_assoc(old(out)@, ("{\"id\":"@), dec_u64(v.entry.id.0 as u64));
        assert(out@ == old(out)@ + ("{\"id\":"@ + dec_u64(v.entry.id.0 as u64)));
    }
    out.append(",\"kind\":\"");
    proof {
        lemma_add_assoc(
            old(out)@,
            ("{\"id\":"@ + dec_u64(v.entry.id.0 as u64)),
            ",\"kind\":\""@,
        );
        assert(out@ == old(out)@ + ("{\"id\":"@ + dec_u64(v.entry.id.0 as u64) + ",\"kind\":\""@));
    }
    let ghost q1 = "{\"id\":"@ + dec_u64(v.entry.id.0 as u64) + ",\"kind\":\""@;
    match v.entry.kind {
        ResourceKind::Image => out.append("image"),
        ResourceKind::Font => out.append("font"),
    }
    proof {
        lemma_add_assoc(old(out)@, q1, kind_tag(v.entry.kind));
        assert(out@ == old(out)@ + (q1 + kind_tag(v.entry.kind)));
    }
    let ghost q2 = q1 + kind_tag(v.entry.kind);
    out.append("\",\"size\":");
    proof {
        lemma_add_assoc(old(out)@, q2, "\",\"size\":"@);
    }
    let ghost q3 = q2 + "\",\"size\":"@;
    emit_u64(out, v.entry.size as u64);
    proof {
        lemma_add_assoc(old(out)@, q3, dec_u64(v.entry.size as u64));
    }
    let ghost q4 = q3 + dec_u64(v.entry.size as u64);
    out.append(",\"sha256_hash\":\"");
    proof {
        lemma_add_assoc(old(out)@, q4, ",\"sha256_hash\":\""@);
    }
    let ghost q5 = q4 + ",\"sha256_hash\":\""@;
    out.append(v.entry.sha256_hash.as_str());
    proof {
        lemma_add_assoc(old(out)@, q5, v.entry.sha256_hash@);
    }
    let ghost q6 = q5 + v.entry.sha256_hash@;
    out.append("\"");
    proof {
        lemma_add_assoc(old(out)@, q6, "\""@);
    }
    let ghost q7 = q6 + "\""@;
    out.append(",\"path\":\"");
    proof {
        lemma_add_assoc(old(out)@, q7, ",\"path\":\""@);
    }
    let ghost q8 = q7 + ",\"path\":\""@;
    out.append(v.entry.path.as_str());
    proof {
        lemma_add_assoc(old(out)@, q8, v.entry.path@);
    }
    let ghost q9 = q8 + v.entry.path@;
    out.append("\"");
    proof {
        lemma_add_assoc(old(out)@, q9, "\""@);
    }
    let ghost q10 = q9 + "\""@;
    out.append(",\"format\":\"");
    proof {
        lemma_add_assoc(old(out)@, q10, ",\"format\":\""@);
    }
    let ghost q11 = q10 + ",\"format\":\""@;
    match v.format {
        ImageFormat::Rgba8 => out.append("Rgba8"),
        ImageFormat::Bgra8 => out.append("Bgra8"),
    }
    proof {
        lemma_add_assoc(old(out)@, q11, format_tag(v.format));
    }
    let ghost q12 = q11 + format_tag(v.format);
    out.append("\",\"alpha_type\":\"");
    proof {
        lemma_add_assoc(old(out)@, q12, "\",\"alpha_type\":\""@);
    }
    let ghost q13 = q12 + "\",\"alpha_type\":\""@;
    match v.alpha_type {
        ImageAlphaType::Alpha => out.append("Alpha"),
        ImageAlphaType::AlphaPremultiplied => out.append("AlphaPremultiplied"),
    }
    proof {
        lemma_add_assoc(old(out)@, q13, alpha_tag(v.alpha_type));
    }
    let ghost q14 = q13 + alpha_tag(v.alpha_type);
    out.append("\",\"width\":");
    proof {
        lemma_add_assoc(old(out)@, q14, "\",\"width\":"@);
    }
    let ghost q15 = q14 + "\",\"width\":"@;
    emit_u64(out, v.width as u64);
    proof {
        lemma_add_assoc(old(out)@, q15, dec_u64(v.width as u64));
    }
    let ghost q16 = q15 + dec_u64(v.width as u64);
    out.append(",\"height\":");
    proof {
        lemma_add_assoc(old(out)@, q16, ",\"height\":"@);
    }
    let ghost q17 = q16 + ",\"height\":"@;
    emit_u64(out, v.height as u64);
    proof {
        lemma_add_assoc(old(out)@, q17, dec_u64(v.height as u64));
    }
    let ghost q18 = q17 + dec_u64(v.height as u64);
    out.append("}");
    proof {
        lemma_add_assoc(old(out)@, q18, "}"@);
        assert(out@ == old(out)@ + j_image_entry(*v));
    }
}

#[verifier::rlimit(100)]
#[verifier::spinoff_prover]
fn emit_font_entry(out: &mut String, v: &FontMetadata)
    ensures
        final(out)@ == old(out)@ + j_font_entry(*v),
{
    out.append("{\"id\":");
    proof {
        assert(out@ == old(out)@ + ("{\"id\":"@));
    }
    emit_u64(out, v.entry.id.0 as u64);
    proof {
        lemma_add_assoc(old(out)@, ("{\"id\":"@), dec_u64(v.entry.id.0 as u64));
    }
    let ghost q1 = "{\"id\":"@ + dec_u64(v.entry.id.0 as u64);
    out.append(",\"kind\":\"");
    proof {
        lemma_add_assoc(old(out)@, q1, ",\"kind\":\""@);
    }
    let ghost q2 = q1 + ",\"kind\":\""@;
    match v.entry.kind {
        ResourceKind::Image => out.append("image"),
        ResourceKind::Font => out.append("font"),
    }
    proof {
        lemma_add_assoc(old(out)@, q2, kind_tag(v.entry.kind));
    }
    let ghost q3 = q2 + kind_tag(v.entry.kind);
    out.append("\",\"size\":");
    proof {
        lemma_add_assoc(old(out)@, q3, "\",\"size\":"@);
    }
    let ghost q4 = q3 + "\",\"size\":"@;
    emit_u64(out, v.entry.size as u64);
    proof {
        lemma_add_assoc(old(out)@, q4, dec_u64(v.entry.size as u64));
    }
    let ghost q5 = q4 + dec_u64(v.entry.size as u64);
    out.append(",\"sha256_hash\":\"");
    proof {
        lemma_add_assoc(old(out)@, q5, ",\"sha256_hash\":\""@);
    }
    let ghost q6 = q5 + ",\"sha256_hash\":\""@;
    out.append(v.entry.sha256_hash.as_str());
    proof {
        lemma_add_assoc(old(out)@, q6, v.entry.sha256_hash@);
    }
    let ghost q7 = q6 + v.entry.sha256_hash@;
    out.append("\"");
    proof {
        lemma_add_assoc(old(out)@, q7, "\""@);
    }
    let ghost q8 = q7 + "\""@;
    out.append(",\"path\":\"");
    proof {
        lemma_add_assoc(old(out)@, q8, ",\"path\":\""@);
    }
    let ghost q9 = q8 + ",\"path\":\""@;
    out.append(v.entry.path.as_str());
    proof {
        lemma_add_assoc(old(out)@, q9, v.entry.path@);
    }
    let ghost q10 = q9 + v.entry.path@;
    out.append("\"");
    proof {
        lemma_add_assoc(old(out)@, q10, "\""@);
    }
    let ghost q11 = q10 + "\""@;
    out.append("}");
    proof {
        lemma_add_assoc(old(out)@, q11, "}"@);
        assert(out@ == old(out)@ + j_font_entry(*v));
    }
}

#[verifier::rlimit(100)]
#[verifier::spinoff_prover]
fn parse_image_entry(s: &str, pos: usize) -> (r: Option<(ImageMetadata, usize)>)
    ensures
        r matches Some(p) ==> {
            &&& pos < p.1 <= s@.len()
            &&& s@.subrange(pos as int, p.1 as int) == j_image_entry(p.0)
        },
{
    proof {
        reveal_strlit("{\"id\":");
        reveal_strlit(",\"kind\":\"");
        reveal_strlit("image");
        reveal_strlit("\",\"size\":");
        reveal_strlit(",\"sha256_hash\":\"");
        reveal_strlit(",\"path\":\"");
        reveal_strlit(",\"format\":\"");
        reveal_strlit("Rgba8");
        reveal_strlit("Bgra8");
        reveal_strlit("\",\"alpha_type\":\"");
        reveal_strlit("Alpha");
        reveal_strlit("AlphaPremultiplied");
        reveal_strlit("\",\"width\":");
        reveal_strlit(",\"height\":");
        reveal_strlit("}");
    }
    let x0 = match expect_lit(s, pos, "{\"id\":") {
        Some(v) => v,
        None => {
            return None;
        },
    };
    let (eid, x1) = match parse_usize_field(s, x0) {
        Some(v) => v,
        None => {
            return None;
        },
    };
    proof {
        lemma_subrange_split(s@, pos as int, x0 as int, x1 as int);
    }
    let x2 = match expect_lit(s, x1, ",\"kind\":\"") {
        Some(v) => v,
        None => {
            return None;
        },
    };
    proof {
        lemma_subrange_split(s@, pos as int, x1 as int, x2 as int);
    }
    let x3 = match expect_lit(s, x2, "image") {
        Some(v) => v,
        None => {
            return None;
        },
    };
    proof {
        lemma_subrange_split(s@, pos as int, x2 as int, x3 as int);
    }
    let x4 = match expect_lit(s, x3, "\",\"size\":") {
        Some(v) => v,
        None => {
            return None;
        },
    };
    proof {
        lemma_subrange_split(s@, pos as int, x3 as int, x4 as int);
    }
    let (size, x5) = match parse_usize_field(s, x4) {
        Some(v) => v,
        None => {
            return None;
        },
    };
    proof {
        lemma_subrange_split(s@, pos as int, x4 as int, x5 as int);
    }
    let x6 = match expect_lit(s, x5, ",\"sha256_hash\":\"") {
        Some(v) => v,
        None => {
            return None;
        },
    };
    proof {
        lemma_subrange_split(s@, pos as int, x5 as int, x6 as int);
    }
    let (hash, x7) = match parse_quoted(s, x6) {
        Some(v) => v,
        None => {
            return None;
        },
    };
    proof {
        lemma_subrange_split(s@, pos as int, x6 as int, x7 as int);
    }
    let x8 = match expect_lit(s, x7, ",\"path\":\"") {
        Some(v) => v,
        None => {
            return None;
        },
    };
    proof {
        lemma_subrange_split(s@, pos as int, x7 as int, x8 as int);
    }
    let (path, x9) = match parse_quoted(s, x8) {
        Some(v) => v,
        None => {
            return None;
        },
    };
    proof {
        lemma_subrange_split(s@, pos as int, x8 as int, x9 as int);
    }
    let x10 = match expect_lit(s, x9, ",\"format\":\"") {
        Some(v) => v,
        None => {
            return None;
        },
    };
    proof {
        lemma_subrange_split(s@, pos as int, x9 as int, x10 as int);
    }
    let total = s.unicode_len();
    if x10 >= total {
        return None;
    }
    let format: ImageFormat;
    let x11: usize;
    if s.get_char(x10) == 'R' {
        x11 = match expect_lit(s, x10, "Rgba8") {
            Some(v) => v,
            None => {
                return None;
            },
        };
        format = ImageFormat::Rgba8;
    } else {
        x11 = match expect_lit(s, x10, "Bgra8") {
            Some(v) => v,
            None => {
                return None;
            },
        };
        format = ImageFormat::Bgra8;
    }
    proof {
        lemma_subrange_split(s@, pos as int, x10 as int, x11 as int);
    }
    let x12 = match expect_lit(s, x11, "\",\"alpha_type\":\"") {
        Some(v) => v,
        None => {
            return None;
        },
    };
    proof {
        lemma_subrange_split(s@, pos as int, x11 as int, x12 as int);
    }
    let alpha_type: ImageAlphaType;
    let x13: usize;
    match expect_lit(s, x12, "AlphaPremultiplied") {
        Some(v) => {
            x13 = v;
            alpha_type = ImageAlphaType::AlphaPremultiplied;
        },
        None => {
            x13 = match expect_lit(s, x12, "Alpha") {
                Some(v) => v,
                None => {
                    return None;
                },
            };
            alpha_type = ImageAlphaType::Alpha;
        },
    }
    proof {
        lemma_subrange_split(s@, pos as int, x12 as int, x13 as int);
    }
    let x14 = match expect_lit(s, x13, "\",\"width\":") {
        Some(v) => v,
        None => {
            return None;
        },
    };
    proof {
        lemma_subrange_split(s@, pos as int, x13 as int, x14 as int);
    }
    let (width, x15) = match parse_u32_field(s, x14) {
        Some(v) => v,
        None => {
            return None;
        },
    };
    proof {
        lemma_subrange_split(s@, pos as int, x14 as int, x15 as int);
    }
    let x16 = match expect_lit(s, x15, ",\"height\":") {
        Some(v) => v,
        None => {
            return None;
        },
    };
    proof {
        lemma_subrange_split(s@, pos as int, x15 as int, x16 as int);
    }
    let (height, x17) = match parse_u32_field(s, x16) {
        Some(v) => v,
        None => {
            return None;
        },
    };
    proof {
        lemma_subrange_split(s@, pos as int, x16 as int, x17 as int);
    }
    let x18 = match expect_lit(s, x17, "}") {
        Some(v) => v,
        None => {
            return None;
        },
    };
    proof {
        lemma_subrange_split(s@, pos as int, x17 as int, x18 as int);
    }
    let v = ImageMetadata {
        entry: ResourceEntry {
            id: SerializedResourceId(eid),
            kind: ResourceKind::Image,
            size,
            sha256_hash: hash,
            path,
        },
        format,
        alpha_type,
        width,
        height,
    };
    proof {
        assert(s@.subrange(pos as int, x18 as int) == j_image_entry(v));
    }
    Some((v, x18))
}

#[verifier::rlimit(100)]
#[verifier::spinoff_prover]
fn parse_font_entry(s: &str, pos: usize) -> (r: Option<(FontMetadata, usize)>)
    ensures
        r matches Some(p) ==> {
            &&& pos < p.1 <= s@.len()
            &&& s@.subrange(pos as int, p.1 as int) == j_font_entry(p.0)
        },
{
    proof {
        reveal_strlit("{\"id\":");
        reveal_strlit(",\"kind\":\"");
        reveal_strlit("font");
        reveal_strlit("\",\"size\":");
        reveal_strlit(",\"sha256_hash\":\"");
        reveal_strlit(",\"path\":\"");
        reveal_strlit("\"");
        reveal_strlit("}");
    }
    let x0 = match expect_lit(s, pos, "{\"id\":") {
        Some(v) => v,
        None => {
            return None;
        },
    };
    let (eid, x1) = match parse_usize_field(s, x0) {
        Some(v) => v,
        None => {
            return None;
        },
    };
    proof {
        lemma_subrange_split(s@, pos as int, x0 as int, x1 as int);
    }
    let x2 = match expect_lit(s, x1, ",\"kind\":\"") {
        Some(v) => v,
        None => {
            return None;
        },
    };
    proof {
        lemma_subrange_split(s@, pos as int, x1 as int, x2 as int);
    }
    let x3 = match expect_lit(s, x2, "font") {
        Some(v) => v,
        None => {
            return None;
        },
    };
    proof {
        lemma_subrange_split(s@, pos as int, x2 as int, x3 as int);
    }
    let x4 = match expect_lit(s, x3, "\",\"size\":") {
        Some(v) => v,
        None => {
            return None;
        },
    };
    proof {
        lemma_subrange_split(s@, pos as int, x3 as int, x4 as int);
    }
    let (size, x5) = match parse_usize_field(s, x4) {
        Some(v) => v,
        None => {
            return None;
        },
    };
    proof {
        lemma_subrange_split(s@, pos as int, x4 as int, x5 as int);
    }
    let x6 = match expect_lit(s, x5, ",\"sha256_hash\":\"") {
        Some(v) => v,
        None => {
            return None;
        },
    };
    proof {
        lemma_subrange_split(s@, pos as int, x5 as int, x6 as int);
    }
    let (hash, x7) = match parse_quoted(s, x6) {
        Some(v) => v,
        None => {
            return None;
        },
    };
    proof {
        lemma_subrange_split(s@, pos as int, x6 as int, x7 as int);
    }
    let x8 = match expect_lit(s, x7, ",\"path\":\"") {
        Some(v) => v,
        None => {
            return None;
        },
    };
    proof {
        lemma_subrange_split(s@, pos as int, x7 as int, x8 as int);
    }
    let (path, x9) = match parse_quoted(s, x8) {
        Some(v) => v,
        None => {
            return None;
        },
    };
    proof {
        lemma_subrange_split(s@, pos as int, x8 as int, x9 as int);
    }
    let x10 = match expect_lit(s, x9, "}") {
        Some(v) => v,
        None => {
            return None;
        },
    };
    proof {
        lemma_subrange_split(s@, pos as int, x9 as int, x10 as int);
    }
    let v = FontMetadata {
        entry: ResourceEntry {
            id: SerializedResourceId(eid),
            kind: ResourceKind::Font,
            size,
            sha256_hash: hash,
            path,
        },
    };
    proof {
        assert(s@.subrange(pos as int, x10 as int) == j_font_entry(v));
    }
    Some((v, x10))
}

fn parse_usize_field(s: &str, pos: usize) -> (r: Option<(usize, usize)>)
    ensures
        r matches Some(p) ==> {
            &&& pos < p.1 <= s@.len()
            &&& s@.subrange(pos as int, p.1 as int) == dec_u64(p.0 as u64)
        },
        forall|n: u64|
            crate::json::decimal_token_at(s@, pos as int, n) && n <= usize::MAX ==> (r matches
                Some(p) && p.0 == n && p.1 == pos + dec_u64(n).len()),
{
    let (n, np) = match parse_u64(s, pos) {
        Some(v) => v,
        None => {
            return None;
        },
    };
    if n > usize::MAX as u64 {
        return None;
    }
    Some((n as usize, np))
}

fn parse_u32_field(s: &str, pos: usize) -> (r: Option<(u32, usize)>)
    ensures
        r matches Some(p) ==> {
            &&& pos < p.1 <= s@.len()
            &&& s@.subrange(pos as int, p.1 as int) == dec_u64(p.0 as u64)
        },
        forall|n: u64|
            crate::json::decimal_token_at(s@, pos as int, n) && n <= 0xFFFF_FFFFu64 ==> (r
                matches Some(p) && p.0 == n && p.1 == pos + dec_u64(n).len()),
{
    let (n, np) = match parse_u64(s, pos) {
        Some(v) => v,
        None => {
            return None;
        },
    };
    if n > 0xFFFF_FFFFu64 {
        return None;
    }
    Some((n as u32, np))
}

/// The text of the image entry list.
pub open spec fn j_imgs_items(s: Seq<ImageMetadata>, n: int) -> Seq<char>
    decreases n,
{
    if n <= 0 {
        Seq::empty()
    } else if n == 1 {
        j_image_entry(s[0])
    } else {
        j_imgs_items(s, n - 1) + ","@ + j_image_entry(s[n - 1])
    }
}

proof fn lemma_j_imgs_items_prefix(s1: Seq<ImageMetadata>, s2: Seq<ImageMetadata>, n: int)
    requires
        0 <= n <= s1.len(),
        n <= s2.len(),
        forall|i: int| 0 <= i < n ==> s1[i] == s2[i],
    ensures
        j_imgs_items(s1, n) == j_imgs_items(s2, n),
    decreases n,
{
    if n > 0 {
        lemma_j_imgs_items_prefix(s1, s2, n - 1);
    }
}

/// The text of the font entry list.
pub open spec fn j_fonts_items(s: Seq<FontMetadata>, n: int) -> Seq<char>
    decreases n,
{
    if n <= 0 {
        Seq::empty()
    } else if n == 1 {
        j_font_entry(s[0])
    } else {
        j_fonts_items(s, n - 1) + ","@ + j_font_entry(s[n - 1])
    }
}

proof fn lemma_j_fonts_items_prefix(s1: Seq<FontMetadata>, s2: Seq<FontMetadata>, n: int)
    requires
        0 <= n <= s1.len(),
        n <= s2.len(),
        forall|i: int| 0 <= i < n ==> s1[i] == s2[i],
    ensures
        j_fonts_items(s1, n) == j_fonts_items(s2, n),
    decreases n,
{
    if n > 0 {
        lemma_j_fonts_items_prefix(s1, s2, n - 1);
    }
}

/// The text of a manifest.  The tolerance is the decimal rendering of
/// its bit pattern.
pub open spec fn j_manifest(m: ResourceManifest) -> Seq<char> {
    "{\"version\":"@ + dec_u64(m.version as u64) + ",\"tolerance\":"@ + dec_u64(m.tolerance)
        + ",\"images\":["@
        + j_imgs_items(m.images@, m.images@.len() as int) + "],\"fonts\":["@ + j_fonts_items(
        m.fonts@,
        m.fonts@.len() as int,
    ) + "]}"@
}

/// Print a manifest.
pub fn emit_manifest(m: &ResourceManifest) -> (r: String)
    ensures
        r@ == j_manifest(*m),
{
    let mut out = String::new();
    out.append("{\"version\":");
    proof {
        assert(out@ =~= "{\"version\":"@);
    }
    emit_u64(&mut out, m.version as u64);
    let ghost q1 = "{\"version\":"@ + dec_u64(m.version as u64);
    out.append(",\"tolerance\":");
    proof {
        lemma_add_assoc("{\"version\":"@, dec_u64(m.version as u64), ",\"tolerance\":"@);
        assert(out@ == q1 + ",\"tolerance\":"@);
    }
    let ghost q2 = q1 + ",\"tolerance\":"@;
    emit_u64(&mut out, m.tolerance);
    proof {
        assert(out@ == q2 + dec_u64(m.tolerance));
    }
    let ghost q3 = q2 + dec_u64(m.tolerance);
    out.append(",\"images\":[");
    proof {
        assert(out@ == q3 + ",\"images\":["@);
    }
    let ghost q4 = q3 + ",\"images\":["@;
    let n = m.images.len();
    let mut i: usize = 0;
    while i < n
        invariant
            i <= n,
            n == m.images@.len(),
            out@ == q4 + j_imgs_items(m.images@, i as int),
        decreases n - i,
    {
        if i > 0 {
            out.append(",");
        }
        emit_image_entry(&mut out, &m.images[i]);
        proof {
            assert(out@ =~= q4 + j_imgs_items(m.images@, i + 1));
        }
        i = i + 1;
    }
    let ghost q5 = q4 + j_imgs_items(m.images@, m.images@.len() as int);
    out.append("],\"fonts\":[");
    proof {
        assert(out@ == q5 + "],\"fonts\":["@);
    }
    let ghost q6 = q5 + "],\"fonts\":["@;
    let nf = m.fonts.len();
    let mut k: usize = 0;
    while k < nf
        invariant
            k <= nf,
            nf == m.fonts@.len(),
            out@ == q6 + j_fonts_items(m.fonts@, k as int),
        decreases nf - k,
    {
        if k > 0 {
            out.append(",");
        }
        emit_font_entry(&mut out, &m.fonts[k]);
        proof {
            assert(out@ =~= q6 + j_fonts_items(m.fonts@, k + 1));
        }
        k = k + 1;
    }
    out.append("]}");
    proof {
        assert(out@ =~= j_manifest(*m));
    }
    out
}

/// Parse the image entries of a manifest, up to and including the
/// closing bracket.
#[verifier::rlimit(100)]
#[verifier::spinoff_prover]
fn parse_image_entries(s: &str, pos: usize) -> (r: Option<(Vec<ImageMetadata>, usize)>)
    ensures
        r matches Some(p) ==> {
            &&& pos < p.1 <= s@.len()
            &&& s@.subrange(pos as int, p.1 as int) == j_imgs_items(p.0@, p.0@.len() as int)
                + "]"@
        },
        (pos < s@.len() && s@[pos as int] == ']') ==> (r matches Some(p) && p.0@.len() == 0
            && p.1 == pos + 1),
{
    proof {
        reveal_strlit("]");
        reveal_strlit(",");
        if pos < s@.len() && s@[pos as int] == ']' {
            assert(s@.subrange(pos as int, (pos + 1) as int) =~= "]"@);
        }
    }
    let total = s.unicode_len();
    if pos < total && s.get_char(pos) == ']' {
        let p1 = match expect_lit(s, pos, "]") {
            Some(v) => v,
            None => {
                return None;
            },
        };
        let out: Vec<ImageMetadata> = Vec::new();
        proof {
            assert(s@.subrange(pos as int, p1 as int) =~= j_imgs_items(out@, 0) + "]"@);
        }
        return Some((out, p1));
    }
    if pos >= total {
        return None;
    }
    let mut out: Vec<ImageMetadata> = Vec::new();
    let mut p = pos;
    proof {
        assert(s@.subrange(pos as int, pos as int) =~= Seq::<char>::empty());
        assert(j_imgs_items(out@, 0) + Seq::<char>::empty() =~= Seq::<char>::empty());
    }
    loop
        invariant
            pos <= p <= s@.len(),
            total == s@.len(),
            !(pos < s@.len() && s@[pos as int] == ']'),
            s@.subrange(pos as int, p as int) == j_imgs_items(out@, out@.len() as int) + (
            if out@.len() == 0 {
                Seq::<char>::empty()
            } else {
                ","@
            }),
        decreases s@.len() - p,
    {
        let ghost pre = s@.subrange(pos as int, p as int);
        let (entry, np) = match parse_image_entry(s, p) {
            Some(v) => v,
            None => {
                return None;
            },
        };
        let ghost preout = out@;
        out.push(entry);
        proof {
            lemma_j_imgs_items_prefix(preout, out@, preout.len() as int);
            lemma_subrange_split(s@, pos as int, p as int, np as int);
            assert(out@[out@.len() - 1] == entry);
            assert(s@.subrange(pos as int, np as int) =~= j_imgs_items(
                out@,
                out@.len() as int,
            ));
        }
        if np < total && s.get_char(np) == ']' {
            let p1 = match expect_lit(s, np, "]") {
                Some(v) => v,
                None => {
                    return None;
                },
            };
            proof {
                lemma_subrange_split(s@, pos as int, np as int, p1 as int);
            }
            return Some((out, p1));
        }
        p = match expect_lit(s, np, ",") {
            Some(v) => v,
            None => {
                return None;
            },
        };
        proof {
            lemma_subrange_split(s@, pos as int, np as int, p as int);
        }
    }
}

/// Parse the font entries of a manifest, up to and including the closing
/// bracket.
#[verifier::rlimit(100)]
#[verifier::spinoff_prover]
fn parse_font_entries(s: &str, pos: usize) -> (r: Option<(Vec<FontMetadata>, usize)>)
    ensures
        r matches Some(p) ==> {
            &&& pos < p.1 <= s@.len()
            &&& s@.subrange(pos as int, p.1 as int) == j_fonts_items(p.0@, p.0@.len() as int)
                + "]"@
        },
        (pos < s@.len() && s@[pos as int] == ']') ==> (r matches Some(p) && p.0@.len() == 0
            && p.1 == pos + 1),
{
    proof {
        reveal_strlit("]");
        reveal_strlit(",");
        if pos < s@.len() && s@[pos as int] == ']' {
            assert(s@.subrange(pos as int, (pos + 1) as int) =~= "]"@);
        }
    }
    let total = s.unicode_len();
    if pos < total && s.get_char(pos) == ']' {
        let p1 = match expect_lit(s, pos, "]") {
            Some(v) => v,
            None => {
                return None;
            },
        };
        let out: Vec<FontMetadata> = Vec::new();
        proof {
            assert(s@.subrange(pos as int, p1 as int) =~= j_fonts_items(out@, 0) + "]"@);
        }
        return Some((out, p1));
    }
    if pos >= total {
        return None;
    }
    let mut out: Vec<FontMetadata> = Vec::new();
    let mut p = pos;
    proof {
        assert(s@.subrange(pos as int, pos as int) =~= Seq::<char>::empty());
        assert(j_fonts_items(out@, 0) + Seq::<char>::empty() =~= Seq::<char>::empty());
    }
    loop
        invariant
            pos <= p <= s@.len(),
            total == s@.len(),
            !(pos < s@.len() && s@[pos as int] == ']'),
            s@.subrange(pos as int, p as int) == j_fonts_items(out@, out@.len() as int) + (
            if out@.len() == 0 {
                Seq::<char>::empty()
            } else {
                ","@
            }),
        decreases s@.len() - p,
    {
        let (entry, np) = match parse_font_entry(s, p) {
            Some(v) => v,
            None => {
                return None;
            },
        };
        let ghost preout = out@;
        out.push(entry);
        proof {
            lemma_j_fonts_items_prefix(preout, out@, preout.len() as int);
            lemma_subrange_split(s@, pos as int, p as int, np as int);
            assert(out@[out@.len() - 1] == entry);
            assert(s@.subrange(pos as int, np as int) =~= j_fonts_items(
                out@,
                out@.len() as int,
            ));
        }
        if np < total && s.get_char(np) == ']' {
            let p1 = match expect_lit(s, np, "]") {
                Some(v) => v,
                None => {
                    return None;
                },
            };
            proof {
                lemma_subrange_split(s@, pos as int, np as int, p1 as int);
            }
            return Some((out, p1));
        }
        p = match expect_lit(s, np, ",") {
            Some(v) => v,
            None => {
                return None;
            },
        };
        proof {
            lemma_subrange_split(s@, pos as int, np as int, p as int);
        }
    }
}


/// A manifest with no resource entries, printed whole.
pub open spec fn empty_manifest_text(s: Seq<char>, m: ResourceManifest) -> bool {
    s == j_manifest(m) && m.images@.len() == 0 && m.fonts@.len() == 0
}

/// Offsets of the tokens of an entryless manifest text.
pub open spec fn emt_o1() -> int {
    "{\"version\":"@.len() as int
}

pub open spec fn emt_o2(m: ResourceManifest) -> int {
    emt_o1() + dec_u64(m.version as u64).len()
}

pub open spec fn emt_o3(m: ResourceManifest) -> int {
    emt_o2(m) + ",\"tolerance\":"@.len()
}

pub open spec fn emt_o4(m: ResourceManifest) -> int {
    emt_o3(m) + dec_u64(m.tolerance).len()
}

pub open spec fn emt_o5(m: ResourceManifest) -> int {
    emt_o4(m) + ",\"images\":["@.len()
}

pub open spec fn emt_o7(m: ResourceManifest) -> int {
    emt_o5(m) + 1 + ",\"fonts\":["@.len()
}

/// Where each token of an entryless manifest text sits.
proof fn lemma_empty_manifest_pieces(s: Seq<char>, m: ResourceManifest)
    requires
        empty_manifest_text(s, m),
    ensures
        s.subrange(0, emt_o1()) == "{\"version\":"@,
        crate::json::decimal_token_at(s, emt_o1(), m.version as u64),
        s.subrange(emt_o2(m), emt_o3(m)) == ",\"tolerance\":"@,
        crate::json::decimal_token_at(s, emt_o3(m), m.tolerance),
        s.subrange(emt_o4(m), emt_o5(m)) == ",\"images\":["@,
        emt_o5(m) < s.len() && s[emt_o5(m)] == ']',
        s.subrange(emt_o5(m) + 1, emt_o7(m)) == ",\"fonts\":["@,
        emt_o7(m) < s.len() && s[emt_o7(m)] == ']',
        s.subrange(emt_o7(m) + 1, emt_o7(m) + 2) == "}"@,
        s.len() == emt_o7(m) + 2,
{
    reveal_strlit("{\"version\":");
    reveal_strlit(",\"tolerance\":");
    reveal_strlit(",\"images\":[");
    reveal_strlit("],\"fonts\":[");
    reveal_strlit(",\"fonts\":[");
    reveal_strlit("]}");
    reveal_strlit("]");
    reveal_strlit("}");
    crate::json::lemma_dec_u64_digits(m.version as u64);
    crate::json::lemma_dec_u64_digits(m.tolerance);
    assert(j_imgs_items(m.images@, 0) == Seq::<char>::empty());
    assert(j_fonts_items(m.fonts@, 0) == Seq::<char>::empty());
    assert("],\"fonts\":["@ =~= "]"@ + ",\"fonts\":["@);
    assert("]}"@ =~= "]"@ + "}"@);
    let dv = dec_u64(m.version as u64);
    let dt = dec_u64(m.tolerance);
    assert(s.len() == emt_o7(m) + 2);
    assert(s.subrange(0, emt_o1()) =~= "{\"version\":"@);
    assert(s.subrange(emt_o1(), emt_o2(m)) =~= dv);
    assert(s.subrange(emt_o2(m), emt_o3(m)) =~= ",\"tolerance\":"@);
    assert(s.subrange(emt_o3(m), emt_o4(m)) =~= dt);
    assert(s.subrange(emt_o4(m), emt_o5(m)) =~= ",\"images\":["@);
    assert(s[emt_o5(m)] == ']');
    assert(s.subrange(emt_o5(m) + 1, emt_o7(m)) =~= ",\"fonts\":["@);
    assert(s[emt_o7(m)] == ']');
    assert(s.subrange(emt_o7(m) + 1, emt_o7(m) + 2) =~= "}"@);
    assert(s[emt_o2(m)] == ',');
    assert(s[emt_o4(m)] == ',');
    assert(crate::json::decimal_token_at(s, emt_o1(), m.version as u64));
    assert(crate::json::decimal_token_at(s, emt_o3(m), m.tolerance));
}

/// Parse a manifest; the whole input must be consumed.  On success the
/// input is exactly the printed form of the result.
#[verifier::rlimit(100)]
#[verifier::spinoff_prover]
pub fn parse_manifest(s: &str) -> (r: Option<ResourceManifest>)
    ensures
        r matches Some(m) ==> s@ == j_manifest(m),
        forall|m: ResourceManifest|
            empty_manifest_text(s@, m) ==> (r matches Some(m2) && m2.version == m.version
                && m2.tolerance == m.tolerance && m2.images@.len() == 0 && m2.fonts@.len() == 0),
{
    proof {
        reveal_strlit("{\"version\":");
        reveal_strlit(",\"tolerance\":");
        reveal_strlit(",\"images\":[");
        reveal_strlit("],\"fonts\":[");
        reveal_strlit("]}");
        reveal_strlit(",");
        reveal_strlit("]");
    }
    let ghost hm: Option<ResourceManifest> = if (exists|m: ResourceManifest|
        empty_manifest_text(s@, m)) {
        Some(choose|m: ResourceManifest| empty_manifest_text(s@, m))
    } else {
        Option::None
    };
    let total = s.unicode_len();
    let x0 = match expect_lit(s, 0, "{\"version\":") {
        Some(v) => v,
        None => {
            proof {
                assert(hm is None) by {
                    if hm is Some {
                        let m0 = hm->Some_0;
                        lemma_empty_manifest_pieces(s@, m0);
                        assert(false);
                    }
                };
            }
            return None;
        },
    };
    let (version, x1) = match parse_u32_field(s, x0) {
        Some(v) => v,
        None => {
            proof {
                assert(hm is None) by {
                    if hm is Some {
                        let m0 = hm->Some_0;
                        lemma_empty_manifest_pieces(s@, m0);
                        assert(x0 as int == emt_o1());
                        assert(false);
                    }
                };
            }
            return None;
        },
    };
    proof {
        lemma_subrange_split(s@, 0, x0 as int, x1 as int);
    }
    let x2 = match expect_lit(s, x1, ",\"tolerance\":") {
        Some(v) => v,
        None => {
            proof {
                assert(hm is None) by {
                    if hm is Some {
                        let m0 = hm->Some_0;
                        lemma_empty_manifest_pieces(s@, m0);
                        assert(x0 as int == emt_o1());
                        assert(x1 as int == emt_o2(m0));
                        assert(false);
                    }
                };
            }
            return None;
        },
    };
    proof {
        lemma_subrange_split(s@, 0, x1 as int, x2 as int);
    }
    let (tolerance, x3) = match parse_u64(s, x2) {
        Some(v) => v,
        None => {
            proof {
                assert(hm is None) by {
                    if hm is Some {
                        let m0 = hm->Some_0;
                        lemma_empty_manifest_pieces(s@, m0);
                        assert(x0 as int == emt_o1());
                        assert(x1 as int == emt_o2(m0));
                        assert(x2 as int == emt_o3(m0));
                        assert(false);
                    }
                };
            }
            return None;
        },
    };
    proof {
        lemma_subrange_split(s@, 0, x2 as int, x3 as int);
    }
    let x4 = match expect_lit(s, x3, ",\"images\":[") {
        Some(v) => v,
        None => {
            proof {
                assert(hm is None) by {
                    if hm is Some {
                        let m0 = hm->Some_0;
                        lemma_empty_manifest_pieces(s@, m0);
                        assert(x0 as int == emt_o1());
                        assert(x1 as int == emt_o2(m0));
                        assert(x2 as int == emt_o3(m0));
                        assert(x3 as int == emt_o4(m0));
                        assert(false);
                    }
                };
            }
            return None;
        },
    };
    proof {
        lemma_subrange_split(s@, 0, x3 as int, x4 as int);
    }
    let (images, p) = match parse_image_entries(s, x4) {
        Some(v) => v,
        None => {
            proof {
                assert(hm is None) by {
                    if hm is Some {
                        let m0 = hm->Some_0;
                        lemma_empty_manifest_pieces(s@, m0);
                        assert(x0 as int == emt_o1());
                        assert(x1 as int == emt_o2(m0));
                        assert(x2 as int == emt_o3(m0));
                        assert(x3 as int == emt_o4(m0));
                        assert(x4 as int == emt_o5(m0));
                        assert(false);
                    }
                };
            }
            return None;
        },
    };
    proof {
        lemma_subrange_split(s@, 0, x4 as int, p as int);
    }
    let x5 = match expect_lit(s, p, ",\"fonts\":[") {
        Some(v) => v,
        None => {
            proof {
                assert(hm is None) by {
                    if hm is Some {
                        let m0 = hm->Some_0;
                        lemma_empty_manifest_pieces(s@, m0);
                        assert(x0 as int == emt_o1());
                        assert(x1 as int == emt_o2(m0));
                        assert(x2 as int == emt_o3(m0));
                        assert(x3 as int == emt_o4(m0));
                        assert(x4 as int == emt_o5(m0));
                        assert(p as int == emt_o5(m0) + 1);
                        assert(false);
                    }
                };
            }
            return None;
        },
    };
    proof {
        reveal_strlit(",\"fonts\":[");
        lemma_subrange_split(s@, 0, p as int, x5 as int);
    }
    let (fonts, p2) = match parse_font_entries(s, x5) {
        Some(v) => v,
        None => {
            proof {
                assert(hm is None) by {
                    if hm is Some {
                        let m0 = hm->Some_0;
                        lemma_empty_manifest_pieces(s@, m0);
                        assert(x0 as int == emt_o1());
                        assert(x1 as int == emt_o2(m0));
                        assert(x2 as int == emt_o3(m0));
                        assert(x3 as int == emt_o4(m0));
                        assert(x4 as int == emt_o5(m0));
                        assert(p as int == emt_o5(m0) + 1);
                        assert(x5 as int == emt_o7(m0));
                        assert(false);
                    }
                };
            }
            return None;
        },
    };
    proof {
        lemma_subrange_split(s@, 0, x5 as int, p2 as int);
    }
    let x6 = match expect_lit(s, p2, "}") {
        Some(v) => v,
        None => {
            proof {
                assert(hm is None) by {
                    if hm is Some {
                        let m0 = hm->Some_0;
                        lemma_empty_manifest_pieces(s@, m0);
                        assert(x0 as int == emt_o1());
                        assert(x1 as int == emt_o2(m0));
                        assert(x2 as int == emt_o3(m0));
                        assert(x3 as int == emt_o4(m0));
                        assert(x4 as int == emt_o5(m0));
                        assert(p as int == emt_o5(m0) + 1);
                        assert(x5 as int == emt_o7(m0));
                        assert(p2 as int == emt_o7(m0) + 1);
                        assert(false);
                    }
                };
            }
            return None;
        },
    };
    proof {
        reveal_strlit("}");
        lemma_subrange_split(s@, 0, p2 as int, x6 as int);
    }
    if x6 != total {
        proof {
            assert(hm is None) by {
                if hm is Some {
                    let m0 = hm->Some_0;
                    lemma_empty_manifest_pieces(s@, m0);
                    assert(x0 as int == emt_o1());
                    assert(x1 as int == emt_o2(m0));
                    assert(x2 as int == emt_o3(m0));
                    assert(x3 as int == emt_o4(m0));
                    assert(x4 as int == emt_o5(m0));
                    assert(p as int == emt_o5(m0) + 1);
                    assert(x5 as int == emt_o7(m0));
                    assert(p2 as int == emt_o7(m0) + 1);
                    assert(x6 as int == emt_o7(m0) + 2);
                    assert(false);
                }
            };
        }
        return None;
    }
    let m = ResourceManifest { version, tolerance, images, fonts };
    proof {
        assert(s@.subrange(0, total as int) =~= s@);
        assert(s@ =~= j_manifest(m));
        assert forall|m1: ResourceManifest| empty_manifest_text(s@, m1) implies (version
            == m1.version && tolerance == m1.tolerance && images@.len() == 0 && fonts@.len()
            == 0) by {
            lemma_empty_manifest_pieces(s@, m1);
            assert(x0 as int == emt_o1());
            assert(x1 as int == emt_o2(m1));
            assert(x2 as int == emt_o3(m1));
            assert(x3 as int == emt_o4(m1));
        }
    }
    Some(m)
}

} // verus!
