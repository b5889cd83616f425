//! The binary grammar of an animation file and its decoder.
//!
//! The file layout, little-endian throughout, is a preamble of a packed
//! `u32` version and an `f32` frame rate, followed by zero or more
//! animation records until the input is exhausted exactly.  A record is two
//! NUL-terminated UTF-8 names, two `u32` frame bounds, a `u8` type tag,
//! 32 reserved bytes, and one `f32` sample per integer frame between the
//! bounds, both inclusive.
//!
//! Each grammar rule exists twice: a `spec` function that gives the rule's
//! meaning over a `Seq<u8>`, and an executable decoder whose contract ties
//! its outcome, success or failure, to that meaning.  Samples and the frame
//! rate are carried as raw IEEE 754 bit patterns (`u32`), so the decoder
//! itself is free of floating-point arithmetic.

use vstd::prelude::*;
use vstd::slice::{slice_index_get, slice_subrange, slice_to_vec};
use vstd::utf8::{decode_utf8, valid_utf8};

use crate::errors::{Error, ErrorModel, PREVIEW_LEN};

verus! {

/// Size in bytes of the reserved block at the end of a record header.
pub const RESERVED_LEN: usize = 32;

// ---------------------------------------------------------------------------
// Decoded shapes
// ---------------------------------------------------------------------------

/// The header of one animation record.
#[derive(Debug, Clone, PartialEq)]
pub struct AnimationHeader {
    /// Name of the animated object.
    pub object_name: String,
    /// Name of the animated property.
    pub property_name: String,
    /// First frame of the animation, inclusive.
    pub frame_start: u32,
    /// Last frame of the animation, inclusive.
    pub frame_end: u32,
    /// Reserved value-kind tag.
    pub typ: u8,
}

/// The value array of one animation record, one IEEE 754 bit pattern per
/// integer frame of the record's range.
#[derive(Debug, Clone, PartialEq)]
pub struct AnimationValues(pub Vec<u32>);

/// One decoded animation record.
#[derive(Debug, Clone, PartialEq)]
pub struct Animation {
    pub header: AnimationHeader,
    pub values: AnimationValues,
}

/// A decoded file: the preamble fields and the records in file order.
#[derive(Debug, Clone, PartialEq)]
pub struct PropsAnimation {
    /// Packed semver version word.
    pub version: u32,
    /// Frames per second, as the raw bit pattern of a 32-bit float.
    pub fps_bits: u32,
    /// The records, in file order.
    pub animations: Vec<Animation>,
}

/// Mathematical image of [`AnimationHeader`].
pub struct HeaderModel {
    pub object_name: Seq<char>,
    pub property_name: Seq<char>,
    pub frame_start: u32,
    pub frame_end: u32,
    pub typ: u8,
}

/// Mathematical image of [`Animation`].
pub struct AnimationModel {
    pub header: HeaderModel,
    pub values: Seq<u32>,
}

/// Mathematical image of [`PropsAnimation`].
pub struct PropsAnimationModel {
    pub version: u32,
    pub fps_bits: u32,
    pub animations: Seq<AnimationModel>,
}

impl AnimationModel {
    /// A record is well formed when its frame bounds are ordered and it
    /// holds exactly one sample per integer frame of its range.
    pub open spec fn wf(self) -> bool {
        &&& self.header.frame_start <= self.header.frame_end
        &&& self.values.len() == self.header.frame_end - self.header.frame_start + 1
    }
}

impl View for AnimationHeader {
    type V = HeaderModel;

    open spec fn view(&self) -> HeaderModel {
        HeaderModel {
            object_name: self.object_name@,
            property_name: self.property_name@,
            frame_start: self.frame_start,
            frame_end: self.frame_end,
            typ: self.typ,
        }
    }
}

impl View for AnimationValues {
    type V = Seq<u32>;

    open spec fn view(&self) -> Seq<u32> {
        self.0@
    }
}

impl View for Animation {
    type V = AnimationModel;

    open spec fn view(&self) -> AnimationModel {
        AnimationModel { header: self.header@, values: self.values@ }
    }
}

/// The images of a sequence of decoded records.
pub open spec fn animations_view(v: Seq<Animation>) -> Seq<AnimationModel> {
    v.map_values(|a: Animation| a@)
}

impl View for PropsAnimation {
    type V = PropsAnimationModel;

    open spec fn view(&self) -> PropsAnimationModel {
        PropsAnimationModel {
            version: self.version,
            fps_bits: self.fps_bits,
            animations: animations_view(self.animations@),
        }
    }
}

// ---------------------------------------------------------------------------
// The grammar, as spec functions
// ---------------------------------------------------------------------------

/// The preview bytes reported with a failure at `pos`: what remains of the
/// input there, capped at [`PREVIEW_LEN`] bytes.
pub open spec fn spec_preview(s: Seq<u8>, pos: int) -> Seq<u8> {
    if s.len() - pos > PREVIEW_LEN {
        s.subrange(pos, pos + PREVIEW_LEN)
    } else {
        s.subrange(pos, s.len() as int)
    }
}

/// The truncation failure reported at `pos`.
pub open spec fn spec_truncated(s: Seq<u8>, pos: int) -> ErrorModel {
    ErrorModel::TruncatedInput { offset: pos, preview: spec_preview(s, pos) }
}

/// The value of four bytes read as a little-endian 32-bit integer.
pub open spec fn spec_le_u32(b0: u8, b1: u8, b2: u8, b3: u8) -> u32 {
    (b0 as u32) | ((b1 as u32) << 8) | ((b2 as u32) << 16) | ((b3 as u32) << 24)
}

/// The little-endian 32-bit integer starting at `pos`.
pub open spec fn spec_le_u32_at(s: Seq<u8>, pos: int) -> u32 {
    spec_le_u32(s[pos], s[pos + 1], s[pos + 2], s[pos + 3])
}

/// One byte at the cursor, and the cursor past it.
pub open spec fn spec_read_u8(s: Seq<u8>, pos: int) -> Result<(u8, int), ErrorModel> {
    if pos + 1 <= s.len() {
        Ok((s[pos], pos + 1))
    } else {
        Err(spec_truncated(s, pos))
    }
}

/// A little-endian `u32` at the cursor, and the cursor past it.
pub open spec fn spec_read_u32(s: Seq<u8>, pos: int) -> Result<(u32, int), ErrorModel> {
    if pos + 4 <= s.len() {
        Ok((spec_le_u32_at(s, pos), pos + 4))
    } else {
        Err(spec_truncated(s, pos))
    }
}

/// The cursor past `n` reserved bytes.
pub open spec fn spec_skip(s: Seq<u8>, pos: int, n: int) -> Result<int, ErrorModel> {
    if pos + n <= s.len() {
        Ok(pos + n)
    } else {
        Err(spec_truncated(s, pos))
    }
}

/// The position of the first NUL byte at or after `pos`, if any.
pub open spec fn spec_find_nul(s: Seq<u8>, pos: int) -> Option<int>
    decreases s.len() - pos,
{
    if pos < 0 || pos >= s.len() {
        None
    } else if s[pos] == 0 {
        Some(pos)
    } else {
        spec_find_nul(s, pos + 1)
    }
}

/// A NUL-terminated UTF-8 string at the cursor, and the cursor past the
/// terminator.  Fails as truncated when no terminator follows, and as
/// invalid UTF-8 when the bytes before the terminator do not decode.
pub open spec fn spec_parse_str(s: Seq<u8>, pos: int) -> Result<(Seq<char>, int), ErrorModel> {
    match spec_find_nul(s, pos) {
        Option::None => Err(spec_truncated(s, pos)),
        Option::Some(j) => {
            let raw = s.subrange(pos, j);
            if valid_utf8(raw) {
                Ok((decode_utf8(raw), j + 1))
            } else {
                Err(ErrorModel::InvalidUtf8 { offset: pos, preview: spec_preview(s, pos) })
            }
        },
    }
}

/// A record header at the cursor: the two names, the frame bounds, the type
/// tag, and the reserved block.
pub open spec fn spec_parse_header(s: Seq<u8>, pos: int) -> Result<(HeaderModel, int), ErrorModel> {
    match spec_parse_str(s, pos) {
        Err(e) => Err(e),
        Ok((object_name, p1)) => match spec_parse_str(s, p1) {
            Err(e) => Err(e),
            Ok((property_name, p2)) => match spec_read_u32(s, p2) {
                Err(e) => Err(e),
                Ok((frame_start, p3)) => match spec_read_u32(s, p3) {
                    Err(e) => Err(e),
                    Ok((frame_end, p4)) => match spec_read_u8(s, p4) {
                        Err(e) => Err(e),
                        Ok((typ, p5)) => match spec_skip(s, p5, RESERVED_LEN as int) {
                            Err(e) => Err(e),
                            Ok(p6) => Ok(
                                (
                                    HeaderModel {
                                        object_name,
                                        property_name,
                                        frame_start,
                                        frame_end,
                                        typ,
                                    },
                                    p6,
                                ),
                            ),
                        },
                    },
                },
            },
        },
    }
}

/// `count` little-endian 32-bit samples at the cursor.  When the buffer is
/// short, the failure offset is the start of the first incomplete sample.
pub open spec fn spec_parse_values(s: Seq<u8>, pos: int, count: int) -> Result<
    (Seq<u32>, int),
    ErrorModel,
> {
    if pos + 4 * count <= s.len() {
        Ok((Seq::new(count as nat, |i: int| spec_le_u32_at(s, pos + 4 * i)), pos + 4 * count))
    } else {
        Err(spec_truncated(s, pos + 4 * ((s.len() - pos) / 4)))
    }
}

/// The value array owed to a header: rejects an inverted frame range, then
/// reads one sample per frame of the range.
pub open spec fn spec_parse_animation_values(s: Seq<u8>, pos: int, h: HeaderModel) -> Result<
    (Seq<u32>, int),
    ErrorModel,
> {
    if h.frame_end < h.frame_start {
        Err(ErrorModel::InvalidFrameRange { frame_start: h.frame_start, frame_end: h.frame_end })
    } else {
        spec_parse_values(s, pos, h.frame_end - h.frame_start + 1)
    }
}

/// One full record at the cursor: header, then its value array.
pub open spec fn spec_parse_animation(s: Seq<u8>, pos: int) -> Result<
    (AnimationModel, int),
    ErrorModel,
> {
    match spec_parse_header(s, pos) {
        Err(e) => Err(e),
        Ok((h, p)) => match spec_parse_animation_values(s, p, h) {
            Err(e) => Err(e),
            Ok((values, pe)) => Ok((AnimationModel { header: h, values }, pe)),
        },
    }
}

/// Records from the cursor until the input is exhausted exactly.
pub open spec fn spec_parse_animations(s: Seq<u8>, pos: int) -> Result<
    Seq<AnimationModel>,
    ErrorModel,
>
    decreases s.len() - pos,
{
    if pos >= s.len() {
        Ok(Seq::empty())
    } else {
        match spec_parse_animation(s, pos) {
            Err(e) => Err(e),
            Ok((a, next)) => if pos < next <= s.len() {
                match spec_parse_animations(s, next) {
                    Err(e) => Err(e),
                    Ok(rest) => Ok(seq![a] + rest),
                }
            } else {
                // A record always advances the cursor and never passes the
                // end of the input, so this branch is vacuous; it only
                // bounds the recursion.
                Ok(seq![a])
            },
        }
    }
}

/// A whole file: version word, frame-rate bits, then records until the end
/// of the input.
pub open spec fn spec_parse_document(s: Seq<u8>) -> Result<PropsAnimationModel, ErrorModel> {
    match spec_read_u32(s, 0) {
        Err(e) => Err(e),
        Ok((version, p1)) => match spec_read_u32(s, p1) {
            Err(e) => Err(e),
            Ok((fps_bits, p2)) => match spec_parse_animations(s, p2) {
                Err(e) => Err(e),
                Ok(animations) => Ok(PropsAnimationModel { version, fps_bits, animations }),
            },
        },
    }
}

// ---------------------------------------------------------------------------
// Scalar readers
// ---------------------------------------------------------------------------

/// The preview reported with a failure at `pos`.
fn make_preview(s: &[u8], pos: usize) -> (r: Vec<u8>)
    requires
        pos <= s@.len(),
    ensures
        r@ == spec_preview(s@, pos as int),
{
    let end: usize = if s.len() - pos > PREVIEW_LEN {
        pos + PREVIEW_LEN
    } else {
        s.len()
    };
    slice_to_vec(slice_subrange(s, pos, end))
}

/// The truncation failure reported at `pos`.
fn truncated(s: &[u8], pos: usize) -> (r: Error)
    requires
        pos <= s@.len(),
    ensures
        r@ == spec_truncated(s@, pos as int),
{
    Error::TruncatedInput { offset: pos, preview: make_preview(s, pos) }
}

/// Reads one byte and advances the cursor past it.
pub fn read_u8(s: &[u8], pos: usize) -> (r: Result<(u8, usize), Error>)
    requires
        pos <= s@.len(),
    ensures
        (match r {
            Ok((v, next)) => spec_read_u8(s@, pos as int) == Ok::<(u8, int), ErrorModel>(
                (v, next as int),
            ) && next <= s@.len(),
            Err(e) => spec_read_u8(s@, pos as int) == Err::<(u8, int), ErrorModel>(e@),
        }),
{
    if s.len() - pos >= 1 {
        Ok((*slice_index_get(s, pos), pos + 1))
    } else {
        Err(truncated(s, pos))
    }
}

/// Reads a little-endian `u32` and advances the cursor past it.
pub fn read_u32_le(s: &[u8], pos: usize) -> (r: Result<(u32, usize), Error>)
    requires
        pos <= s@.len(),
    ensures
        (match r {
            Ok((v, next)) => spec_read_u32(s@, pos as int) == Ok::<(u32, int), ErrorModel>(
                (v, next as int),
            ) && next <= s@.len(),
            Err(e) => spec_read_u32(s@, pos as int) == Err::<(u32, int), ErrorModel>(e@),
        }),
{
    if s.len() - pos >= 4 {
        let b0 = *slice_index_get(s, pos);
        let b1 = *slice_index_get(s, pos + 1);
        let b2 = *slice_index_get(s, pos + 2);
        let b3 = *slice_index_get(s, pos + 3);
        let v: u32 = (b0 as u32) | ((b1 as u32) << 8u32) | ((b2 as u32) << 16u32) | ((b3 as u32)
            << 24u32);
        Ok((v, pos + 4))
    } else {
        Err(truncated(s, pos))
    }
}

proof fn lemma_find_nul_none(s: Seq<u8>, pos: int)
    requires
        0 <= pos <= s.len(),
        forall|k: int| pos <= k < s.len() ==> s[k] != 0,
    ensures
        spec_find_nul(s, pos) is None,
    decreases s.len() - pos,
{
    if pos < s.len() {
        lemma_find_nul_none(s, pos + 1);
    }
}

proof fn lemma_find_nul_some(s: Seq<u8>, pos: int, j: int)
    requires
        0 <= pos <= j < s.len(),
        s[j] == 0,
        forall|k: int| pos <= k < j ==> s[k] != 0,
    ensures
        spec_find_nul(s, pos) == Some(j),
    decreases j - pos,
{
    if pos < j {
        lemma_find_nul_some(s, pos + 1, j);
    }
}

proof fn lemma_find_nul_characterization(s: Seq<u8>, pos: int, j: int)
    requires
        0 <= pos,
        spec_find_nul(s, pos) == Some(j),
    ensures
        pos <= j < s.len(),
        s[j] == 0,
        forall|k: int| pos <= k < j ==> s[k] != 0,
    decreases s.len() - pos,
{
    if pos < s.len() && s[pos] != 0 {
        lemma_find_nul_characterization(s, pos + 1, j);
    }
}

/// Law: a name field whose bytes before the terminator are not valid UTF-8
/// makes the string rule fail as invalid UTF-8, at the field's offset.
pub proof fn lemma_invalid_utf8_name_rejected(s: Seq<u8>, pos: int, j: int)
    requires
        spec_find_nul(s, pos) == Some(j),
        !valid_utf8(s.subrange(pos, j)),
    ensures
        spec_parse_str(s, pos) == Err::<(Seq<char>, int), ErrorModel>(
            ErrorModel::InvalidUtf8 { offset: pos, preview: spec_preview(s, pos) },
        ),
{
}

/// Law: a record whose object name holds invalid UTF-8 before its
/// terminator is rejected as invalid UTF-8, at the name's offset.
pub proof fn lemma_invalid_utf8_record_rejected(s: Seq<u8>, pos: int, j: int)
    requires
        spec_find_nul(s, pos) == Some(j),
        !valid_utf8(s.subrange(pos, j)),
    ensures
        spec_parse_animation(s, pos) == Err::<(AnimationModel, int), ErrorModel>(
            ErrorModel::InvalidUtf8 { offset: pos, preview: spec_preview(s, pos) },
        ),
{
}

/// Relies on `String::from_utf8`: it returns `Ok` exactly when the bytes
/// are valid UTF-8, and the string then holds their decoding.  vstd's
/// `valid_utf8` and `decode_utf8` state that notion of UTF-8 byte for byte.
#[verifier::external_body]
fn bytes_to_string(b: Vec<u8>) -> (r: Option<String>)
    ensures
        r is Some <==> valid_utf8(b@),
        (r matches Some(st) ==> st@ == decode_utf8(b@)),
{
    String::from_utf8(b).ok()
}

/// Reads a NUL-terminated UTF-8 string, advancing the cursor past the
/// terminator; the terminator is consumed but not part of the string.
pub fn zero_term_str(s: &[u8], pos: usize) -> (r: Result<(String, usize), Error>)
    requires
        pos <= s@.len(),
    ensures
        (match r {
            Ok((st, next)) => spec_parse_str(s@, pos as int) == Ok::<(Seq<char>, int), ErrorModel>(
                (st@, next as int),
            ) && pos < next <= s@.len(),
            Err(e) => spec_parse_str(s@, pos as int) == Err::<(Seq<char>, int), ErrorModel>(e@),
        }),
{
    let mut i: usize = pos;
    loop
        invariant
            pos <= i <= s@.len(),
            forall|k: int| pos <= k < i ==> s@[k] != 0,
        ensures
            pos <= i <= s@.len(),
            forall|k: int| pos <= k < i ==> s@[k] != 0,
            i == s@.len() || s@[i as int] == 0,
        decreases s@.len() - i,
    {
        if i >= s.len() {
            break ;
        }
        if *slice_index_get(s, i) == 0 {
            break ;
        }
        i = i + 1;
    }
    if i >= s.len() {
        proof {
            lemma_find_nul_none(s@, pos as int);
        }
        return Err(truncated(s, pos));
    }
    proof {
        lemma_find_nul_some(s@, pos as int, i as int);
    }
    let raw: Vec<u8> = slice_to_vec(slice_subrange(s, pos, i));
    match bytes_to_string(raw) {
        Some(st) => Ok((st, i + 1)),
        None => Err(Error::InvalidUtf8 { offset: pos, preview: make_preview(s, pos) }),
    }
}

/// Advances the cursor past `n` reserved bytes without decoding them.
pub fn skip_reserved(s: &[u8], pos: usize, n: usize) -> (r: Result<usize, Error>)
    requires
        pos <= s@.len(),
    ensures
        (match r {
            Ok(next) => spec_skip(s@, pos as int, n as int) == Ok::<int, ErrorModel>(next as int)
                && next <= s@.len(),
            Err(e) => spec_skip(s@, pos as int, n as int) == Err::<int, ErrorModel>(e@),
        }),
{
    if s.len() - pos >= n {
        Ok(pos + n)
    } else {
        Err(truncated(s, pos))
    }
}

/// Decodes one record header: object name, property name, frame bounds,
/// type tag, and the reserved block.
pub fn animation_header(s: &[u8], pos: usize) -> (r: Result<(AnimationHeader, usize), Error>)
    requires
        pos <= s@.len(),
    ensures
        (match r {
            Ok((h, next)) => spec_parse_header(s@, pos as int) == Ok::<
                (HeaderModel, int),
                ErrorModel,
            >((h@, next as int)) && pos < next <= s@.len(),
            Err(e) => spec_parse_header(s@, pos as int) == Err::<(HeaderModel, int), ErrorModel>(
                e@,
            ),
        }),
{
    let (object_name, p1) = match zero_term_str(s, pos) {
        Ok(v) => v,
        Err(e) => {
            return Err(e);
        },
    };
    let (property_name, p2) = match zero_term_str(s, p1) {
        Ok(v) => v,
        Err(e) => {
            return Err(e);
        },
    };
    let (frame_start, p3) = match read_u32_le(s, p2) {
        Ok(v) => v,
        Err(e) => {
            return Err(e);
        },
    };
    let (frame_end, p4) = match read_u32_le(s, p3) {
        Ok(v) => v,
        Err(e) => {
            return Err(e);
        },
    };
    let (typ, p5) = match read_u8(s, p4) {
        Ok(v) => v,
        Err(e) => {
            return Err(e);
        },
    };
    let p6 = match skip_reserved(s, p5, RESERVED_LEN) {
        Ok(v) => v,
        Err(e) => {
            return Err(e);
        },
    };
    Ok((AnimationHeader { object_name, property_name, frame_start, frame_end, typ }, p6))
}

/// Decodes the value array owed to a header: one sample per integer frame
/// in the header's range.
pub fn animation_values(header: &AnimationHeader, s: &[u8], pos: usize) -> (r: Result<
    (AnimationValues, usize),
    Error,
>)
    requires
        pos <= s@.len(),
    ensures
        (match r {
            Ok((values, next)) => spec_parse_animation_values(s@, pos as int, header@) == Ok::<
                (Seq<u32>, int),
                ErrorModel,
            >((values@, next as int)) && pos <= next <= s@.len(),
            Err(e) => spec_parse_animation_values(s@, pos as int, header@) == Err::<
                (Seq<u32>, int),
                ErrorModel,
            >(e@),
        }),
{
    if header.frame_end < header.frame_start {
        return Err(
            Error::InvalidFrameRange {
                frame_start: header.frame_start,
                frame_end: header.frame_end,
            },
        );
    }
    let count: u64 = (header.frame_end - header.frame_start) as u64 + 1;
    let remaining: usize = s.len() - pos;
    if count * 4 > remaining as u64 {
        let k: usize = remaining / 4;
        let off: usize = pos + k * 4;
        return Err(truncated(s, off));
    }
    assert(count <= count * 4);
    let count_us: usize = count as usize;
    let mut values: Vec<u32> = Vec::new();
    let mut i: usize = 0;
    let mut p: usize = pos;
    while i < count_us
        invariant
            0 <= i <= count_us,
            p == pos + 4 * i,
            pos + 4 * count_us <= s@.len() <= usize::MAX,
            values@.len() == i,
            forall|j: int| 0 <= j < i ==> values@[j] == spec_le_u32_at(s@, pos + 4 * j),
        decreases count_us - i,
    {
        assert(p + 4 <= pos + 4 * count_us);
        assert(p + 4 <= s@.len());
        let b0 = *slice_index_get(s, p);
        let b1 = *slice_index_get(s, p + 1);
        let b2 = *slice_index_get(s, p + 2);
        let b3 = *slice_index_get(s, p + 3);
        let v: u32 = (b0 as u32) | ((b1 as u32) << 8u32) | ((b2 as u32) << 16u32) | ((b3 as u32)
            << 24u32);
        values.push(v);
        p = p + 4;
        i = i + 1;
    }
    proof {
        assert(values@ =~= Seq::new(count as nat, |j: int| spec_le_u32_at(s@, pos + 4 * j)));
    }
    Ok((AnimationValues(values), p))
}

/// Decodes one full animation record: its header, then its value array.
pub fn animation(s: &[u8], pos: usize) -> (r: Result<(Animation, usize), Error>)
    requires
        pos <= s@.len(),
    ensures
        (match r {
            Ok((a, next)) => spec_parse_animation(s@, pos as int) == Ok::<
                (AnimationModel, int),
                ErrorModel,
            >((a@, next as int)) && pos < next <= s@.len() && a@.wf(),
            Err(e) => spec_parse_animation(s@, pos as int) == Err::<
                (AnimationModel, int),
                ErrorModel,
            >(e@),
        }),
{
    let (header, p) = match animation_header(s, pos) {
        Ok(v) => v,
        Err(e) => {
            return Err(e);
        },
    };
    let (values, pe) = match animation_values(&header, s, p) {
        Ok(v) => v,
        Err(e) => {
            return Err(e);
        },
    };
    Ok((Animation { header, values }, pe))
}

/// Puts already-decoded records in front of the outcome of decoding the
/// rest of the input.
pub open spec fn spec_prepend_animations(
    prefix: Seq<AnimationModel>,
    r: Result<Seq<AnimationModel>, ErrorModel>,
) -> Result<Seq<AnimationModel>, ErrorModel> {
    match r {
        Ok(rest) => Ok(prefix + rest),
        Err(e) => Err(e),
    }
}

proof fn lemma_prepend_identity(r: Result<Seq<AnimationModel>, ErrorModel>)
    ensures
        spec_prepend_animations(Seq::empty(), r) == r,
{
    match r {
        Ok(rest) => {
            assert(Seq::empty() + rest =~= rest);
        },
        Err(_) => {
        },
    }
}

/// Decodes a whole file: the version word, the frame-rate bits, then
/// records until the input is exhausted exactly.  All-or-nothing: any
/// failure of a nested rule is the failure of the whole decode.
pub fn props_animation(input: &[u8]) -> (r: Result<PropsAnimation, Error>)
    ensures
        (match r {
            Ok(p) => spec_parse_document(input@) == Ok::<PropsAnimationModel, ErrorModel>(p@) && (
            forall|i: int| 0 <= i < p@.animations.len() ==> p@.animations[i].wf()),
            Err(e) => spec_parse_document(input@) == Err::<PropsAnimationModel, ErrorModel>(e@),
        }),
{
    let (version, p1) = match read_u32_le(input, 0) {
        Ok(v) => v,
        Err(e) => {
            return Err(e);
        },
    };
    let (fps_bits, p2) = match read_u32_le(input, p1) {
        Ok(v) => v,
        Err(e) => {
            return Err(e);
        },
    };
    let len: usize = input.len();
    let mut animations: Vec<Animation> = Vec::new();
    let mut pos: usize = p2;
    proof {
        lemma_prepend_identity(spec_parse_animations(input@, p2 as int));
        assert(animations_view(animations@) =~= Seq::<AnimationModel>::empty());
    }
    while pos < len
        invariant
            p2 <= pos <= input@.len() <= usize::MAX,
            len == input@.len(),
            spec_read_u32(input@, 0) == Ok::<(u32, int), ErrorModel>((version, p1 as int)),
            spec_read_u32(input@, p1 as int) == Ok::<(u32, int), ErrorModel>((fps_bits, p2 as int)),
            spec_prepend_animations(
                animations_view(animations@),
                spec_parse_animations(input@, pos as int),
            ) == spec_parse_animations(input@, p2 as int),
            forall|i: int|
                0 <= i < animations_view(animations@).len() ==> animations_view(
                    animations@,
                )[i].wf(),
        decreases input@.len() - pos,
    {
        match animation(input, pos) {
            Err(e) => {
                proof {
                    assert(spec_parse_animations(input@, pos as int) == Err::<
                        Seq<AnimationModel>,
                        ErrorModel,
                    >(e@));
                    assert(spec_parse_document(input@) == Err::<PropsAnimationModel, ErrorModel>(
                        e@,
                    ));
                }
                return Err(e);
            },
            Ok((a, next)) => {
                proof {
                    let prefix = animations_view(animations@);
                    match spec_parse_animations(input@, next as int) {
                        Ok(rest) => {
                            assert((prefix + (seq![a@] + rest)) =~= ((prefix + seq![a@]) + rest));
                        },
                        Err(_) => {
                        },
                    }
                    assert(animations_view(animations@.push(a)) =~= prefix + seq![a@]);
                }
                animations.push(a);
                pos = next;
            },
        }
    }
    proof {
        assert(spec_parse_animations(input@, pos as int) == Ok::<
            Seq<AnimationModel>,
            ErrorModel,
        >(Seq::empty()));
        assert(animations_view(animations@) + Seq::<AnimationModel>::empty() =~= animations_view(
            animations@,
        ));
    }
    Ok(PropsAnimation { version, fps_bits, animations })
}

// ---------------------------------------------------------------------------
// Truncation: how the grammar treats a cut-short buffer
// ---------------------------------------------------------------------------

/// True when decoding records from `pos` reaches `end` exactly, so that
/// `end` lies on a record boundary of the input.
pub open spec fn spec_record_boundary(s: Seq<u8>, pos: int, end: int) -> bool
    decreases s.len() - pos,
{
    if pos == end {
        true
    } else if pos >= s.len() {
        false
    } else {
        match spec_parse_animation(s, pos) {
            Err(_) => false,
            Ok((a, next)) => if pos < next <= s.len() {
                spec_record_boundary(s, next, end)
            } else {
                false
            },
        }
    }
}

proof fn lemma_parse_str_advances(s: Seq<u8>, pos: int)
    requires
        0 <= pos,
        spec_parse_str(s, pos) is Ok,
    ensures
        pos < spec_parse_str(s, pos)->Ok_0.1 <= s.len(),
{
    let j = spec_find_nul(s, pos)->0;
    lemma_find_nul_characterization(s, pos, j);
}

proof fn lemma_parse_header_advances(s: Seq<u8>, pos: int)
    requires
        0 <= pos,
        spec_parse_header(s, pos) is Ok,
    ensures
        pos < spec_parse_header(s, pos)->Ok_0.1 <= s.len(),
        spec_parse_header(s, pos)->Ok_0.1 == spec_parse_str(s, spec_parse_str(s, pos)->Ok_0.1)->Ok_0.1
            + 41,
{
    lemma_parse_str_advances(s, pos);
    let p1 = spec_parse_str(s, pos)->Ok_0.1;
    lemma_parse_str_advances(s, p1);
}

proof fn lemma_parse_animation_advances(s: Seq<u8>, pos: int)
    requires
        0 <= pos,
        spec_parse_animation(s, pos) is Ok,
    ensures
        pos < spec_parse_animation(s, pos)->Ok_0.1 <= s.len(),
{
    lemma_parse_header_advances(s, pos);
}

proof fn lemma_parse_str_prefix(s: Seq<u8>, pos: int, end: int)
    requires
        0 <= pos <= end <= s.len(),
        spec_parse_str(s, pos) is Ok,
    ensures
        spec_parse_str(s, pos)->Ok_0.1 <= end ==> spec_parse_str(s.take(end), pos)
            == spec_parse_str(s, pos),
        spec_parse_str(s, pos)->Ok_0.1 > end ==> spec_parse_str(s.take(end), pos) matches Err(
            ErrorModel::TruncatedInput { .. },
        ),
{
    let t = s.take(end);
    let j = spec_find_nul(s, pos)->0;
    lemma_find_nul_characterization(s, pos, j);
    let next = spec_parse_str(s, pos)->Ok_0.1;
    if next <= end {
        assert(forall|k: int| pos <= k < j ==> t[k] != 0);
        lemma_find_nul_some(t, pos, j);
        assert(t.subrange(pos, j) =~= s.subrange(pos, j));
    } else {
        assert(forall|k: int| pos <= k < end ==> t[k] != 0);
        lemma_find_nul_none(t, pos);
    }
}

proof fn lemma_parse_header_prefix(s: Seq<u8>, pos: int, end: int)
    requires
        0 <= pos <= end <= s.len(),
        spec_parse_header(s, pos) is Ok,
    ensures
        spec_parse_header(s, pos)->Ok_0.1 <= end ==> spec_parse_header(s.take(end), pos)
            == spec_parse_header(s, pos),
        spec_parse_header(s, pos)->Ok_0.1 > end ==> spec_parse_header(s.take(end), pos) matches Err(
            ErrorModel::TruncatedInput { .. },
        ),
{
    let t = s.take(end);
    assert(forall|k: int| 0 <= k < end ==> t[k] == s[k]);
    lemma_parse_header_advances(s, pos);
    let p1 = spec_parse_str(s, pos)->Ok_0.1;
    let p2 = spec_parse_str(s, p1)->Ok_0.1;
    let p6 = spec_parse_header(s, pos)->Ok_0.1;
    lemma_parse_str_advances(s, pos);
    lemma_parse_str_advances(s, p1);
    lemma_parse_str_prefix(s, pos, end);
    if p1 <= end {
        lemma_parse_str_prefix(s, p1, end);
        if p2 <= end && p6 <= end {
            assert(spec_le_u32_at(t, p2) == spec_le_u32_at(s, p2));
            assert(spec_le_u32_at(t, p2 + 4) == spec_le_u32_at(s, p2 + 4));
            assert(t[p2 + 8] == s[p2 + 8]);
        }
    }
}

proof fn lemma_parse_animation_prefix(s: Seq<u8>, pos: int, end: int)
    requires
        0 <= pos <= end <= s.len(),
        spec_parse_animation(s, pos) is Ok,
    ensures
        spec_parse_animation(s, pos)->Ok_0.1 <= end ==> spec_parse_animation(s.take(end), pos)
            == spec_parse_animation(s, pos),
        spec_parse_animation(s, pos)->Ok_0.1 > end ==> spec_parse_animation(s.take(end), pos)
            matches Err(ErrorModel::TruncatedInput { .. }),
{
    let t = s.take(end);
    assert(forall|k: int| 0 <= k < end ==> t[k] == s[k]);
    lemma_parse_header_prefix(s, pos, end);
    let (h, p) = spec_parse_header(s, pos)->Ok_0;
    lemma_parse_header_advances(s, pos);
    if p <= end {
        let c = h.frame_end - h.frame_start + 1;
        if p + 4 * c <= end {
            assert forall|i: int| 0 <= i < c implies #[trigger] spec_le_u32_at(t, p + 4 * i)
                == spec_le_u32_at(s, p + 4 * i) by {
                assert(t[p + 4 * i] == s[p + 4 * i]);
                assert(t[p + 4 * i + 1] == s[p + 4 * i + 1]);
                assert(t[p + 4 * i + 2] == s[p + 4 * i + 2]);
                assert(t[p + 4 * i + 3] == s[p + 4 * i + 3]);
            }
            assert(Seq::new(c as nat, |i: int| spec_le_u32_at(t, p + 4 * i)) =~= Seq::new(
                c as nat,
                |i: int| spec_le_u32_at(s, p + 4 * i),
            ));
        }
    }
}

/// Law: cutting the records of a valid file anywhere but exactly on a
/// record boundary makes decoding the cut-down buffer fail with
/// `TruncatedInput`.
pub proof fn lemma_truncated_records_rejected(s: Seq<u8>, pos: int, end: int)
    requires
        0 <= pos <= end < s.len(),
        spec_parse_animations(s, pos) is Ok,
        !spec_record_boundary(s, pos, end),
    ensures
        spec_parse_animations(s.take(end), pos) matches Err(ErrorModel::TruncatedInput { .. }),
    decreases s.len() - pos,
{
    let t = s.take(end);
    assert(pos < end);
    lemma_parse_animation_prefix(s, pos, end);
    let (a, next) = spec_parse_animation(s, pos)->Ok_0;
    lemma_parse_animation_advances(s, pos);
    if next <= end {
        lemma_truncated_records_rejected(s, next, end);
    }
}

/// The (major, minor, patch) triple packed in a version word: the top 12
/// bits, the next 10 bits, and the low 10 bits.
pub open spec fn spec_semver(v: u32) -> (u16, u16, u16) {
    (((v >> 20) as u16), (((v >> 10) & 0x3FF) as u16), ((v & 0x3FF) as u16))
}

impl PropsAnimation {
    /// Splits the packed version word into its (major, minor, patch)
    /// sub-fields.
    pub fn semver(&self) -> (r: (u16, u16, u16))
        ensures
            r == spec_semver(self.version),
    {
        let major: u16 = (self.version >> 20u32) as u16;
        let minor: u16 = ((self.version >> 10u32) & 0x3FF) as u16;
        let patch: u16 = (self.version & 0x3FF) as u16;
        (major, minor, patch)
    }
}

} // verus!
