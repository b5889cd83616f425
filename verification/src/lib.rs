//! A loader for the PANIM format, a simple binary animation format for
//! custom properties exported from a 3D content tool.
//!
//! A file holds a packed-semver format version, a frame rate, and zero or
//! more animation records, each an object/property pair with an inclusive
//! frame range and one sample per integer frame in that range.
//!
//! The crate carries every 32-bit floating-point sample as its raw IEEE 754
//! little-endian bit pattern (`u32`): decoding and frame lookup never do any
//! floating-point arithmetic, so both are specified and verified exactly.
//! A caller that wants the numeric value applies `f32::from_bits` to what
//! the accessors return.

pub mod errors;
pub mod parser;

use vstd::prelude::*;

use crate::errors::{Error, ErrorModel};
use crate::parser::{AnimationModel, PropsAnimationModel};

verus! {

// ---------------------------------------------------------------------------
// Semantic data model
// ---------------------------------------------------------------------------

/// One property track: the animation of a single property of a single
/// object, detached from the input buffer.
#[derive(Debug, Clone, PartialEq)]
pub struct Animation {
    /// The name of the object.
    pub object_name: String,
    /// The name of the property.
    pub property_name: String,
    /// The first frame of the animation, inclusive.
    pub frame_start: u32,
    /// The last frame of the animation, inclusive.
    pub frame_end: u32,
    /// Reserved value-kind tag, decoded and retained but not interpreted.
    pub typ: u8,
    /// One sample per integer frame in `[frame_start, frame_end]`, each the
    /// raw bit pattern of a 32-bit float.
    pub frame_values: Vec<u32>,
}

/// A decoded file: version, frame rate, and every property track of every
/// object, in file order.
#[derive(Debug, PartialEq)]
pub struct PropertiesAnimation {
    /// File format version as a (major, minor, patch) triple.
    pub version: (u16, u16, u16),
    /// Frames per second, as the raw bit pattern of a 32-bit float.
    pub fps_bits: u32,
    /// The tracks, in file order.
    pub animations: Vec<Animation>,
}

/// Mathematical image of [`Animation`].
pub struct TrackModel {
    pub object_name: Seq<char>,
    pub property_name: Seq<char>,
    pub frame_start: u32,
    pub frame_end: u32,
    pub typ: u8,
    pub frame_values: Seq<u32>,
}

/// Mathematical image of [`PropertiesAnimation`].
pub struct DocumentModel {
    pub version: (u16, u16, u16),
    pub fps_bits: u32,
    pub animations: Seq<TrackModel>,
}

impl TrackModel {
    /// A track is well formed when its frame bounds are ordered and it
    /// holds exactly one sample per integer frame of its range.  Decoding
    /// establishes this by construction.
    pub open spec fn wf(self) -> bool {
        &&& self.frame_start <= self.frame_end
        &&& self.frame_values.len() == self.frame_end - self.frame_start + 1
    }

    /// The sample owed at an integer frame: the first sample at or below
    /// `frame_start`, the last at or beyond `frame_end`, and the sample of
    /// the frame itself in between.  Out-of-range frames clamp, they never
    /// fail.
    pub open spec fn sample_at(self, frame: u32) -> u32 {
        if frame <= self.frame_start {
            self.frame_values[0]
        } else if frame >= self.frame_end {
            self.frame_values[self.frame_values.len() - 1]
        } else {
            self.frame_values[frame - self.frame_start]
        }
    }
}

impl View for Animation {
    type V = TrackModel;

    open spec fn view(&self) -> TrackModel {
        TrackModel {
            object_name: self.object_name@,
            property_name: self.property_name@,
            frame_start: self.frame_start,
            frame_end: self.frame_end,
            typ: self.typ,
            frame_values: self.frame_values@,
        }
    }
}

/// The images of a sequence of tracks.
pub open spec fn tracks_view(v: Seq<Animation>) -> Seq<TrackModel> {
    v.map_values(|a: Animation| a@)
}

impl View for PropertiesAnimation {
    type V = DocumentModel;

    open spec fn view(&self) -> DocumentModel {
        DocumentModel {
            version: self.version,
            fps_bits: self.fps_bits,
            animations: tracks_view(self.animations@),
        }
    }
}

// ---------------------------------------------------------------------------
// From records to the semantic model
// ---------------------------------------------------------------------------

/// The track a decoded record yields: the header flattened beside the
/// value array.
pub open spec fn spec_track_of(a: AnimationModel) -> TrackModel {
    TrackModel {
        object_name: a.header.object_name,
        property_name: a.header.property_name,
        frame_start: a.header.frame_start,
        frame_end: a.header.frame_end,
        typ: a.header.typ,
        frame_values: a.values,
    }
}

/// The document a decoded file yields: the version word unpacked, the
/// records flattened into tracks.
pub open spec fn spec_document_of(p: PropsAnimationModel) -> DocumentModel {
    DocumentModel {
        version: crate::parser::spec_semver(p.version),
        fps_bits: p.fps_bits,
        animations: p.animations.map_values(|a: AnimationModel| spec_track_of(a)),
    }
}

/// What a byte buffer decodes to: the document, or the failure of the
/// grammar rule that rejected it.  A function of the bytes alone.
pub open spec fn spec_decode(s: Seq<u8>) -> Result<DocumentModel, ErrorModel> {
    match crate::parser::spec_parse_document(s) {
        Ok(p) => Ok(spec_document_of(p)),
        Err(e) => Err(e),
    }
}

impl Animation {
    /// Flattens one decoded record into a track.
    pub fn from_record(a: crate::parser::Animation) -> (r: Animation)
        ensures
            r@ == spec_track_of(a@),
    {
        let crate::parser::Animation { header, values } = a;
        let crate::parser::AnimationHeader {
            object_name,
            property_name,
            frame_start,
            frame_end,
            typ,
        } = header;
        Animation {
            object_name,
            property_name,
            frame_start,
            frame_end,
            typ,
            frame_values: values.0,
        }
    }
}

impl PropertiesAnimation {
    /// Assembles the semantic document from a decoded file.
    pub fn from_parsed(p: crate::parser::PropsAnimation) -> (r: PropertiesAnimation)
        ensures
            r@ == spec_document_of(p@),
    {
        let version = p.semver();
        let fps_bits = p.fps_bits;
        let mut rest = p.animations;
        let ghost orig = rest@;
        let mut animations: Vec<Animation> = Vec::new();
        while rest.len() > 0
            invariant
                animations@.len() + rest@.len() == orig.len(),
                rest@ == orig.skip(animations@.len() as int),
                forall|i: int|
                    0 <= i < animations@.len() ==> animations@[i]@ == spec_track_of(orig[i]@),
            decreases rest@.len(),
        {
            let a = rest.remove(0);
            proof {
                assert(orig.skip(animations@.len() as int).remove(0) =~= orig.skip(
                    animations@.len() as int + 1,
                ));
                assert(a == orig[animations@.len() as int]);
            }
            animations.push(Animation::from_record(a));
        }
        let r = PropertiesAnimation { version, fps_bits, animations };
        proof {
            assert(tracks_view(animations@) =~= p@.animations.map_values(
                |a: AnimationModel| spec_track_of(a),
            ));
        }
        r
    }

    /// Decodes a whole file from a byte buffer.  Total over any input:
    /// either the buffer follows the grammar and the document it encodes is
    /// returned, every track of it well formed, or the failure that the
    /// grammar rule reported is.
    pub fn from_bytes(bytes: &[u8]) -> (r: Result<PropertiesAnimation, Error>)
        ensures
            (match r {
                Ok(doc) => spec_decode(bytes@) == Ok::<DocumentModel, ErrorModel>(doc@) && (
                forall|i: int| 0 <= i < doc@.animations.len() ==> doc@.animations[i].wf()),
                Err(e) => spec_decode(bytes@) == Err::<DocumentModel, ErrorModel>(e@),
            }),
    {
        match crate::parser::props_animation(bytes) {
            Ok(p) => {
                let doc = Self::from_parsed(p);
                Ok(doc)
            },
            Err(e) => Err(e),
        }
    }
}

// ---------------------------------------------------------------------------
// Time-sampling engine
// ---------------------------------------------------------------------------

impl Animation {
    /// The sample at an integer frame, as the bit pattern of a 32-bit
    /// float.  A frame at or before the start of the animation gives the
    /// first sample; one at or beyond the end gives the last.
    pub fn get_value_at_exact_frame(&self, frame: u32) -> (r: u32)
        requires
            self@.wf(),
        ensures
            r == self@.sample_at(frame),
    {
        if frame <= self.frame_start {
            return self.frame_values[0];
        } else if frame >= self.frame_end {
            return self.frame_values[self.frame_values.len() - 1];
        }
        let index: usize = (frame - self.frame_start) as usize;
        self.frame_values[index]
    }
}

// ---------------------------------------------------------------------------
// Laws of the sampling engine
// ---------------------------------------------------------------------------

/// Law: at every frame below the start of a well-formed track, the sample
/// is the track's first value.
pub proof fn lemma_sample_clamps_below(a: TrackModel, frame: u32)
    requires
        a.wf(),
        frame < a.frame_start,
    ensures
        a.sample_at(frame) == a.frame_values[0],
{
}

/// Law: at every frame beyond the end of a well-formed track, the sample
/// is the track's last value.
pub proof fn lemma_sample_clamps_above(a: TrackModel, frame: u32)
    requires
        a.wf(),
        frame > a.frame_end,
    ensures
        a.sample_at(frame) == a.frame_values[a.frame_values.len() - 1],
{
}

/// Law: at every frame of a well-formed track's own range, the sample is
/// exactly the stored value of that frame, with no interpolation.
pub proof fn lemma_sample_exact(a: TrackModel, frame: u32)
    requires
        a.wf(),
        a.frame_start <= frame <= a.frame_end,
    ensures
        a.sample_at(frame) == a.frame_values[frame - a.frame_start],
{
}

/// Law: a buffer of exactly the eight-byte preamble decodes successfully,
/// to a document with no animation tracks.
pub proof fn lemma_preamble_only_decodes_empty(s: Seq<u8>)
    requires
        s.len() == 8,
    ensures
        spec_decode(s) == Ok::<DocumentModel, ErrorModel>(
            DocumentModel {
                version: crate::parser::spec_semver(crate::parser::spec_le_u32_at(s, 0)),
                fps_bits: crate::parser::spec_le_u32_at(s, 4),
                animations: Seq::empty(),
            },
        ),
{
    assert(crate::parser::spec_parse_animations(s, 8) == Ok::<Seq<AnimationModel>, ErrorModel>(
        Seq::empty(),
    ));
    assert(Seq::<AnimationModel>::empty().map_values(|a: AnimationModel| spec_track_of(a))
        =~= Seq::<TrackModel>::empty());
}

/// Law: cutting a valid file short, anywhere but exactly on a record
/// boundary, makes decoding the cut-down buffer fail with
/// `TruncatedInput`.  A cut on a record boundary yields a shorter valid
/// file instead, so it is left out.
pub proof fn lemma_truncated_input_rejected(s: Seq<u8>, end: int)
    requires
        spec_decode(s) is Ok,
        0 <= end < s.len(),
        !crate::parser::spec_record_boundary(s, 8, end),
    ensures
        spec_decode(s.take(end)) matches Err(ErrorModel::TruncatedInput { .. }),
{
    let t = s.take(end);
    assert(forall|k: int| 0 <= k < end ==> t[k] == s[k]);
    if end >= 8 {
        assert(crate::parser::spec_le_u32_at(t, 0) == crate::parser::spec_le_u32_at(s, 0));
        assert(crate::parser::spec_le_u32_at(t, 4) == crate::parser::spec_le_u32_at(s, 4));
        crate::parser::lemma_truncated_records_rejected(s, 8, end);
    }
}

} // verus!
