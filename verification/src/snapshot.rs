//! The owned, serializable snapshot of a container's metadata: the value that
//! projection produces. Every type here is fully owned (no borrowed data), so a
//! snapshot outlives the demuxer handle it was read from.

use vstd::prelude::*;

verus! {

/// A rational number as reported by the demuxer: numerator over denominator.
#[derive(Clone, Copy, Debug, PartialEq, Eq)]
pub struct Rational {
    pub num: i32,
    pub den: i32,
}

/// Decoder hint level for a stream; copied verbatim, not authoritative.
#[derive(Clone, Copy, Debug, PartialEq, Eq)]
pub enum Discard {
    Nothing,
    Standard,
    NonReference,
    Bidirectional,
    NonIntra,
    NonKey,
    All,
}

/// Enumerated PCM sample layout of an audio stream (interleaved or planar).
#[derive(Clone, Copy, Debug, PartialEq, Eq)]
pub enum SampleFormat {
    Unset,
    U8,
    S16,
    S32,
    S64,
    Flt,
    Dbl,
    U8Planar,
    S16Planar,
    S32Planar,
    S64Planar,
    FltPlanar,
    DblPlanar,
}

/// The media kind of a stream, as classified from the demuxer's raw kind code.
#[derive(Clone, Copy, Debug, PartialEq, Eq)]
pub enum MediaKind {
    Unknown,
    Video,
    Audio,
    Data,
    Subtitle,
    Attachment,
}

/// Why a projection failed; a failed projection never yields a partial snapshot.
#[derive(Clone, Copy, Debug, PartialEq, Eq)]
pub enum ProjectError {
    /// A stream's media kind could not be matched to a usable decoder-parameter
    /// view, or its codec identity was unavailable where one is required.
    CodecResolution { stream_index: usize },
    /// A best-stream index reported by the demuxer does not name an enumerated
    /// stream of the matching kind; treated as a collaborator bug, never ignored.
    InvariantViolation,
}

/// Identity of a codec in the demuxer's registry.
#[derive(Clone, Debug, PartialEq, Eq)]
pub struct Codec {
    pub id: u32,
    pub name: String,
    pub description: String,
}

/// Container format descriptor. `name` is the primary short name; the raw
/// comma-separated name list's remaining tokens populate `aliases`.
#[derive(Clone, Debug, PartialEq, Eq)]
pub struct Format {
    pub name: String,
    pub aliases: Vec<String>,
    pub description: String,
    pub extensions: Vec<String>,
    pub mime_types: Vec<String>,
}

/// Index of the demuxer's preferred stream per media kind, when one exists.
#[derive(Clone, Copy, Debug, PartialEq, Eq)]
pub struct Best {
    pub audio: Option<usize>,
    pub video: Option<usize>,
    pub subtitle: Option<usize>,
}

/// Marker payload for a stream of unknown or unrecognized kind.
#[derive(Clone, Copy, Debug, PartialEq, Eq)]
pub struct Unknown;

/// Marker payload for a data stream.
#[derive(Clone, Copy, Debug, PartialEq, Eq)]
pub struct Data {}

/// Marker payload for an attachment stream.
#[derive(Clone, Copy, Debug, PartialEq, Eq)]
pub struct Attachment {}

/// Codec parameters of an audio stream.
#[derive(Clone, Debug, PartialEq, Eq)]
pub struct Audio {
    pub codec: Codec,
    pub bit_rate: usize,
    pub max_bit_rate: usize,
    pub delay: usize,
    pub sample_rate: u32,
    pub channels: u16,
    pub format: SampleFormat,
    pub frames: usize,
    pub align: usize,
    pub channel_layout: u64,
    pub frame_start: Option<usize>,
}

/// Codec parameters of a video stream. Enumerated colour and chroma properties
/// are carried as the demuxer's raw numeric codes.
#[derive(Clone, Debug, PartialEq, Eq)]
pub struct Video {
    pub codec: Codec,
    pub bit_rate: usize,
    pub max_bit_rate: usize,
    pub delay: usize,
    pub width: u32,
    pub height: u32,
    pub format: i32,
    pub has_b_frames: bool,
    pub aspect_ratio: Rational,
    pub color_space: i32,
    pub color_range: i32,
    pub color_primaries: i32,
    pub color_transfer_characteristic: i32,
    pub chroma_location: i32,
    pub references: usize,
    pub intra_dc_precision: u8,
}

/// Codec identity of a subtitle stream.
#[derive(Clone, Debug, PartialEq, Eq)]
pub struct Subtitle {
    pub codec: Codec,
}

/// Kind-tagged codec payload of a stream: one variant per media kind the
/// demuxer can report, each carrying only the fields meaningful for that kind.
#[derive(Clone, Debug, PartialEq, Eq)]
pub enum Content {
    Unknown(Unknown),
    Audio(Audio),
    Video(Video),
    Data(Data),
    Subtitle(Subtitle),
    Attachment(Attachment),
}

/// One elementary stream of the container, at its stable index.
#[derive(Clone, Debug, PartialEq, Eq)]
pub struct Stream {
    pub index: usize,
    pub time_base: Rational,
    pub start_time: Option<i64>,
    pub duration: Option<i64>,
    pub frames: i64,
    pub disposition: u32,
    pub discard: Discard,
    pub frame_rate: Rational,
    pub avg_frame_rate: Rational,
    pub content: Content,
}

/// The top-level snapshot: container descriptor, best-stream indices, the
/// ordered stream list, and the container-level tags (keys unique, last
/// occurrence of a duplicate key wins).
#[derive(Clone, Debug, PartialEq, Eq)]
pub struct Metadata {
    pub format: Format,
    pub best: Best,
    pub streams: Vec<Stream>,
    pub details: Vec<(String, String)>,
}

/// Mathematical image of a sequence of strings.
pub open spec fn view_strings(v: Seq<String>) -> Seq<Seq<char>> {
    v.map_values(|s: String| s@)
}

/// Mathematical image of a sequence of key/value string pairs.
pub open spec fn view_pairs(v: Seq<(String, String)>) -> Seq<(Seq<char>, Seq<char>)> {
    v.map_values(|p: (String, String)| (p.0@, p.1@))
}

#[verifier::ext_equal]
pub ghost struct CodecView {
    pub id: u32,
    pub name: Seq<char>,
    pub description: Seq<char>,
}

#[verifier::ext_equal]
pub ghost struct FormatView {
    pub name: Seq<char>,
    pub aliases: Seq<Seq<char>>,
    pub description: Seq<char>,
    pub extensions: Seq<Seq<char>>,
    pub mime_types: Seq<Seq<char>>,
}

#[verifier::ext_equal]
pub ghost struct AudioView {
    pub codec: CodecView,
    pub bit_rate: usize,
    pub max_bit_rate: usize,
    pub delay: usize,
    pub sample_rate: u32,
    pub channels: u16,
    pub format: SampleFormat,
    pub frames: usize,
    pub align: usize,
    pub channel_layout: u64,
    pub frame_start: Option<usize>,
}

#[verifier::ext_equal]
pub ghost struct VideoView {
    pub codec: CodecView,
    pub bit_rate: usize,
    pub max_bit_rate: usize,
    pub delay: usize,
    pub width: u32,
    pub height: u32,
    pub format: i32,
    pub has_b_frames: bool,
    pub aspect_ratio: Rational,
    pub color_space: i32,
    pub color_range: i32,
    pub color_primaries: i32,
    pub color_transfer_characteristic: i32,
    pub chroma_location: i32,
    pub references: usize,
    pub intra_dc_precision: u8,
}

#[verifier::ext_equal]
pub ghost struct SubtitleView {
    pub codec: CodecView,
}

#[verifier::ext_equal]
pub ghost enum ContentView {
    Unknown,
    Audio(AudioView),
    Video(VideoView),
    Data,
    Subtitle(SubtitleView),
    Attachment,
}

#[verifier::ext_equal]
pub ghost struct StreamView {
    pub index: usize,
    pub time_base: Rational,
    pub start_time: Option<i64>,
    pub duration: Option<i64>,
    pub frames: i64,
    pub disposition: u32,
    pub discard: Discard,
    pub frame_rate: Rational,
    pub avg_frame_rate: Rational,
    pub content: ContentView,
}

#[verifier::ext_equal]
pub ghost struct MetadataView {
    pub format: FormatView,
    pub best: Best,
    pub streams: Seq<StreamView>,
    pub details: Seq<(Seq<char>, Seq<char>)>,
}

impl View for Codec {
    type V = CodecView;

    open spec fn view(&self) -> CodecView {
        CodecView { id: self.id, name: self.name@, description: self.description@ }
    }
}

impl View for Format {
    type V = FormatView;

    open spec fn view(&self) -> FormatView {
        FormatView {
            name: self.name@,
            aliases: view_strings(self.aliases@),
            description: self.description@,
            extensions: view_strings(self.extensions@),
            mime_types: view_strings(self.mime_types@),
        }
    }
}

impl View for Audio {
    type V = AudioView;

    open spec fn view(&self) -> AudioView {
        AudioView {
            codec: self.codec@,
            bit_rate: self.bit_rate,
            max_bit_rate: self.max_bit_rate,
            delay: self.delay,
            sample_rate: self.sample_rate,
            channels: self.channels,
            format: self.format,
            frames: self.frames,
            align: self.align,
            channel_layout: self.channel_layout,
            frame_start: self.frame_start,
        }
    }
}

impl View for Video {
    type V = VideoView;

    open spec fn view(&self) -> VideoView {
        VideoView {
            codec: self.codec@,
            bit_rate: self.bit_rate,
            max_bit_rate: self.max_bit_rate,
            delay: self.delay,
            width: self.width,
            height: self.height,
            format: self.format,
            has_b_frames: self.has_b_frames,
            aspect_ratio: self.aspect_ratio,
            color_space: self.color_space,
            color_range: self.color_range,
            color_primaries: self.color_primaries,
            color_transfer_characteristic: self.color_transfer_characteristic,
            chroma_location: self.chroma_location,
            references: self.references,
            intra_dc_precision: self.intra_dc_precision,
        }
    }
}

impl View for Subtitle {
    type V = SubtitleView;

    open spec fn view(&self) -> SubtitleView {
        SubtitleView { codec: self.codec@ }
    }
}

impl View for Content {
    type V = ContentView;

    open spec fn view(&self) -> ContentView {
        match self {
            Content::Unknown(_) => ContentView::Unknown,
            Content::Audio(a) => ContentView::Audio(a@),
            Content::Video(v) => ContentView::Video(v@),
            Content::Data(_) => ContentView::Data,
            Content::Subtitle(s) => ContentView::Subtitle(s@),
            Content::Attachment(_) => ContentView::Attachment,
        }
    }
}

impl View for Stream {
    type V = StreamView;

    open spec fn view(&self) -> StreamView {
        StreamView {
            index: self.index,
            time_base: self.time_base,
            start_time: self.start_time,
            duration: self.duration,
            frames: self.frames,
            disposition: self.disposition,
            discard: self.discard,
            frame_rate: self.frame_rate,
            avg_frame_rate: self.avg_frame_rate,
            content: self.content@,
        }
    }
}

/// Mathematical image of a sequence of streams.
pub open spec fn view_streams(v: Seq<Stream>) -> Seq<StreamView> {
    v.map_values(|s: Stream| s@)
}

pub proof fn lemma_view_strings_push(s: Seq<String>, x: String)
    ensures
        view_strings(s.push(x)) =~= view_strings(s).push(x@),
{
    let a = view_strings(s.push(x));
    let b = view_strings(s).push(x@);
    assert forall|k: int| 0 <= k < a.len() implies a[k] == b[k] by {
        assert(a[k] == s.push(x)[k]@);
        if k < s.len() {
            assert(s.push(x)[k] == s[k]);
            assert(b[k] == s[k]@);
        } else {
            assert(s.push(x)[k] == x);
        }
    }
}

pub proof fn lemma_view_pairs_push(s: Seq<(String, String)>, x: (String, String))
    ensures
        view_pairs(s.push(x)) =~= view_pairs(s).push((x.0@, x.1@)),
{
    let a = view_pairs(s.push(x));
    let b = view_pairs(s).push((x.0@, x.1@));
    assert forall|k: int| 0 <= k < a.len() implies a[k] == b[k] by {
        assert(a[k] == (s.push(x)[k].0@, s.push(x)[k].1@));
        if k < s.len() {
            assert(s.push(x)[k] == s[k]);
            assert(b[k] == (s[k].0@, s[k].1@));
        } else {
            assert(s.push(x)[k] == x);
        }
    }
}

pub proof fn lemma_view_streams_push(s: Seq<Stream>, x: Stream)
    ensures
        view_streams(s.push(x)) =~= view_streams(s).push(x@),
{
    let a = view_streams(s.push(x));
    let b = view_streams(s).push(x@);
    assert forall|k: int| 0 <= k < a.len() implies a[k] == b[k] by {
        assert(a[k] == s.push(x)[k]@);
        if k < s.len() {
            assert(s.push(x)[k] == s[k]);
            assert(b[k] == s[k]@);
        } else {
            assert(s.push(x)[k] == x);
        }
    }
}

impl View for Metadata {
    type V = MetadataView;

    open spec fn view(&self) -> MetadataView {
        MetadataView {
            format: self.format@,
            best: self.best,
            streams: view_streams(self.streams@),
            details: view_pairs(self.details@),
        }
    }
}

} // verus!
