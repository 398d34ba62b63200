//! The library's own image of a demuxer format handle: every field the
//! projection reads, held as plain owned values. A caller that sits on the
//! live demuxer object reads these fields out of it and hands the result to
//! [`crate::snapshot::Metadata::new`]; the projection itself then runs on
//! values the verifier can reason about.

use vstd::prelude::*;
use crate::snapshot::{Codec, CodecView, Discard, Rational, SampleFormat, view_pairs, view_strings};

verus! {

/// What an audio decoder-parameter view of a stream reports. `codec` is
/// `None` when the codec identity could not be resolved in the registry.
#[derive(Clone, Debug)]
pub struct AudioParams {
    pub codec: Option<Codec>,
    pub bit_rate: usize,
    pub max_bit_rate: usize,
    pub delay: usize,
    pub sample_rate: u32,
    pub channels: u16,
    pub format: SampleFormat,
    pub frames: usize,
    pub align: usize,
    pub channel_layout: u64,
    pub frame_start: Option<usize>,
}

/// What a video decoder-parameter view of a stream reports.
#[derive(Clone, Debug)]
pub struct VideoParams {
    pub codec: Option<Codec>,
    pub bit_rate: usize,
    pub max_bit_rate: usize,
    pub delay: usize,
    pub width: u32,
    pub height: u32,
    pub format: i32,
    pub has_b_frames: bool,
    pub aspect_ratio: Rational,
    pub color_space: i32,
    pub color_range: i32,
    pub color_primaries: i32,
    pub color_transfer_characteristic: i32,
    pub chroma_location: i32,
    pub references: usize,
    pub intra_dc_precision: u8,
}

/// What a subtitle decoder-parameter view of a stream reports.
#[derive(Clone, Debug)]
pub struct SubtitleParams {
    pub codec: Option<Codec>,
}

/// The decoder-parameter view the demuxer offers for a stream, if any.
/// `Missing` covers both kinds that never carry one (data, attachment,
/// unknown) and a decoder that could not be opened.
#[derive(Clone, Debug)]
pub enum DecoderInfo {
    Missing,
    Audio(AudioParams),
    Video(VideoParams),
    Subtitle(SubtitleParams),
}

/// One stream as enumerated by the demuxer. `kind_code` is the raw media-kind
/// code exactly as reported; codes outside the recognized range are valid
/// input and classify as unknown.
#[derive(Clone, Debug)]
pub struct StreamHandle {
    pub index: usize,
    pub time_base: Rational,
    pub start_time: Option<i64>,
    pub duration: Option<i64>,
    pub frames: i64,
    pub disposition: u32,
    pub discard: Discard,
    pub frame_rate: Rational,
    pub avg_frame_rate: Rational,
    pub kind_code: i32,
    pub decoder: DecoderInfo,
}

/// Everything the projection reads from an opened container: the raw
/// comma-separated format name list, the container descriptor strings, the
/// demuxer's best-stream choice per media kind, the ordered stream list, and
/// the container-level tags in reported order.
#[derive(Clone, Debug)]
pub struct FormatHandle {
    pub raw_name: String,
    pub description: String,
    pub extensions: Vec<String>,
    pub mime_types: Vec<String>,
    pub best_video: Option<usize>,
    pub best_audio: Option<usize>,
    pub best_subtitle: Option<usize>,
    pub streams: Vec<StreamHandle>,
    pub tags: Vec<(String, String)>,
}

#[verifier::ext_equal]
pub ghost struct AudioParamsView {
    pub codec: Option<CodecView>,
    pub bit_rate: usize,
    pub max_bit_rate: usize,
    pub delay: usize,
    pub sample_rate: u32,
    pub channels: u16,
    pub format: SampleFormat,
    pub frames: usize,
    pub align: usize,
    pub channel_layout: u64,
    pub frame_start: Option<usize>,
}

#[verifier::ext_equal]
pub ghost struct VideoParamsView {
    pub codec: Option<CodecView>,
    pub bit_rate: usize,
    pub max_bit_rate: usize,
    pub delay: usize,
    pub width: u32,
    pub height: u32,
    pub format: i32,
    pub has_b_frames: bool,
    pub aspect_ratio: Rational,
    pub color_space: i32,
    pub color_range: i32,
    pub color_primaries: i32,
    pub color_transfer_characteristic: i32,
    pub chroma_location: i32,
    pub references: usize,
    pub intra_dc_precision: u8,
}

#[verifier::ext_equal]
pub ghost struct SubtitleParamsView {
    pub codec: Option<CodecView>,
}

#[verifier::ext_equal]
pub ghost enum DecoderInfoView {
    Missing,
    Audio(AudioParamsView),
    Video(VideoParamsView),
    Subtitle(SubtitleParamsView),
}

#[verifier::ext_equal]
pub ghost struct StreamHandleView {
    pub index: usize,
    pub time_base: Rational,
    pub start_time: Option<i64>,
    pub duration: Option<i64>,
    pub frames: i64,
    pub disposition: u32,
    pub discard: Discard,
    pub frame_rate: Rational,
    pub avg_frame_rate: Rational,
    pub kind_code: i32,
    pub decoder: DecoderInfoView,
}

#[verifier::ext_equal]
pub ghost struct FormatHandleView {
    pub raw_name: Seq<char>,
    pub description: Seq<char>,
    pub extensions: Seq<Seq<char>>,
    pub mime_types: Seq<Seq<char>>,
    pub best_video: Option<usize>,
    pub best_audio: Option<usize>,
    pub best_subtitle: Option<usize>,
    pub streams: Seq<StreamHandleView>,
    pub tags: Seq<(Seq<char>, Seq<char>)>,
}

/// Mathematical image of an optional codec identity.
pub open spec fn view_opt_codec(c: Option<Codec>) -> Option<CodecView> {
    match c {
        Option::Some(c) => Option::Some(c@),
        Option::None => Option::None,
    }
}

impl View for AudioParams {
    type V = AudioParamsView;

    open spec fn view(&self) -> AudioParamsView {
        AudioParamsView {
            codec: view_opt_codec(self.codec),
            bit_rate: self.bit_rate,
            max_bit_rate: self.max_bit_rate,
            delay: self.delay,
            sample_rate: self.sample_rate,
            channels: self.channels,
            format: self.format,
            frames: self.frames,
            align: self.align,
            channel_layout: self.channel_layout,
            frame_start: self.frame_start,
        }
    }
}

impl View for VideoParams {
    type V = VideoParamsView;

    open spec fn view(&self) -> VideoParamsView {
        VideoParamsView {
            codec: view_opt_codec(self.codec),
            bit_rate: self.bit_rate,
            max_bit_rate: self.max_bit_rate,
            delay: self.delay,
            width: self.width,
            height: self.height,
            format: self.format,
            has_b_frames: self.has_b_frames,
            aspect_ratio: self.aspect_ratio,
            color_space: self.color_space,
            color_range: self.color_range,
            color_primaries: self.color_primaries,
            color_transfer_characteristic: self.color_transfer_characteristic,
            chroma_location: self.chroma_location,
            references: self.references,
            intra_dc_precision: self.intra_dc_precision,
        }
    }
}

impl View for SubtitleParams {
    type V = SubtitleParamsView;

    open spec fn view(&self) -> SubtitleParamsView {
        SubtitleParamsView { codec: view_opt_codec(self.codec) }
    }
}

impl View for DecoderInfo {
    type V = DecoderInfoView;

    open spec fn view(&self) -> DecoderInfoView {
        match self {
            DecoderInfo::Missing => DecoderInfoView::Missing,
            DecoderInfo::Audio(a) => DecoderInfoView::Audio(a@),
            DecoderInfo::Video(v) => DecoderInfoView::Video(v@),
            DecoderInfo::Subtitle(s) => DecoderInfoView::Subtitle(s@),
        }
    }
}

impl View for StreamHandle {
    type V = StreamHandleView;

    open spec fn view(&self) -> StreamHandleView {
        StreamHandleView {
            index: self.index,
            time_base: self.time_base,
            start_time: self.start_time,
            duration: self.duration,
            frames: self.frames,
            disposition: self.disposition,
            discard: self.discard,
            frame_rate: self.frame_rate,
            avg_frame_rate: self.avg_frame_rate,
            kind_code: self.kind_code,
            decoder: self.decoder@,
        }
    }
}

/// Mathematical image of a sequence of stream handles.
pub open spec fn view_stream_handles(v: Seq<StreamHandle>) -> Seq<StreamHandleView> {
    v.map_values(|s: StreamHandle| s@)
}

impl View for FormatHandle {
    type V = FormatHandleView;

    open spec fn view(&self) -> FormatHandleView {
        FormatHandleView {
            raw_name: self.raw_name@,
            description: self.description@,
            extensions: view_strings(self.extensions@),
            mime_types: view_strings(self.mime_types@),
            best_video: self.best_video,
            best_audio: self.best_audio,
            best_subtitle: self.best_subtitle,
            streams: view_stream_handles(self.streams@),
            tags: view_pairs(self.tags@),
        }
    }
}

} // verus!
