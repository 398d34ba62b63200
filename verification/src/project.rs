//! The projector: turns a [`FormatHandle`] image of an opened container into
//! an owned [`Metadata`] snapshot, or fails as a whole. `spec_project` is the
//! mathematical statement of the whole transformation; `Metadata::new` is the
//! verified implementation.

use vstd::prelude::*;
use crate::handle::{
    DecoderInfo, DecoderInfoView, FormatHandle, FormatHandleView, StreamHandle, StreamHandleView,
    view_stream_handles,
};
use crate::snapshot::{
    Attachment, Audio, AudioView, Best, Codec, Content, ContentView, Data, Format, FormatView,
    MediaKind, Metadata, MetadataView, ProjectError, Stream, StreamView, Subtitle, SubtitleView,
    Unknown, Video, VideoView, view_streams, view_strings,
};
use crate::text::{build_details, spec_details, split_commas, split_list};

verus! {

/// The media kind named by a raw kind code; every unrecognized code, present
/// or future, is the unknown kind rather than an error.
pub open spec fn spec_classify(code: i32) -> MediaKind {
    if code == 0 {
        MediaKind::Video
    } else if code == 1 {
        MediaKind::Audio
    } else if code == 2 {
        MediaKind::Data
    } else if code == 3 {
        MediaKind::Subtitle
    } else if code == 4 {
        MediaKind::Attachment
    } else {
        MediaKind::Unknown
    }
}

/// Classifies a raw media-kind code.
pub fn classify(code: i32) -> (k: MediaKind)
    ensures
        k == spec_classify(code),
{
    if code == 0 {
        MediaKind::Video
    } else if code == 1 {
        MediaKind::Audio
    } else if code == 2 {
        MediaKind::Data
    } else if code == 3 {
        MediaKind::Subtitle
    } else if code == 4 {
        MediaKind::Attachment
    } else {
        MediaKind::Unknown
    }
}

/// The kind-tagged content of one stream: unknown, data and attachment kinds
/// carry empty markers and never fail; audio, video and subtitle kinds demand
/// a decoder-parameter view of the matching kind with a resolved codec
/// identity, and fail with a codec-resolution error otherwise.
pub open spec fn spec_stream_content(h: StreamHandleView) -> Result<ContentView, ProjectError> {
    match spec_classify(h.kind_code) {
        MediaKind::Unknown => Result::Ok(ContentView::Unknown),
        MediaKind::Data => Result::Ok(ContentView::Data),
        MediaKind::Attachment => Result::Ok(ContentView::Attachment),
        MediaKind::Audio => match h.decoder {
            DecoderInfoView::Audio(p) => match p.codec {
                Option::Some(c) => Result::Ok(
                    ContentView::Audio(
                        AudioView {
                            codec: c,
                            bit_rate: p.bit_rate,
                            max_bit_rate: p.max_bit_rate,
                            delay: p.delay,
                            sample_rate: p.sample_rate,
                            channels: p.channels,
                            format: p.format,
                            frames: p.frames,
                            align: p.align,
                            channel_layout: p.channel_layout,
                            frame_start: p.frame_start,
                        },
                    ),
                ),
                Option::None => Result::Err(ProjectError::CodecResolution { stream_index: h.index }),
            },
            _ => Result::Err(ProjectError::CodecResolution { stream_index: h.index }),
        },
        MediaKind::Video => match h.decoder {
            DecoderInfoView::Video(p) => match p.codec {
                Option::Some(c) => Result::Ok(
                    ContentView::Video(
                        VideoView {
                            codec: c,
                            bit_rate: p.bit_rate,
                            max_bit_rate: p.max_bit_rate,
                            delay: p.delay,
                            width: p.width,
                            height: p.height,
                            format: p.format,
                            has_b_frames: p.has_b_frames,
                            aspect_ratio: p.aspect_ratio,
                            color_space: p.color_space,
                            color_range: p.color_range,
                            color_primaries: p.color_primaries,
                            color_transfer_characteristic: p.color_transfer_characteristic,
                            chroma_location: p.chroma_location,
                            references: p.references,
                            intra_dc_precision: p.intra_dc_precision,
                        },
                    ),
                ),
                Option::None => Result::Err(ProjectError::CodecResolution { stream_index: h.index }),
            },
            _ => Result::Err(ProjectError::CodecResolution { stream_index: h.index }),
        },
        MediaKind::Subtitle => match h.decoder {
            DecoderInfoView::Subtitle(p) => match p.codec {
                Option::Some(c) => Result::Ok(ContentView::Subtitle(SubtitleView { codec: c })),
                Option::None => Result::Err(ProjectError::CodecResolution { stream_index: h.index }),
            },
            _ => Result::Err(ProjectError::CodecResolution { stream_index: h.index }),
        },
    }
}

/// One stream projected: the generic fields copied verbatim, the content
/// extracted by kind.
pub open spec fn spec_project_stream(h: StreamHandleView) -> Result<StreamView, ProjectError> {
    match spec_stream_content(h) {
        Result::Ok(c) => Result::Ok(
            StreamView {
                index: h.index,
                time_base: h.time_base,
                start_time: h.start_time,
                duration: h.duration,
                frames: h.frames,
                disposition: h.disposition,
                discard: h.discard,
                frame_rate: h.frame_rate,
                avg_frame_rate: h.avg_frame_rate,
                content: c,
            },
        ),
        Result::Err(e) => Result::Err(e),
    }
}

/// The whole stream list projected in container order, short-circuiting on
/// the first failure: no partial list survives an error.
pub open spec fn spec_project_streams(ss: Seq<StreamHandleView>) -> Result<
    Seq<StreamView>,
    ProjectError,
>
    decreases ss.len(),
{
    if ss.len() == 0 {
        Result::Ok(Seq::empty())
    } else {
        match spec_project_streams(ss.drop_last()) {
            Result::Err(e) => Result::Err(e),
            Result::Ok(prev) => match spec_project_stream(ss.last()) {
                Result::Err(e) => Result::Err(e),
                Result::Ok(s) => Result::Ok(prev.push(s)),
            },
        }
    }
}

/// A best-stream entry is sound when it names an enumerated stream whose
/// classified kind matches.
pub open spec fn best_entry_ok(
    opt: Option<usize>,
    streams: Seq<StreamHandleView>,
    kind: MediaKind,
) -> bool {
    match opt {
        Option::Some(i) => i < streams.len() && spec_classify(streams[i as int].kind_code) == kind,
        Option::None => true,
    }
}

pub open spec fn spec_best_ok(h: FormatHandleView) -> bool {
    &&& best_entry_ok(h.best_video, h.streams, MediaKind::Video)
    &&& best_entry_ok(h.best_audio, h.streams, MediaKind::Audio)
    &&& best_entry_ok(h.best_subtitle, h.streams, MediaKind::Subtitle)
}

/// The container descriptor: the raw name list split on commas, first token
/// as the canonical name, the rest as aliases.
pub open spec fn spec_format(h: FormatHandleView) -> FormatView {
    FormatView {
        name: split_commas(h.raw_name)[0],
        aliases: split_commas(h.raw_name).skip(1),
        description: h.description,
        extensions: h.extensions,
        mime_types: h.mime_types,
    }
}

/// The whole projection. A defensive best-stream check comes first: an index
/// that does not name an enumerated stream of the matching kind is a
/// collaborator bug and fails the projection. Then every stream is projected,
/// the first per-stream failure failing the whole; on success the snapshot
/// carries the split format descriptor, the best indices verbatim, the
/// projected streams in container order, and the tags folded so that the last
/// occurrence of a duplicate key wins.
pub open spec fn spec_project(h: FormatHandleView) -> Result<MetadataView, ProjectError> {
    if !spec_best_ok(h) {
        Result::Err(ProjectError::InvariantViolation)
    } else {
        match spec_project_streams(h.streams) {
            Result::Err(e) => Result::Err(e),
            Result::Ok(ss) => Result::Ok(
                MetadataView {
                    format: spec_format(h),
                    best: Best {
                        audio: h.best_audio,
                        video: h.best_video,
                        subtitle: h.best_subtitle,
                    },
                    streams: ss,
                    details: spec_details(h.tags),
                },
            ),
        }
    }
}

/// The image of an exec projection result.
pub open spec fn view_stream_result(r: Result<Stream, ProjectError>) -> Result<
    StreamView,
    ProjectError,
> {
    match r {
        Result::Ok(s) => Result::Ok(s@),
        Result::Err(e) => Result::Err(e),
    }
}

/// The image of an exec snapshot result.
pub open spec fn view_metadata_result(r: Result<Metadata, ProjectError>) -> Result<
    MetadataView,
    ProjectError,
> {
    match r {
        Result::Ok(m) => Result::Ok(m@),
        Result::Err(e) => Result::Err(e),
    }
}

fn clone_codec(c: &Codec) -> (r: Codec)
    ensures
        r@ == c@,
{
    Codec { id: c.id, name: c.name.clone(), description: c.description.clone() }
}

fn clone_strings(v: &Vec<String>) -> (r: Vec<String>)
    ensures
        view_strings(r@) == view_strings(v@),
{
    let mut out: Vec<String> = Vec::new();
    let mut i: usize = 0;
    proof {
        assert(view_strings(out@) =~= view_strings(v@).take(0));
    }
    while i < v.len()
        invariant
            i <= v@.len(),
            view_strings(out@) == view_strings(v@).take(i as int),
        decreases v@.len() - i,
    {
        let ghost prev = out@;
        let x = v[i].clone();
        out.push(x);
        proof {
            crate::snapshot::lemma_view_strings_push(prev, x);
            assert(view_strings(v@)[i as int] == v@[i as int]@);
            assert(view_strings(out@) =~= view_strings(v@).take(i + 1));
        }
        i = i + 1;
    }
    proof {
        assert(view_strings(v@).take(v@.len() as int) =~= view_strings(v@));
    }
    out
}

fn project_stream(h: &StreamHandle) -> (r: Result<Stream, ProjectError>)
    ensures
        view_stream_result(r) == spec_project_stream(h@),
{
    let content: Content = match classify(h.kind_code) {
        MediaKind::Unknown => Content::Unknown(Unknown),
        MediaKind::Data => Content::Data(Data {  }),
        MediaKind::Attachment => Content::Attachment(Attachment {  }),
        MediaKind::Audio => match &h.decoder {
            DecoderInfo::Audio(p) => match &p.codec {
                Option::Some(c) => Content::Audio(
                    Audio {
                        codec: clone_codec(c),
                        bit_rate: p.bit_rate,
                        max_bit_rate: p.max_bit_rate,
                        delay: p.delay,
                        sample_rate: p.sample_rate,
                        channels: p.channels,
                        format: p.format,
                        frames: p.frames,
                        align: p.align,
                        channel_layout: p.channel_layout,
                        frame_start: p.frame_start,
                    },
                ),
                Option::None => {
                    return Result::Err(ProjectError::CodecResolution { stream_index: h.index });
                },
            },
            _ => {
                return Result::Err(ProjectError::CodecResolution { stream_index: h.index });
            },
        },
        MediaKind::Video => match &h.decoder {
            DecoderInfo::Video(p) => match &p.codec {
                Option::Some(c) => Content::Video(
                    Video {
                        codec: clone_codec(c),
                        bit_rate: p.bit_rate,
                        max_bit_rate: p.max_bit_rate,
                        delay: p.delay,
                        width: p.width,
                        height: p.height,
                        format: p.format,
                        has_b_frames: p.has_b_frames,
                        aspect_ratio: p.aspect_ratio,
                        color_space: p.color_space,
                        color_range: p.color_range,
                        color_primaries: p.color_primaries,
                        color_transfer_characteristic: p.color_transfer_characteristic,
                        chroma_location: p.chroma_location,
                        references: p.references,
                        intra_dc_precision: p.intra_dc_precision,
                    },
                ),
                Option::None => {
                    return Result::Err(ProjectError::CodecResolution { stream_index: h.index });
                },
            },
            _ => {
                return Result::Err(ProjectError::CodecResolution { stream_index: h.index });
            },
        },
        MediaKind::Subtitle => match &h.decoder {
            DecoderInfo::Subtitle(p) => match &p.codec {
                Option::Some(c) => Content::Subtitle(Subtitle { codec: clone_codec(c) }),
                Option::None => {
                    return Result::Err(ProjectError::CodecResolution { stream_index: h.index });
                },
            },
            _ => {
                return Result::Err(ProjectError::CodecResolution { stream_index: h.index });
            },
        },
    };
    let s = Stream {
        index: h.index,
        time_base: h.time_base,
        start_time: h.start_time,
        duration: h.duration,
        frames: h.frames,
        disposition: h.disposition,
        discard: h.discard,
        frame_rate: h.frame_rate,
        avg_frame_rate: h.avg_frame_rate,
        content,
    };
    proof {
        assert(view_stream_result(Result::Ok(s)) == spec_project_stream(h@)) by {
            let expected = spec_project_stream(h@);
            assert(expected matches Result::Ok(ev) && s@ =~~= ev);
        }
    }
    Result::Ok(s)
}

/// Every element of a successfully projected list is the projection of its
/// counterpart, index by index.
proof fn lemma_streams_ok_index(ss: Seq<StreamHandleView>, out: Seq<StreamView>)
    requires
        spec_project_streams(ss) == Result::<Seq<StreamView>, ProjectError>::Ok(out),
    ensures
        out.len() == ss.len(),
        forall|i: int|
            0 <= i < ss.len() ==> #[trigger] spec_project_stream(ss[i]) == Result::<
                StreamView,
                ProjectError,
            >::Ok(out[i]),
    decreases ss.len(),
{
    if ss.len() > 0 {
        let prev = spec_project_streams(ss.drop_last());
        let pout = prev->Ok_0;
        lemma_streams_ok_index(ss.drop_last(), pout);
        let s = spec_project_stream(ss.last())->Ok_0;
        assert(out == pout.push(s));
        assert forall|i: int| 0 <= i < ss.len() implies #[trigger] spec_project_stream(ss[i])
            == Result::<StreamView, ProjectError>::Ok(out[i]) by {
            if i < ss.len() - 1 {
                assert(ss.drop_last()[i] == ss[i]);
                assert(spec_project_stream(ss.drop_last()[i]) == Result::<
                    StreamView,
                    ProjectError,
                >::Ok(pout[i]));
                assert(out[i] == pout[i]);
            } else {
                assert(ss[i] == ss.last());
                assert(out[i] == s);
            }
        }
    }
}

/// A failing stream, preceded only by successes, fails the whole list with
/// its own error.
proof fn lemma_streams_err(ss: Seq<StreamHandleView>, i: int, e: ProjectError)
    requires
        0 <= i < ss.len(),
        spec_project_streams(ss.take(i)) is Ok,
        spec_project_stream(ss[i]) == Result::<StreamView, ProjectError>::Err(e),
    ensures
        spec_project_streams(ss) == Result::<Seq<StreamView>, ProjectError>::Err(e),
    decreases ss.len(),
{
    if ss.len() == i + 1 {
        assert(ss.drop_last() =~~= ss.take(i));
        assert(ss.last() == ss[i]);
    } else {
        assert(ss.drop_last().take(i) =~~= ss.take(i));
        lemma_streams_err(ss.drop_last(), i, e);
    }
}

impl Metadata {
    /// Projects an opened container's metadata into an owned snapshot.
    /// The result is exactly `spec_project` of the handle's image: either the
    /// complete snapshot, or the first error, never a partial value.
    pub fn new(handle: &FormatHandle) -> (r: Result<Metadata, ProjectError>)
        ensures
            view_metadata_result(r) == spec_project(handle@),
    {
        let ghost hv = handle@;
        // Defensive check of the collaborator's best-stream indices.
        match handle.best_video {
            Option::Some(i) => {
                if i >= handle.streams.len() {
                    return Result::Err(ProjectError::InvariantViolation);
                }
                match classify(handle.streams[i].kind_code) {
                    MediaKind::Video => {},
                    _ => {
                        return Result::Err(ProjectError::InvariantViolation);
                    },
                }
            },
            Option::None => {},
        }
        match handle.best_audio {
            Option::Some(i) => {
                if i >= handle.streams.len() {
                    return Result::Err(ProjectError::InvariantViolation);
                }
                match classify(handle.streams[i].kind_code) {
                    MediaKind::Audio => {},
                    _ => {
                        return Result::Err(ProjectError::InvariantViolation);
                    },
                }
            },
            Option::None => {},
        }
        match handle.best_subtitle {
            Option::Some(i) => {
                if i >= handle.streams.len() {
                    return Result::Err(ProjectError::InvariantViolation);
                }
                match classify(handle.streams[i].kind_code) {
                    MediaKind::Subtitle => {},
                    _ => {
                        return Result::Err(ProjectError::InvariantViolation);
                    },
                }
            },
            Option::None => {},
        }
        proof {
            assert(spec_best_ok(hv));
        }
        // Project every stream in container order; the first failure aborts.
        let mut streams: Vec<Stream> = Vec::new();
        let mut i: usize = 0;
        proof {
            assert(hv.streams.take(0) =~= Seq::<StreamHandleView>::empty());
            assert(view_streams(streams@) =~= Seq::<StreamView>::empty());
        }
        while i < handle.streams.len()
            invariant
                i <= handle.streams@.len(),
                hv == handle@,
                hv.streams.len() == handle.streams@.len(),
                spec_best_ok(hv),
                spec_project_streams(hv.streams.take(i as int)) == Result::<
                    Seq<StreamView>,
                    ProjectError,
                >::Ok(view_streams(streams@)),
            decreases handle.streams@.len() - i,
        {
            let ghost prefix = hv.streams.take(i as int);
            proof {
                assert(hv.streams[i as int] == handle.streams@[i as int]@);
            }
            match project_stream(&handle.streams[i]) {
                Result::Ok(s) => {
                    let ghost prev = streams@;
                    streams.push(s);
                    proof {
                        assert(spec_project_stream(hv.streams[i as int]) == Result::<
                            StreamView,
                            ProjectError,
                        >::Ok(s@));
                        assert(hv.streams.take(i + 1).drop_last() =~~= prefix);
                        assert(hv.streams.take(i + 1).last() == hv.streams[i as int]);
                        crate::snapshot::lemma_view_streams_push(prev, s);
                        assert(spec_project_streams(hv.streams.take(i + 1)) == Result::<
                            Seq<StreamView>,
                            ProjectError,
                        >::Ok(view_streams(streams@)));
                    }
                },
                Result::Err(e) => {
                    proof {
                        assert(spec_project_stream(hv.streams[i as int]) == Result::<
                            StreamView,
                            ProjectError,
                        >::Err(e));
                        lemma_streams_err(hv.streams, i as int, e);
                    }
                    return Result::Err(e);
                },
            }
            i = i + 1;
        }
        proof {
            assert(hv.streams.take(hv.streams.len() as int) =~~= hv.streams);
        }
        // Container descriptor: split the raw name list.
        let parts = split_list(handle.raw_name.as_str());
        let name = parts[0].clone();
        let mut aliases: Vec<String> = Vec::new();
        let mut j: usize = 1;
        proof {
            assert(view_strings(aliases@) =~= view_strings(parts@).subrange(1, 1));
        }
        while j < parts.len()
            invariant
                1 <= j <= parts@.len(),
                view_strings(aliases@) == view_strings(parts@).subrange(1, j as int),
            decreases parts@.len() - j,
        {
            let ghost prev = aliases@;
            let x = parts[j].clone();
            aliases.push(x);
            proof {
                crate::snapshot::lemma_view_strings_push(prev, x);
                assert(view_strings(parts@)[j as int] == parts@[j as int]@);
                assert(view_strings(aliases@) =~= view_strings(parts@).subrange(1, j + 1));
            }
            j = j + 1;
        }
        let format = Format {
            name,
            aliases,
            description: handle.description.clone(),
            extensions: clone_strings(&handle.extensions),
            mime_types: clone_strings(&handle.mime_types),
        };
        let best = Best {
            audio: handle.best_audio,
            video: handle.best_video,
            subtitle: handle.best_subtitle,
        };
        let details = build_details(&handle.tags);
        let m = Metadata { format, best, streams, details };
        proof {
            assert(view_strings(parts@).subrange(1, parts@.len() as int) =~~= view_strings(
                parts@,
            ).skip(1));
            assert(m@.format =~~= spec_format(hv));
            let expected = spec_project(hv);
            assert(expected matches Result::Ok(ev) && m@ =~~= ev);
        }
        Result::Ok(m)
    }
}

/// On success the snapshot has one stream per handle stream in the same
/// order, each keeping the handle's reported index verbatim; and every
/// best-stream entry names an existing stream whose content variant matches
/// its kind.
pub proof fn lemma_projection_invariants(h: FormatHandleView, m: MetadataView)
    requires
        spec_project(h) == Result::<MetadataView, ProjectError>::Ok(m),
    ensures
        m.streams.len() == h.streams.len(),
        forall|i: int| 0 <= i < h.streams.len() ==> m.streams[i].index == h.streams[i].index,
        m.best.video matches Option::Some(i) ==> i < m.streams.len() && m.streams[i as int].content
            is Video,
        m.best.audio matches Option::Some(i) ==> i < m.streams.len() && m.streams[i as int].content
            is Audio,
        m.best.subtitle matches Option::Some(i) ==> i < m.streams.len() && m.streams[
            i as int
        ].content is Subtitle,
{
    lemma_streams_ok_index(h.streams, m.streams);
    assert forall|i: int| 0 <= i < h.streams.len() implies m.streams[i].index == h.streams[
        i
    ].index by {
        assert(spec_project_stream(h.streams[i]) == Result::<StreamView, ProjectError>::Ok(
            m.streams[i],
        ));
    }
    match m.best.video {
        Option::Some(bi) => {
            assert(spec_classify(h.streams[bi as int].kind_code) == MediaKind::Video);
            assert(spec_project_stream(h.streams[bi as int]) == Result::<
                StreamView,
                ProjectError,
            >::Ok(m.streams[bi as int]));
        },
        Option::None => {},
    }
    match m.best.audio {
        Option::Some(bi) => {
            assert(spec_classify(h.streams[bi as int].kind_code) == MediaKind::Audio);
            assert(spec_project_stream(h.streams[bi as int]) == Result::<
                StreamView,
                ProjectError,
            >::Ok(m.streams[bi as int]));
        },
        Option::None => {},
    }
    match m.best.subtitle {
        Option::Some(bi) => {
            assert(spec_classify(h.streams[bi as int].kind_code) == MediaKind::Subtitle);
            assert(spec_project_stream(h.streams[bi as int]) == Result::<
                StreamView,
                ProjectError,
            >::Ok(m.streams[bi as int]));
        },
        Option::None => {},
    }
}

/// A stream whose reported kind code is unrecognized projects to the unknown
/// content variant and never fails.
pub proof fn lemma_unrecognized_kind_is_unknown(h: StreamHandleView)
    requires
        h.kind_code != 0,
        h.kind_code != 1,
        h.kind_code != 2,
        h.kind_code != 3,
        h.kind_code != 4,
    ensures
        spec_project_stream(h) matches Result::Ok(s) && s.content is Unknown,
{
}

/// One failing stream fails the whole projection: no partial snapshot exists.
pub proof fn lemma_all_or_nothing(h: FormatHandleView, i: int)
    requires
        0 <= i < h.streams.len(),
        spec_project_stream(h.streams[i]) is Err,
    ensures
        spec_project(h) is Err,
{
    if spec_best_ok(h) {
        if spec_project_streams(h.streams) is Ok {
            lemma_streams_ok_index(h.streams, spec_project_streams(h.streams)->Ok_0);
        }
    }
}

/// When the best-stream indices are sound and every stream resolves, the
/// projection is owed a snapshot: success is not optional.
pub proof fn lemma_projection_total(h: FormatHandleView)
    requires
        spec_best_ok(h),
        forall|i: int| 0 <= i < h.streams.len() ==> #[trigger] spec_project_stream(h.streams[i])
            is Ok,
    ensures
        spec_project(h) is Ok,
{
    lemma_streams_all_ok(h.streams);
}

proof fn lemma_streams_all_ok(ss: Seq<StreamHandleView>)
    requires
        forall|i: int| 0 <= i < ss.len() ==> #[trigger] spec_project_stream(ss[i]) is Ok,
    ensures
        spec_project_streams(ss) is Ok,
    decreases ss.len(),
{
    if ss.len() > 0 {
        assert(forall|i: int|
            0 <= i < ss.drop_last().len() ==> #[trigger] spec_project_stream(ss.drop_last()[i])
                is Ok);
        lemma_streams_all_ok(ss.drop_last());
        assert(spec_project_stream(ss.last()) is Ok);
    }
}

} // verus!
