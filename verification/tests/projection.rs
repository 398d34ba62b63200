use mediameta::handle::{
    AudioParams, DecoderInfo, FormatHandle, StreamHandle, SubtitleParams, VideoParams,
};
use mediameta::snapshot::{
    Best, Codec, Content, Discard, MediaKind, Metadata, ProjectError, Rational, SampleFormat,
};
use mediameta::project::classify;

fn codec(id: u32, name: &str) -> Codec {
    Codec { id, name: name.to_string(), description: format!("{} codec", name) }
}

fn base_stream(index: usize, kind_code: i32, decoder: DecoderInfo) -> StreamHandle {
    StreamHandle {
        index,
        time_base: Rational { num: 1, den: 1000 },
        start_time: Some(0),
        duration: Some(60_000),
        frames: 1500,
        disposition: 1,
        discard: Discard::Standard,
        frame_rate: Rational { num: 30, den: 1 },
        avg_frame_rate: Rational { num: 2997, den: 100 },
        kind_code,
        decoder,
    }
}

fn audio_params(c: Option<Codec>) -> AudioParams {
    AudioParams {
        codec: c,
        bit_rate: 128_000,
        max_bit_rate: 160_000,
        delay: 0,
        sample_rate: 48_000,
        channels: 2,
        format: SampleFormat::FltPlanar,
        frames: 0,
        align: 4,
        channel_layout: 3,
        frame_start: Some(1024),
    }
}

fn video_params(c: Option<Codec>) -> VideoParams {
    VideoParams {
        codec: c,
        bit_rate: 2_000_000,
        max_bit_rate: 2_500_000,
        delay: 2,
        width: 1920,
        height: 1080,
        format: 0,
        has_b_frames: true,
        aspect_ratio: Rational { num: 16, den: 9 },
        color_space: 1,
        color_range: 2,
        color_primaries: 1,
        color_transfer_characteristic: 1,
        chroma_location: 1,
        references: 4,
        intra_dc_precision: 8,
    }
}

fn sample_handle() -> FormatHandle {
    FormatHandle {
        raw_name: "mp4,mov,m4a".to_string(),
        description: "QuickTime / MOV".to_string(),
        extensions: vec!["mp4".to_string(), "mov".to_string()],
        mime_types: vec!["video/mp4".to_string()],
        best_video: Some(0),
        best_audio: Some(1),
        best_subtitle: None,
        streams: vec![
            base_stream(0, 0, DecoderInfo::Video(video_params(Some(codec(27, "h264"))))),
            base_stream(1, 1, DecoderInfo::Audio(audio_params(Some(codec(86018, "aac"))))),
        ],
        tags: vec![
            ("title".to_string(), "A".to_string()),
            ("artist".to_string(), "someone".to_string()),
            ("title".to_string(), "B".to_string()),
        ],
    }
}

#[test]
fn projects_every_stream_in_order() {
    let m = Metadata::new(&sample_handle()).unwrap();
    assert_eq!(m.streams.len(), 2);
    for (i, s) in m.streams.iter().enumerate() {
        assert_eq!(s.index, i);
    }
}

#[test]
fn generic_fields_copied_verbatim() {
    let m = Metadata::new(&sample_handle()).unwrap();
    let s = &m.streams[1];
    assert_eq!(s.time_base, Rational { num: 1, den: 1000 });
    assert_eq!(s.start_time, Some(0));
    assert_eq!(s.duration, Some(60_000));
    assert_eq!(s.frames, 1500);
    assert_eq!(s.disposition, 1);
    assert_eq!(s.discard, Discard::Standard);
    assert_eq!(s.frame_rate, Rational { num: 30, den: 1 });
    assert_eq!(s.avg_frame_rate, Rational { num: 2997, den: 100 });
}

#[test]
fn best_indices_match_content_kind() {
    let m = Metadata::new(&sample_handle()).unwrap();
    assert_eq!(m.best, Best { audio: Some(1), video: Some(0), subtitle: None });
    assert!(matches!(m.streams[0].content, Content::Video(_)));
    assert!(matches!(m.streams[1].content, Content::Audio(_)));
}

#[test]
fn format_name_splits_on_commas() {
    let m = Metadata::new(&sample_handle()).unwrap();
    assert_eq!(m.format.name, "mp4");
    assert_eq!(m.format.aliases, vec!["mov".to_string(), "m4a".to_string()]);
    assert_eq!(m.format.description, "QuickTime / MOV");
    assert_eq!(m.format.extensions, vec!["mp4".to_string(), "mov".to_string()]);
    assert_eq!(m.format.mime_types, vec!["video/mp4".to_string()]);
}

#[test]
fn format_name_without_commas_is_single_token() {
    let mut h = sample_handle();
    h.raw_name = "matroska".to_string();
    let m = Metadata::new(&h).unwrap();
    assert_eq!(m.format.name, "matroska");
    assert!(m.format.aliases.is_empty());
}

#[test]
fn audio_fields_copied() {
    let m = Metadata::new(&sample_handle()).unwrap();
    match &m.streams[1].content {
        Content::Audio(a) => {
            assert_eq!(a.codec.id, 86018);
            assert_eq!(a.codec.name, "aac");
            assert_eq!(a.bit_rate, 128_000);
            assert_eq!(a.max_bit_rate, 160_000);
            assert_eq!(a.sample_rate, 48_000);
            assert_eq!(a.channels, 2);
            assert_eq!(a.format, SampleFormat::FltPlanar);
            assert_eq!(a.align, 4);
            assert_eq!(a.channel_layout, 3);
            assert_eq!(a.frame_start, Some(1024));
        },
        other => panic!("expected audio content, got {:?}", other),
    }
}

#[test]
fn video_fields_copied() {
    let m = Metadata::new(&sample_handle()).unwrap();
    match &m.streams[0].content {
        Content::Video(v) => {
            assert_eq!(v.codec.name, "h264");
            assert_eq!(v.width, 1920);
            assert_eq!(v.height, 1080);
            assert!(v.has_b_frames);
            assert_eq!(v.aspect_ratio, Rational { num: 16, den: 9 });
            assert_eq!(v.references, 4);
            assert_eq!(v.intra_dc_precision, 8);
        },
        other => panic!("expected video content, got {:?}", other),
    }
}

#[test]
fn unrecognized_kind_maps_to_unknown_without_failing() {
    let mut h = sample_handle();
    h.streams.push(base_stream(2, 99, DecoderInfo::Missing));
    let m = Metadata::new(&h).unwrap();
    assert_eq!(m.streams.len(), 3);
    assert!(matches!(m.streams[2].content, Content::Unknown(_)));
}

#[test]
fn data_and_attachment_kinds_are_empty_markers() {
    let mut h = sample_handle();
    h.streams.push(base_stream(2, 2, DecoderInfo::Missing));
    h.streams.push(base_stream(3, 4, DecoderInfo::Missing));
    let m = Metadata::new(&h).unwrap();
    assert!(matches!(m.streams[2].content, Content::Data(_)));
    assert!(matches!(m.streams[3].content, Content::Attachment(_)));
}

#[test]
fn subtitle_carries_codec_only() {
    let mut h = sample_handle();
    h.streams.push(base_stream(
        2,
        3,
        DecoderInfo::Subtitle(SubtitleParams { codec: Some(codec(94208, "subrip")) }),
    ));
    let m = Metadata::new(&h).unwrap();
    match &m.streams[2].content {
        Content::Subtitle(s) => assert_eq!(s.codec.name, "subrip"),
        other => panic!("expected subtitle content, got {:?}", other),
    }
}

#[test]
fn unresolved_audio_codec_fails_whole_projection() {
    let mut h = sample_handle();
    h.streams[1].decoder = DecoderInfo::Audio(audio_params(None));
    let r = Metadata::new(&h);
    assert_eq!(r, Err(ProjectError::CodecResolution { stream_index: 1 }));
}

#[test]
fn missing_decoder_view_on_video_kind_fails() {
    let mut h = sample_handle();
    h.streams[0].decoder = DecoderInfo::Missing;
    let r = Metadata::new(&h);
    assert_eq!(r, Err(ProjectError::CodecResolution { stream_index: 0 }));
}

#[test]
fn best_index_out_of_range_is_invariant_violation() {
    let mut h = sample_handle();
    h.best_audio = Some(7);
    assert_eq!(Metadata::new(&h), Err(ProjectError::InvariantViolation));
}

#[test]
fn best_index_of_wrong_kind_is_invariant_violation() {
    let mut h = sample_handle();
    h.best_audio = Some(0);
    assert_eq!(Metadata::new(&h), Err(ProjectError::InvariantViolation));
}

#[test]
fn duplicate_tag_keys_keep_last_value() {
    let m = Metadata::new(&sample_handle()).unwrap();
    let title: Vec<&(String, String)> =
        m.details.iter().filter(|kv| kv.0 == "title").collect();
    assert_eq!(title.len(), 1);
    assert_eq!(title[0].1, "B");
    assert!(m.details.iter().any(|kv| kv.0 == "artist" && kv.1 == "someone"));
}

#[test]
fn classify_covers_known_codes() {
    assert_eq!(classify(0), MediaKind::Video);
    assert_eq!(classify(1), MediaKind::Audio);
    assert_eq!(classify(2), MediaKind::Data);
    assert_eq!(classify(3), MediaKind::Subtitle);
    assert_eq!(classify(4), MediaKind::Attachment);
    assert_eq!(classify(-1), MediaKind::Unknown);
    assert_eq!(classify(12345), MediaKind::Unknown);
}
