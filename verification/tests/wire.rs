use mediameta::snapshot::{Format, Metadata};
use mediameta::wire::{decode_descriptor, decode_details, encode_descriptor, encode_details};
use mediameta::handle::FormatHandle;

fn descriptor() -> Format {
    Format {
        name: "mp4".to_string(),
        aliases: vec!["mov".to_string(), "m4a".to_string()],
        description: "QuickTime / MOV".to_string(),
        extensions: vec!["mp4".to_string()],
        mime_types: vec!["video/mp4".to_string(), "audio/mp4".to_string()],
    }
}

#[test]
fn descriptor_round_trip() {
    let f = descriptor();
    let bytes = encode_descriptor(&f);
    let back = decode_descriptor(&bytes).unwrap();
    assert_eq!(back, f);
}

#[test]
fn descriptor_round_trip_empty_lists() {
    let f = Format {
        name: String::new(),
        aliases: Vec::new(),
        description: String::new(),
        extensions: Vec::new(),
        mime_types: Vec::new(),
    };
    let bytes = encode_descriptor(&f);
    let back = decode_descriptor(&bytes).unwrap();
    assert_eq!(back, f);
}

#[test]
fn descriptor_round_trip_non_ascii() {
    let mut f = descriptor();
    f.description = "контейнер — média 映画".to_string();
    let bytes = encode_descriptor(&f);
    let back = decode_descriptor(&bytes).unwrap();
    assert_eq!(back, f);
}

#[test]
fn descriptor_rejects_trailing_garbage() {
    let f = descriptor();
    let mut bytes = encode_descriptor(&f);
    bytes.push(0);
    assert!(decode_descriptor(&bytes).is_none());
}

#[test]
fn descriptor_rejects_truncation() {
    let f = descriptor();
    let mut bytes = encode_descriptor(&f);
    bytes.pop();
    assert!(decode_descriptor(&bytes).is_none());
}

#[test]
fn details_round_trip() {
    let d = vec![
        ("title".to_string(), "B".to_string()),
        ("artist".to_string(), "someone".to_string()),
        ("".to_string(), "empty key".to_string()),
    ];
    let bytes = encode_details(&d);
    let back = decode_details(&bytes).unwrap();
    assert_eq!(back, d);
}

#[test]
fn details_round_trip_through_projection() {
    let h = FormatHandle {
        raw_name: "flac".to_string(),
        description: "raw FLAC".to_string(),
        extensions: vec!["flac".to_string()],
        mime_types: vec!["audio/x-flac".to_string()],
        best_video: None,
        best_audio: None,
        best_subtitle: None,
        streams: Vec::new(),
        tags: vec![
            ("title".to_string(), "A".to_string()),
            ("title".to_string(), "B".to_string()),
        ],
    };
    let m = Metadata::new(&h).unwrap();
    let bytes = encode_details(&m.details);
    assert_eq!(decode_details(&bytes).unwrap(), m.details);
    let fbytes = encode_descriptor(&m.format);
    assert_eq!(decode_descriptor(&fbytes).unwrap(), m.format);
}

#[test]
fn decode_rejects_arbitrary_bytes() {
    let junk = vec![255u8; 5];
    assert!(decode_descriptor(&junk).is_none());
    assert!(decode_details(&junk).is_none());
}
