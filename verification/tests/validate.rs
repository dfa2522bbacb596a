use interlace::model::{Encode, Input, Kind, Meta, OutStream, Project, Source};
use interlace::validate::{container_for_extension, validate, validate_for, Container, Severity};

fn stream(kind: Kind, codec: &str, encode: Encode) -> OutStream {
    OutStream::new(
        Source { input: 0, index: 0, kind, codec: codec.into(), bitrate_kbps: None },
        Meta::default(),
        encode,
    )
}

fn project(output: &str, streams: Vec<OutStream>) -> Project {
    Project {
        inputs: vec![Input::new("in.mkv".to_string())],
        streams,
        title: None,
        output: output.into(),
        duration_ms: None,
    }
}

#[test]
fn ass_subtitle_in_mp4_is_an_error_with_suggestion() {
    let p = project("out.mp4", vec![
        stream(Kind::Video, "h264", Encode::Copy),
        stream(Kind::Subtitle, "ass", Encode::Copy),
    ]);
    let issues = validate(&p);
    assert_eq!(issues.len(), 1);
    assert_eq!(issues[0].severity, Severity::Error);
    assert_eq!(issues[0].stream, Some(1));
    assert!(issues[0].suggestion.as_ref().unwrap().contains("mov_text"));
}

#[test]
fn attachment_in_mp4_is_an_error() {
    let p = project("out.mp4", vec![stream(Kind::Attachment, "ttf", Encode::Copy)]);
    let issues = validate(&p);
    assert_eq!(issues.len(), 1);
    assert_eq!(issues[0].severity, Severity::Error);
}

#[test]
fn aac_audio_in_webm_is_an_error_but_opus_conversion_is_clean() {
    let bad = project("out.webm", vec![
        stream(Kind::Video, "vp9", Encode::Copy),
        stream(Kind::Audio, "aac", Encode::Copy),
    ]);
    assert_eq!(validate(&bad).len(), 1);

    let good = project("out.webm", vec![
        stream(Kind::Video, "vp9", Encode::Copy),
        stream(
            Kind::Audio,
            "aac",
            Encode::Audio { codec: "opus".into(), bitrate_kbps: Some(192), channels: None },
        ),
    ]);
    assert!(validate(&good).is_empty());
}

#[test]
fn matroska_accepts_everything() {
    let p = project("out.mkv", vec![
        stream(Kind::Video, "h264", Encode::Copy),
        stream(Kind::Audio, "flac", Encode::Copy),
        stream(Kind::Subtitle, "ass", Encode::Copy),
        stream(Kind::Attachment, "ttf", Encode::Copy),
    ]);
    assert!(validate(&p).is_empty());
}

#[test]
fn unknown_container_is_not_second_guessed() {
    let p = project("out.avi", vec![stream(Kind::Subtitle, "ass", Encode::Copy)]);
    assert!(validate(&p).is_empty());
}

#[test]
fn empty_project_reports_one_error() {
    let p = project("out.mkv", vec![]);
    let issues = validate(&p);
    assert_eq!(issues.len(), 1);
    assert_eq!(issues[0].severity, Severity::Error);
}

// --- further cases --------------------------------------------------------

#[test]
fn exact_messages_and_errors_before_warnings() {
    let p = project("Out.MP4", vec![
        stream(Kind::Audio, "pcm_s16le", Encode::Copy),
        stream(Kind::Subtitle, "subrip", Encode::Copy),
        stream(Kind::Subtitle, "mov_text", Encode::Copy),
        stream(Kind::Attachment, "ttf", Encode::Copy),
    ]);
    let issues = validate(&p);
    assert_eq!(issues.len(), 3);
    assert_eq!(issues[0].severity, Severity::Error);
    assert_eq!(issues[0].stream, Some(1));
    assert_eq!(issues[0].message, "MP4 can't carry a `subrip` subtitle.");
    assert_eq!(
        issues[0].suggestion.as_deref(),
        Some("MP4 only supports mov_text (tx3g) subtitles — use an .mkv output, or remove this stream.")
    );
    assert_eq!(issues[1].stream, Some(3));
    assert_eq!(issues[1].message, "MP4 can't store font/attachment streams.");
    assert_eq!(issues[2].severity, Severity::Warning);
    assert_eq!(issues[2].stream, Some(0));
    assert_eq!(issues[2].message, "PCM audio (`pcm_s16le`) is poorly supported in MP4.");
    assert_eq!(issues[2].suggestion.as_deref(), Some("Convert this audio to aac, or use an .mkv output."));
}

#[test]
fn webm_messages() {
    let p = project("out.webm", vec![
        stream(Kind::Video, "h264", Encode::Copy),
        stream(Kind::Subtitle, "webvtt", Encode::Copy),
        stream(Kind::Data, "bin_data", Encode::Copy),
    ]);
    let issues = validate(&p);
    assert_eq!(issues.len(), 2);
    assert_eq!(issues[0].message, "WebM can't carry a `h264` video stream.");
    assert_eq!(issues[0].suggestion.as_deref(), Some("WebM only allows VP8, VP9, or AV1 video. Use an .mkv output instead."));
    assert_eq!(issues[1].stream, Some(2));
    assert_eq!(issues[1].message, "WebM can't carry a `bin_data` attachment/data stream.");
}

#[test]
fn empty_project_message() {
    let issues = validate(&project("out.avi", vec![]));
    assert_eq!(issues[0].stream, None);
    assert_eq!(issues[0].message, "No streams selected — the output would be empty.");
    assert_eq!(issues[0].suggestion.as_deref(), Some("Load a file, or keep at least one stream."));
}

#[test]
fn container_from_mixed_case_extension() {
    // The extension is lowercased before lookup, so `.WebM` is WebM.
    let p = project("x/OUT.WebM", vec![stream(Kind::Audio, "aac", Encode::Copy)]);
    assert_eq!(validate(&p).len(), 1);
    assert_eq!(container_for_extension("mka"), Container::Matroska);
    assert_eq!(container_for_extension("mov"), Container::Mp4);
    assert_eq!(container_for_extension("MOV"), Container::Other);
}

/// The rules of a container apply to streams directly, errors first.
#[test]
fn validate_for_applies_container_rules() {
    let streams = vec![
        stream(Kind::Audio, "pcm_s16le", Encode::Copy),
        stream(Kind::Subtitle, "ass", Encode::Copy),
    ];
    let issues = validate_for(Container::Mp4, &streams);
    assert_eq!(issues.len(), 2);
    assert_eq!(issues[0].severity, Severity::Error);
    assert_eq!(issues[0].stream, Some(1));
    assert_eq!(issues[1].severity, Severity::Warning);
    assert!(validate_for(Container::Matroska, &streams).is_empty());
    assert!(validate_for(Container::Other, &streams).is_empty());
}
