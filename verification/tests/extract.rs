use interlace::extract::natural_extension as n;
use interlace::model::{Encode, Input, Kind, Meta, OutStream, Project, Source};

fn stream(input: usize, index: usize, kind: Kind, codec: &str, lang: Option<&str>) -> OutStream {
    OutStream::new(
        Source { input, index, kind, codec: codec.into(), bitrate_kbps: None },
        Meta { language: lang.map(Into::into), ..Default::default() },
        Encode::Copy,
    )
}

fn project(streams: Vec<OutStream>) -> Project {
    Project {
        inputs: vec![Input::new("/media/movie.mkv".to_string())],
        streams,
        title: None,
        output: "/media/movie.remux.mkv".into(),
        duration_ms: Some(90_000),
    }
}

#[test]
fn extract_audio_picks_codec_extension_and_copies() {
    let p = project(vec![
        stream(0, 0, Kind::Video, "hevc", None),
        stream(0, 1, Kind::Audio, "ac3", Some("eng")),
    ]);
    let x = p.extract(1).unwrap();

    assert_eq!(x.streams.len(), 1);
    assert!(matches!(x.streams[0].encode, Encode::Copy));
    assert!(x.output.ends_with("movie.eng.ac3"));

    let joined = x.to_args().join(" ");
    assert!(joined.contains("-map 0:1"), "{joined}");
    assert!(!joined.contains("-disposition"), "{joined}");
}

#[test]
fn extract_subtitle_maps_to_srt() {
    let p = project(vec![stream(0, 3, Kind::Subtitle, "subrip", Some("spa"))]);
    let x = p.extract(0).unwrap();
    assert!(x.output.ends_with("movie.spa.srt"));
}

#[test]
fn extract_untagged_stream_uses_track_label() {
    let p = project(vec![stream(0, 2, Kind::Audio, "flac", None)]);
    let x = p.extract(0).unwrap();
    assert!(x.output.ends_with("movie.track0.flac"));
}

#[test]
fn extract_attachment_is_unsupported() {
    let p = project(vec![stream(0, 4, Kind::Attachment, "ttf", None)]);
    assert!(p.extract(0).is_none());
}

#[test]
fn extract_resets_offset() {
    let mut p = project(vec![stream(1, 0, Kind::Audio, "flac", Some("eng"))]);
    p.inputs.push(Input { path: "/media/extra.flac".into(), offset_ms: -200 });
    let x = p.extract(0).unwrap();
    assert_eq!(x.inputs[0].offset_ms, 0);
    assert!(!x.to_args().join(" ").contains("-itsoffset"));
}

#[test]
fn unknown_codec_falls_back_to_matroska_and_keeps_tags() {
    let p = project(vec![stream(0, 1, Kind::Audio, "cook", Some("rus"))]);
    let x = p.extract(0).unwrap();
    assert!(x.output.ends_with("movie.rus.mka"));
    assert!(x.to_args().join(" ").contains("-disposition"));
}

// --- further cases --------------------------------------------------------

#[test]
fn extract_full_output_path_and_project() {
    let p = project(vec![
        stream(0, 0, Kind::Video, "h264", None),
        stream(0, 5, Kind::Audio, "pcm_s16le", Some("")),
    ]);
    let x = p.extract(1).unwrap();
    assert_eq!(x.output, "/media/movie.track1.wav");
    assert_eq!(x.inputs.len(), 1);
    assert_eq!(x.inputs[0].path, "/media/movie.mkv");
    assert_eq!(x.streams[0].source.input, 0);
    assert_eq!(x.streams[0].source.index, 5);
    assert_eq!(x.duration_ms, Some(90_000));
    assert_eq!(x.to_args(), ["-i", "/media/movie.mkv", "-map", "0:5", "-c:a:0", "copy", "/media/movie.track1.wav"]);
}

#[test]
fn extract_out_of_range_and_missing_input() {
    let p = project(vec![stream(3, 0, Kind::Audio, "aac", None)]);
    assert!(p.extract(1).is_none());
    assert!(p.extract(0).is_none());
    let d = project(vec![stream(0, 0, Kind::Data, "bin_data", None)]);
    assert!(d.extract(0).is_none());
}

#[test]
fn natural_extensions() {
    assert_eq!(n(Kind::Audio, "vorbis"), "ogg");
    assert_eq!(n(Kind::Audio, "truehd"), "thd");
    assert_eq!(n(Kind::Audio, "alac"), "m4a");
    assert_eq!(n(Kind::Audio, "pcm_s24le"), "wav");
    assert_eq!(n(Kind::Video, "mpeg2video"), "m2v");
    assert_eq!(n(Kind::Video, "av1"), "mkv");
    assert_eq!(n(Kind::Subtitle, "ssa"), "ass");
    assert_eq!(n(Kind::Subtitle, "webvtt"), "vtt");
    assert_eq!(n(Kind::Subtitle, "hdmv_pgs_subtitle"), "sup");
    assert_eq!(n(Kind::Subtitle, "dvd_subtitle"), "mks");
    assert_eq!(n(Kind::Attachment, "ttf"), "bin");
}

#[test]
fn extract_paths_without_directory_or_stem() {
    let mut p = project(vec![stream(0, 1, Kind::Audio, "aac", Some("eng"))]);
    p.inputs[0].path = "movie.mkv".into();
    assert_eq!(p.extract(0).unwrap().output, "movie.eng.aac");
    p.inputs[0].path = "C:\\Media\\Film.mkv".into();
    assert_eq!(p.extract(0).unwrap().output, "C:\\Media\\Film.eng.aac");
    p.inputs[0].path = "/media/".into();
    assert_eq!(p.extract(0).unwrap().output, "/media.eng.aac");
    p.inputs[0].path = "/".into();
    assert_eq!(p.extract(0).unwrap().output, "./output.eng.aac");
    p.inputs[0].path = "/media/..".into();
    assert_eq!(p.extract(0).unwrap().output, "/media/output.eng.aac");
    p.inputs[0].path = "/media/.hidden".into();
    assert_eq!(p.extract(0).unwrap().output, "/media/.hidden.eng.aac");
}

/// A trailing separator on the input still names the file it follows.
#[test]
fn extract_path_after_trailing_separator() {
    let mut p = project(vec![stream(0, 1, Kind::Audio, "ac3", Some("eng"))]);
    p.inputs[0].path = "/media/movie.mkv/".into();
    assert_eq!(p.extract(0).unwrap().output, "/media/movie.eng.ac3");
}
