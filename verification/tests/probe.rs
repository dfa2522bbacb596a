use interlace::model::{Encode, Kind, Meta, OutStream, Project, Source};
use interlace::probe::{map_probe_streams, parse_u64, ProbeDisposition, ProbeStream, ProbeTags};

fn raw(index: usize, codec_type: &str, codec_name: &str) -> ProbeStream {
    ProbeStream {
        index,
        codec_type: codec_type.into(),
        codec_name: codec_name.into(),
        bit_rate: None,
        tags: ProbeTags::default(),
        disposition: ProbeDisposition::default(),
    }
}

#[test]
fn map_probe_streams_stamps_input_and_keeps_probed() {
    let raws = vec![raw(0, "video", "h264"), raw(1, "audio", "aac"), raw(2, "banana", "n/a")];
    let streams = map_probe_streams(&raws, 3);

    assert_eq!(streams.len(), 2);
    assert!(streams.iter().all(|s| s.source.input == 3));
    assert!(streams.iter().all(|s| !s.added));
    assert_eq!(streams[1].source.index, 1);
    assert_eq!(streams[1].source.kind, Kind::Audio);
}

#[test]
fn map_probe_streams_parses_source_bitrate_to_kbps() {
    let mut audio = raw(0, "audio", "aac");
    audio.bit_rate = Some("137599".into());
    let no_rate = raw(1, "audio", "flac");

    let streams = map_probe_streams(&vec![audio, no_rate], 0);
    assert_eq!(streams[0].source.bitrate_kbps, Some(138));
    assert_eq!(streams[1].source.bitrate_kbps, None);
}

// --- further cases --------------------------------------------------------

#[test]
fn parse_u64_accepts_what_str_parse_accepts() {
    for s in ["0", "+7", "128000", "18446744073709551615", "", "+", "-1", " 1", "1 ", "1.5", "N/A", "18446744073709551616", "007"] {
        assert_eq!(parse_u64(s), s.parse::<u64>().ok(), "{s:?}");
    }
}

#[test]
fn tags_and_flags_come_from_the_probe() {
    let mut r = raw(4, "subtitle", "subrip");
    r.tags = ProbeTags { language: Some("eng".into()), title: Some("SDH".into()) };
    r.disposition = ProbeDisposition { default: 0, forced: 1 };
    r.bit_rate = Some("499".into());
    let s = &map_probe_streams(&vec![r], 0)[0];
    assert_eq!(s.meta.language.as_deref(), Some("eng"));
    assert_eq!(s.meta.title.as_deref(), Some("SDH"));
    assert!(!s.meta.default);
    assert!(s.meta.forced);
    assert_eq!(s.source.bitrate_kbps, Some(0));
    assert!(!s.tags_changed() && !s.flags_changed() && !s.converted());
}

#[test]
fn project_from_probe_defaults() {
    let p = Project::from_probe(
        "/media/movie.mkv",
        &vec![raw(0, "video", "h264"), raw(1, "data", "bin_data")],
        Some("My Film".into()),
        Some(1_234_567),
    );
    assert_eq!(p.inputs.len(), 1);
    assert_eq!(p.inputs[0].path, "/media/movie.mkv");
    assert_eq!(p.inputs[0].offset_ms, 0);
    assert_eq!(p.output, "/media/movie.remux.mkv");
    assert_eq!(p.title.as_deref(), Some("My Film"));
    assert_eq!(p.duration_ms, Some(1_234_567));
    assert_eq!(p.streams.len(), 2);
    assert_eq!(interlace::probe::default_output_path("clip"), "clip.remux.mkv");
    assert_eq!(interlace::probe::default_output_path("/"), "./output.remux.mkv");
}

fn base() -> Project {
    Project::from_probe("/m/movie.mkv", &vec![raw(0, "video", "h264"), raw(1, "audio", "aac")], None, None)
}

#[test]
fn embed_single_track_appends_input_and_added_stream() {
    let mut p = base();
    let at = p.embed_probed("/m/commentary.flac", &vec![raw(0, "video", "mjpeg"), raw(1, "audio", "flac")]);
    assert_eq!(at, Ok(2));
    assert_eq!(p.inputs.len(), 2);
    assert_eq!(p.inputs[1].path, "/m/commentary.flac");
    let s = &p.streams[2];
    assert!(s.added);
    assert_eq!(s.source.input, 1);
    assert_eq!(s.source.index, 1);
    assert_eq!(s.source.codec, "flac");
    let args = p.to_args();
    assert!(args.join(" ").contains("-map 1:1"));
}

#[test]
fn embed_errors_leave_project_untouched() {
    let mut p = base();
    let none = p.embed_probed("x.mkv", &vec![raw(0, "video", "h264")]);
    assert_eq!(none, Err("x.mkv has no audio or subtitle track to embed.".to_string()));
    let many = p.embed_probed("y.mka", &vec![raw(0, "audio", "aac"), raw(1, "subtitle", "ass")]);
    assert_eq!(
        many,
        Err("y.mka has multiple tracks — embed a file with a single audio or subtitle track.".to_string())
    );
    assert_eq!(p.inputs.len(), 1);
    assert_eq!(p.streams.len(), 2);
}

#[test]
fn new_stream_has_no_changes() {
    let s = OutStream::new(
        Source { input: 0, index: 0, kind: Kind::Audio, codec: "aac".into(), bitrate_kbps: None },
        Meta { language: Some("eng".into()), title: None, default: true, forced: false },
        Encode::Copy,
    );
    assert!(!s.removed && !s.added);
    assert_eq!(s.orig_meta.language.as_deref(), Some("eng"));
    assert!(s.orig_meta.default);
}
