use interlace::args::fmt_offset;
use interlace::model::{Encode, Input, Kind, Meta, OutStream, Project, Source};

// --- small builders to keep the tests readable -------------------------------

fn src(input: usize, index: usize, kind: Kind, codec: &str) -> Source {
    Source { input, index, kind, codec: codec.into(), bitrate_kbps: None }
}

fn keep(source: Source, meta: Meta) -> OutStream {
    OutStream::new(source, meta, Encode::Copy)
}

fn lang(l: &str) -> Meta {
    Meta { language: Some(l.into()), ..Default::default() }
}

fn project(inputs: &[&str], streams: Vec<OutStream>) -> Project {
    Project {
        inputs: inputs.iter().map(|p| Input::new(p.to_string())).collect(),
        streams,
        title: None,
        output: "out.mkv".into(),
        duration_ms: None,
    }
}

/// The millisecond offset an offset in seconds becomes (rounded to whole
/// milliseconds, as the editor stores it).
fn ms(secs: f64) -> i64 {
    (secs * 1000.0).round() as i64
}

/// Every value that immediately follows an exact-match `flag` token.
fn values_after(args: &[String], flag: &str) -> Vec<String> {
    args.iter()
        .zip(args.iter().skip(1))
        .filter(|(f, _)| f.as_str() == flag)
        .map(|(_, v)| v.clone())
        .collect()
}

/// Reorder: `-map` order follows output order, and per-type output indices
/// renumber to match (moving jpn ahead of eng makes jpn `a:0`).
#[test]
fn reorder_renumbers_output_indices() {
    let v = keep(src(0, 0, Kind::Video, "h264"), Meta::default());
    let eng = keep(src(0, 1, Kind::Audio, "aac"), lang("eng"));
    let jpn = keep(src(0, 2, Kind::Audio, "aac"), lang("jpn"));

    let args = project(&["in.mkv"], vec![v, jpn, eng]).to_args();
    let joined = args.join(" ");

    assert_eq!(values_after(&args, "-map"), ["0:0", "0:2", "0:1"]);
    assert!(joined.contains("-metadata:s:a:0 language=jpn"), "{joined}");
    assert!(joined.contains("-metadata:s:a:1 language=eng"), "{joined}");
}

/// Remove via positive mapping: the dropped stream is simply absent, never
/// negative-mapped, and survivors renumber.
#[test]
fn remove_uses_positive_mapping() {
    let v = keep(src(0, 0, Kind::Video, "h264"), Meta::default());
    let jpn = keep(src(0, 2, Kind::Audio, "aac"), lang("jpn"));

    let args = project(&["in.mkv"], vec![v, jpn]).to_args();
    let joined = args.join(" ");

    assert_eq!(values_after(&args, "-map"), ["0:0", "0:2"]);
    assert!(!joined.contains("-map -"), "no negative mapping: {joined}");
    assert!(!joined.contains("language=eng"), "dropped stream absent: {joined}");
    assert!(joined.contains("-metadata:s:a:0 language=jpn"), "{joined}");
}

/// Soft removal: a stream flagged `removed` is never mapped and doesn't count
/// toward per-type renumbering.
#[test]
fn removed_stream_excluded_from_output() {
    let v = keep(src(0, 0, Kind::Video, "h264"), Meta::default());
    let mut eng = keep(src(0, 1, Kind::Audio, "aac"), lang("eng"));
    eng.removed = true;
    let jpn = keep(src(0, 2, Kind::Audio, "aac"), lang("jpn"));

    let args = project(&["in.mkv"], vec![v, eng, jpn]).to_args();
    let joined = args.join(" ");

    assert_eq!(values_after(&args, "-map"), ["0:0", "0:2"]);
    assert!(!joined.contains("language=eng"), "removed stream absent: {joined}");
    assert!(joined.contains("-metadata:s:a:0 language=jpn"), "{joined}");
}

/// Audio convert: the one re-encode path, on the correct output index.
#[test]
fn audio_convert_emits_codec_bitrate_channels() {
    let v = keep(src(0, 0, Kind::Video, "h264"), Meta::default());
    let audio = OutStream::new(
        src(0, 1, Kind::Audio, "flac"),
        Meta::default(),
        Encode::Audio { codec: "aac".into(), bitrate_kbps: Some(192), channels: Some(2) },
    );

    let joined = project(&["in.mkv"], vec![v, audio]).to_args().join(" ");

    assert!(joined.contains("-c:v:0 copy"), "{joined}");
    assert!(joined.contains("-c:a:0 aac -b:a:0 192k -ac:a:0 2"), "{joined}");
}

/// Insert from a second input: two `-i`, a stream referencing input 1, and
/// per-type numbering that spans inputs.
#[test]
fn insert_from_second_input() {
    let v = keep(src(0, 0, Kind::Video, "h264"), Meta::default());
    let eng = keep(src(0, 1, Kind::Audio, "aac"), lang("eng"));
    let commentary = OutStream::new(
        src(1, 0, Kind::Audio, "flac"),
        Meta { title: Some("Commentary".into()), ..Default::default() },
        Encode::Copy,
    );

    let args = project(&["vid.mkv", "new.flac"], vec![v, eng, commentary]).to_args();
    let joined = args.join(" ");

    assert_eq!(values_after(&args, "-i"), ["vid.mkv", "new.flac"]);
    assert_eq!(values_after(&args, "-map"), ["0:0", "0:1", "1:0"]);
    assert!(joined.contains("-metadata:s:a:1 title=Commentary"), "{joined}");
}

/// Disposition is always emitted, so moving the default stream can't strand
/// a stale flag.
#[test]
fn disposition_cleared_on_reorder() {
    let default_forced = keep(
        src(0, 1, Kind::Audio, "aac"),
        Meta { default: true, forced: true, ..Default::default() },
    );
    let plain = keep(src(0, 2, Kind::Audio, "aac"), Meta::default());

    let joined = project(&["in.mkv"], vec![plain, default_forced]).to_args().join(" ");

    assert!(joined.contains("-disposition:a:0 0"), "cleared at a:0: {joined}");
    assert!(joined.contains("-disposition:a:1 default+forced"), "flags ride along to a:1: {joined}");
}

/// A raw/elementary output emits only `-map` + `-c copy`.
#[test]
fn raw_output_skips_metadata_and_disposition() {
    let audio = keep(src(0, 1, Kind::Audio, "ac3"), lang("eng"));
    let mut p = project(&["in.mkv"], vec![audio]);
    p.output = "in.eng.ac3".into();

    let args = p.to_args();
    let joined = args.join(" ");

    assert_eq!(values_after(&args, "-map"), ["0:1"]);
    assert!(joined.contains("-c:a:0 copy"), "{joined}");
    assert!(!joined.contains("-disposition"), "no disposition: {joined}");
    assert!(!joined.contains("-metadata"), "no metadata: {joined}");
}

/// An offset input gets `-itsoffset` immediately before its own `-i`.
#[test]
fn itsoffset_emitted_before_input() {
    let v = keep(src(0, 0, Kind::Video, "h264"), Meta::default());
    let sub = OutStream::new(src(1, 0, Kind::Subtitle, "subrip"), lang("eng"), Encode::Copy);

    let mut p = project(&["vid.mkv", "subs.srt"], vec![v, sub]);
    p.inputs[1].offset_ms = ms(-0.2);
    let args = p.to_args();

    let i_positions: Vec<usize> = args
        .iter()
        .enumerate()
        .filter(|(_, a)| a.as_str() == "-i")
        .map(|(i, _)| i)
        .collect();
    assert_eq!(i_positions.len(), 2);
    assert_eq!(i_positions[0], 0, "no offset on the primary");
    assert_eq!(args[i_positions[1] - 2], "-itsoffset");
    assert_eq!(args[i_positions[1] - 1], "-0.200");
    assert_eq!(values_after(&args, "-itsoffset"), ["-0.200"]);
}

/// A zero offset emits nothing.
#[test]
fn no_itsoffset_when_zero() {
    let v = keep(src(0, 0, Kind::Video, "h264"), Meta::default());
    let joined = project(&["in.mkv"], vec![v]).to_args().join(" ");
    assert!(!joined.contains("-itsoffset"), "{joined}");
}

/// The offset has exactly three decimals and a `.` point.
#[test]
fn itsoffset_formats_without_float_noise() {
    let v = keep(src(0, 0, Kind::Video, "h264"), Meta::default());
    let a = keep(src(1, 0, Kind::Audio, "flac"), Meta::default());
    let mut p = project(&["vid.mkv", "extra.flac"], vec![v, a]);
    p.inputs[1].offset_ms = ms(0.3);
    assert_eq!(values_after(&p.to_args(), "-itsoffset"), ["0.300"]);
}

// --- further cases --------------------------------------------------------

#[test]
fn full_argument_vector_for_a_small_project() {
    let v = keep(src(0, 0, Kind::Video, "h264"), Meta::default());
    let a = keep(
        src(0, 1, Kind::Audio, "aac"),
        Meta { language: Some("eng".into()), title: Some("Main".into()), default: true, forced: false },
    );
    let t = keep(src(0, 2, Kind::Attachment, "ttf"), lang("und"));
    let args = project(&["in.mkv"], vec![v, a, t]).to_args();
    assert_eq!(
        args,
        [
            "-i", "in.mkv", "-map", "0:0", "-map", "0:1", "-map", "0:2", "-c:v:0", "copy",
            "-disposition:v:0", "0", "-c:a:0", "copy", "-metadata:s:a:0", "language=eng",
            "-metadata:s:a:0", "title=Main", "-disposition:a:0", "default", "-c:t:0", "copy",
            "out.mkv",
        ]
    );
}

#[test]
fn offsets_format_sign_and_padding() {
    assert_eq!(fmt_offset(-200), "-0.200");
    assert_eq!(fmt_offset(300), "0.300");
    assert_eq!(fmt_offset(-1), "-0.001");
    assert_eq!(fmt_offset(1500), "1.500");
    assert_eq!(fmt_offset(-3_600_000), "-3600.000");
    assert_eq!(fmt_offset(i64::MIN), "-9223372036854775.808");
}

#[test]
fn uppercase_raw_extension_still_skips_tags() {
    let audio = keep(src(0, 1, Kind::Audio, "ac3"), lang("eng"));
    let mut p = project(&["in.mkv"], vec![audio]);
    p.output = "OUT.AC3".into();
    assert!(!p.to_args().join(" ").contains("-disposition"));
    assert!(interlace::args::output_takes_stream_tags("a/b.mkv"));
    assert!(!interlace::args::output_takes_stream_tags("a/b.SRT"));
    assert!(interlace::args::output_takes_stream_tags("noext"));
    assert!(interlace::args::output_takes_stream_tags(".srt"));
}

#[test]
fn removed_stream_same_as_dropped() {
    let v = keep(src(0, 0, Kind::Video, "h264"), Meta::default());
    let mut eng = keep(src(0, 1, Kind::Audio, "aac"), lang("eng"));
    eng.removed = true;
    let jpn = keep(src(0, 2, Kind::Audio, "aac"), lang("jpn"));
    let soft = project(&["in.mkv"], vec![v.clone(), eng, jpn.clone()]).to_args();
    let hard = project(&["in.mkv"], vec![v, jpn]).to_args();
    assert_eq!(soft, hard);
}

#[test]
fn run_args_prefix_and_overwrite() {
    let v = keep(src(0, 0, Kind::Video, "h264"), Meta::default());
    let p = project(&["in.mkv"], vec![v]);
    let with = interlace::run::run_args(&p, true);
    let without = interlace::run::run_args(&p, false);
    assert_eq!(
        &with[..7],
        ["-hide_banner", "-loglevel", "warning", "-nostdin", "-progress", "pipe:1", "-y"]
    );
    assert_eq!(&without[..6], ["-hide_banner", "-loglevel", "warning", "-nostdin", "-progress", "pipe:1"]);
    assert_eq!(without[6..].to_vec(), p.to_args());
    assert_eq!(with[7..].to_vec(), p.to_args());
}

#[test]
fn command_line_reads_back_as_the_model_arguments() {
    let v = keep(src(0, 0, Kind::Video, "h264"), Meta::default());
    let a = keep(src(0, 1, Kind::Audio, "aac"), lang("eng"));
    let p = project(&["in.mkv"], vec![v, a]);
    let line = p.command_line();
    assert!(line.starts_with("ffmpeg -i in.mkv -map 0:0"));
    assert_eq!(interlace::run::command_args(&line), p.to_args());
}

/// A container title set in the editor reaches the output as global
/// metadata, just before the output path; an unset title emits nothing.
#[test]
fn container_title_precedes_output() {
    let v = keep(src(0, 0, Kind::Video, "h264"), Meta::default());
    let mut p = project(&["in.mkv"], vec![v]);
    p.title = Some("Le Film".into());
    let args = p.to_args();
    let n = args.len();
    assert_eq!(args[n - 3], "-metadata");
    assert_eq!(args[n - 2], "title=Le Film");
    assert_eq!(args[n - 1], "out.mkv");

    p.title = None;
    assert!(!p.to_args().iter().any(|a| a == "-metadata"));
}

/// A raw/elementary output takes no container title either.
#[test]
fn raw_output_skips_container_title() {
    let a = keep(src(0, 1, Kind::Audio, "ac3"), Meta::default());
    let mut p = project(&["in.mkv"], vec![a]);
    p.title = Some("Le Film".into());
    p.output = "in.eng.ac3".into();
    let args = p.to_args();
    assert!(!args.iter().any(|t| t.starts_with("-metadata")), "{args:?}");
    assert_eq!(args.last().unwrap(), "in.eng.ac3");
}

/// The output's extension is read as `std::path` reads it: a trailing
/// separator does not hide it.
#[test]
fn trailing_separator_keeps_raw_extension() {
    assert!(!interlace::args::output_takes_stream_tags("a.srt/"));
    assert!(!interlace::args::output_takes_stream_tags("a.SRT"));
    assert!(interlace::args::output_takes_stream_tags("out"));
    assert!(interlace::args::output_takes_stream_tags("/media/.."));
}
