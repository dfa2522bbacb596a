use interlace::display::{changes, flags, kind_text, on_off, opt, set_codec, summary, tag_diff, ChangeKind};
use interlace::model::{Encode, Kind, Meta, OutStream, Project, Source};

fn audio(input: usize) -> OutStream {
    OutStream::new(
        Source { input, index: 1, kind: Kind::Audio, codec: "flac".into(), bitrate_kbps: Some(900) },
        Meta { language: Some("jpn".into()), title: Some("Japanese".into()), default: true, forced: false },
        Encode::Copy,
    )
}

#[test]
fn summaries_and_flags() {
    let mut s = audio(0);
    assert_eq!(summary(&s), "flac · jpn · \"Japanese\"");
    assert_eq!(flags(&s), "default");
    s.encode = Encode::default_audio();
    s.meta.forced = true;
    assert_eq!(summary(&audio(2)), "flac · jpn · \"Japanese\" · from 2");
    assert_eq!(summary(&s), "flac » aac · jpn · \"Japanese\"");
    assert_eq!(flags(&s), "default · forced");
    assert_eq!(kind_text(Kind::Attachment), "attach");
    assert_eq!(on_off(false), "off");
    assert_eq!(opt(&None), "—");
}

#[test]
fn change_badges() {
    let mut s = audio(0);
    assert!(changes(&s).is_empty());
    s.meta.title = None;
    s.meta.forced = true;
    set_codec(&mut s, "opus");
    let c = changes(&s);
    assert_eq!(c.len(), 3);
    assert_eq!(c[0].kind, ChangeKind::Convert);
    assert_eq!(c[0].hover, "re-encode flac » opus");
    assert_eq!(c[1].label, "retag");
    assert_eq!(c[1].hover, "title: \u{201C}Japanese\u{201D} » —");
    assert_eq!(tag_diff(&s), c[1].hover);
    assert_eq!(c[2].hover, "default on » on, forced off » on");
    s.removed = true;
    let r = changes(&s);
    assert_eq!(r.len(), 1);
    assert_eq!(r[0].label, "remove");
    assert_eq!(r[0].hover, "Will be dropped from the output");
}

#[test]
fn set_codec_keeps_bitrate_and_channels() {
    let mut s = audio(0);
    set_codec(&mut s, "ac3");
    assert!(matches!(&s.encode, Encode::Audio { codec, bitrate_kbps: Some(192), channels: None } if codec == "ac3"));
    s.encode = Encode::Audio { codec: "aac".into(), bitrate_kbps: Some(128), channels: Some(2) };
    set_codec(&mut s, "mp3");
    assert!(matches!(&s.encode, Encode::Audio { codec, bitrate_kbps: Some(128), channels: Some(2) } if codec == "mp3"));
    set_codec(&mut s, "copy");
    assert!(matches!(s.encode, Encode::Copy));
}

#[test]
fn inspector_field_edits() {
    let mut s = audio(0);
    s.set_language("  eng \t");
    assert_eq!(s.meta.language.as_deref(), Some("eng"));
    s.set_language("   ");
    assert_eq!(s.meta.language, None);
    s.set_title(" Spaced ");
    assert_eq!(s.meta.title.as_deref(), Some(" Spaced "));
    s.set_title("");
    assert_eq!(s.meta.title, None);
    let mut p = Project { inputs: vec![], streams: vec![s], title: Some("T".into()), output: "o.mkv".into(), duration_ms: None };
    p.set_title("");
    assert_eq!(p.title, None);
    p.set_title("New");
    assert_eq!(p.title.as_deref(), Some("New"));
}

#[test]
fn kind_letters_and_codec_types() {
    assert_eq!(Kind::Data.spec(), 'd');
    assert_eq!(Kind::Attachment.spec(), 't');
    assert_eq!(Kind::from_codec_type("subtitle"), Some(Kind::Subtitle));
    assert_eq!(Kind::from_codec_type("Video"), None);
    let e = Encode::default_audio();
    assert!(matches!(&e, Encode::Audio { codec, bitrate_kbps: Some(192), channels: None } if codec == "aac"));
}
