use interlace::model::{Encode, Input, Kind, Meta, OutStream, Project, Source};
use interlace::session::{run_action, RunAction, RunRequest, Session};

fn demo_project() -> Project {
    let mk = |input, index, kind, codec: &str, meta| {
        OutStream::new(
            Source { input, index, kind, codec: codec.into(), bitrate_kbps: None },
            meta,
            Encode::Copy,
        )
    };
    Project {
        inputs: vec![Input::new("movie.mkv".to_string())],
        streams: vec![
            mk(0, 0, Kind::Video, "h264", Meta::default()),
            mk(0, 1, Kind::Audio, "flac", Meta {
                language: Some("jpn".into()),
                title: Some("Japanese".into()),
                default: true,
                forced: false,
            }),
            mk(0, 2, Kind::Subtitle, "subrip", Meta { language: Some("eng".into()), ..Default::default() }),
        ],
        title: None,
        output: "movie.remux.mkv".into(),
        duration_ms: Some(120_000),
    }
}

fn app_with_demo() -> Session {
    let mut app = Session::new();
    app.project = Some(demo_project());
    app.selected = Some(1);
    app
}

#[test]
fn add_converted_stream_keeps_original_and_inserts_sibling() {
    let mut app = app_with_demo();
    app.add_converted_stream(1);
    let p = app.project.as_ref().unwrap();

    assert_eq!(p.streams.len(), 4);
    assert!(matches!(p.streams[1].encode, Encode::Copy));
    assert_eq!(p.streams[1].source.index, 1);
    assert!(matches!(p.streams[2].encode, Encode::Audio { .. }));
    assert_eq!(p.streams[2].source.index, 1);
    assert_eq!(p.streams[2].meta.language.as_deref(), Some("jpn"));
    assert!(!p.streams[2].meta.default);
    assert_eq!(app.selected, Some(2));

    let maps: Vec<String> = p
        .to_args()
        .windows(2)
        .filter(|w| w[0] == "-map")
        .map(|w| w[1].clone())
        .collect();
    assert_eq!(maps.iter().filter(|m| *m == "0:1").count(), 2);
}

#[test]
fn delete_stream_hard_removes_added_sibling() {
    let mut app = app_with_demo();
    app.add_converted_stream(1);
    assert!(app.project.as_ref().unwrap().streams[2].added);
    app.delete_stream(2);
    let p = app.project.as_ref().unwrap();
    assert_eq!(p.streams.len(), 3);
    assert!(!p.streams.iter().any(|s| s.added));
}

#[test]
fn reorder_moves_and_follows_selection() {
    let mut app = app_with_demo();
    app.reorder(2, 0);
    let streams = &app.project.as_ref().unwrap().streams;
    assert_eq!(streams[0].source.kind, Kind::Subtitle);
    assert_eq!(app.selected, Some(0));
}

#[test]
fn extract_of_attachment_sets_error() {
    let mut app = app_with_demo();
    let attach = OutStream::new(
        Source { input: 0, index: 9, kind: Kind::Attachment, codec: "ttf".into(), bitrate_kbps: None },
        Meta::default(),
        Encode::Copy,
    );
    app.project.as_mut().unwrap().streams.push(attach);
    app.selected = Some(app.project.as_ref().unwrap().streams.len() - 1);
    assert!(app.extract_selected().is_none());
    assert!(app.error.is_some());
}

// --- further cases --------------------------------------------------------

fn indices(app: &Session) -> Vec<usize> {
    app.project.as_ref().unwrap().streams.iter().map(|s| s.source.index).collect()
}

#[test]
fn reorder_then_back_restores_order() {
    let mut app = app_with_demo();
    app.reorder(0, 3);
    assert_eq!(indices(&app), [1, 2, 0]);
    assert_eq!(app.selected, Some(2));
    app.reorder(2, 0);
    assert_eq!(indices(&app), [0, 1, 2]);
    app.reorder(1, 1);
    assert_eq!(indices(&app), [0, 1, 2]);
    app.reorder(5, 0);
    assert_eq!(indices(&app), [0, 1, 2]);
}

#[test]
fn delete_keeps_selection_on_a_survivor() {
    let mut app = app_with_demo();
    app.selected = Some(2);
    app.delete_stream(2);
    assert_eq!(app.selected, Some(1));
    app.selected = Some(1);
    app.delete_stream(0);
    assert_eq!(app.selected, Some(0));
    app.delete_stream(0);
    app.delete_stream(0);
    assert_eq!(app.selected, None);
    assert!(app.project.as_ref().unwrap().streams.is_empty());
}

#[test]
fn extract_selected_returns_the_job_and_clears_error() {
    let mut app = app_with_demo();
    app.error = Some("old".into());
    let x = app.extract_selected().unwrap();
    assert_eq!(x.output, "movie.jpn.flac");
    assert_eq!(app.error, None);
}

#[test]
fn run_request_prefers_the_edited_command() {
    let mut app = app_with_demo();
    match app.run_request(false) {
        RunRequest::Model(p) => assert_eq!(p.to_args(), demo_project().to_args()),
        _ => panic!("expected the model run"),
    }
    assert!(matches!(app.run_request(true), RunRequest::Nothing));
    app.command_edit = Some("ffmpeg -i in.mkv -c copy out.mkv".into());
    match app.run_request(false) {
        RunRequest::Edited(args) => assert_eq!(args, ["-i", "in.mkv", "-c", "copy", "out.mkv"]),
        _ => panic!("expected the edited run"),
    }
    assert!(matches!(Session::new().run_request(false), RunRequest::Nothing));
}

#[test]
fn load_project_selects_first_stream() {
    let mut app = Session::new();
    app.error = Some("previous".into());
    app.command_edit = Some("x".into());
    app.load_project(demo_project());
    assert_eq!(app.selected, Some(0));
    assert_eq!(app.error, None);
    assert_eq!(app.command_edit, None);
    app.load_failed("nope".into());
    assert_eq!(app.error.as_deref(), Some("nope"));
}

#[test]
fn run_action_confirms_overwrite_and_ignores_while_running() {
    assert!(matches!(run_action(true, true), RunAction::Ignore));
    assert!(matches!(run_action(true, false), RunAction::Ignore));
    assert!(matches!(run_action(false, true), RunAction::Confirm));
    assert!(matches!(run_action(false, false), RunAction::Start));
}

#[test]
fn toggle_removed_and_nudge_offset() {
    let mut s = OutStream::new(
        Source { input: 0, index: 1, kind: Kind::Audio, codec: "aac".into(), bitrate_kbps: None },
        Meta::default(),
        Encode::Copy,
    );
    s.toggle_removed();
    assert!(s.removed);
    s.toggle_removed();
    assert!(!s.removed);

    let mut i = Input::new("a.srt".into());
    i.nudge_offset_ms(-50);
    assert_eq!(i.offset_ms, -50);
    i.nudge_offset_ms(50);
    i.nudge_offset_ms(50);
    assert_eq!(i.offset_ms, 50);
    i.offset_ms = i64::MAX - 10;
    i.nudge_offset_ms(50);
    assert_eq!(i.offset_ms, i64::MAX);
    assert_eq!(i.path, "a.srt");
}
