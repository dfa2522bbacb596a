use interlace::run::{
    command_args, failure_line, finish_result, is_program_token_of, progress_step, raw_run_args, tail,
    tokenize, ProgressBlock, ProgressEvent, RunFailure,
};

#[test]
fn tail_keeps_last_nonempty_lines() {
    let lines: Vec<String> = ["a", "", "b", "c", ""].iter().map(|s| s.to_string()).collect();
    assert_eq!(tail(&lines, 2), "b\nc");
}

#[test]
fn tokenize_keeps_quoted_spaces_together() {
    assert_eq!(
        tokenize(r#"-i "my movie.mkv" -map 0:a:1"#),
        vec!["-i", "my movie.mkv", "-map", "0:a:1"]
    );
}

#[test]
fn tokenize_treats_backslashes_as_literal() {
    assert_eq!(tokenize(r#"-i "C:\Media\The Film.mkv""#), vec!["-i", r"C:\Media\The Film.mkv"]);
    assert_eq!(tokenize(r"-i C:\a\b.mkv"), vec!["-i", r"C:\a\b.mkv"]);
}

#[test]
fn tokenize_handles_single_quotes_and_empties() {
    assert_eq!(tokenize("-metadata title='Le Film'"), vec!["-metadata", "title=Le Film"]);
    assert_eq!(tokenize(r#"-metadata title="""#), vec!["-metadata", "title="]);
    assert_eq!(tokenize("   "), Vec::<String>::new());
}

#[test]
fn command_args_strips_leading_ffmpeg_program_token() {
    assert_eq!(
        command_args(r#"ffmpeg -i "a b.mkv" -c copy out.mkv"#),
        vec!["-i", "a b.mkv", "-c", "copy", "out.mkv"]
    );
    assert_eq!(command_args("FFMPEG.exe -version"), vec!["-version"]);
    assert_eq!(command_args("-i in.mkv"), vec!["-i", "in.mkv"]);
}

// --- further cases --------------------------------------------------------

#[test]
fn tokenize_other_whitespace_and_unclosed_quote() {
    assert_eq!(tokenize("a\tb\u{3000}c\n"), vec!["a", "b", "c"]);
    assert_eq!(tokenize("a\u{a0}b"), vec!["a", "b"]);
    assert_eq!(tokenize("'it''s'"), vec!["its"]);
    assert_eq!(tokenize("x \"open ended"), vec!["x", "open ended"]);
    assert_eq!(tokenize("\"\" ''"), vec!["", ""]);
}

#[test]
fn command_args_program_paths() {
    assert_eq!(command_args(r"C:\Tools\FFMPEG.EXE -i a"), vec!["-i", "a"]);
    assert_eq!(command_args("/usr/bin/ffmpeg -i a"), vec!["/usr/bin/ffmpeg", "-i", "a"]);
    assert_eq!(command_args("ffprobe -i a"), vec!["ffprobe", "-i", "a"]);
    assert_eq!(command_args(""), Vec::<String>::new());
}

#[test]
fn tail_edge_cases() {
    let lines: Vec<String> = ["x", "  \t", "y"].iter().map(|s| s.to_string()).collect();
    assert_eq!(tail(&lines, 20), "x\ny");
    assert_eq!(tail(&lines, 0), "");
    assert_eq!(tail(&[].to_vec(), 3), "");
}

#[test]
fn failure_lines() {
    let f = RunFailure { code: Some(1), stderr_tail: "first\nreal error".into() };
    assert_eq!(failure_line(&f), "failed (exit 1): real error");
    let g = RunFailure { code: None, stderr_tail: String::new() };
    assert_eq!(failure_line(&g), "failed (exit ?): ffmpeg failed");
    let h = RunFailure { code: Some(-22), stderr_tail: "a\r\nb\r\n".into() };
    assert_eq!(failure_line(&h), "failed (exit -22): b");
    let k = RunFailure { code: Some(0), stderr_tail: "a\n\n".into() };
    assert_eq!(failure_line(&k), "failed (exit 0): ");
    let m = RunFailure { code: Some(2), stderr_tail: "a\r".into() };
    assert_eq!(failure_line(&m), "failed (exit 2): a\r");
}

#[test]
fn raw_run_args_rules() {
    assert_eq!(raw_run_args(vec![]), Err("the edited command is empty".to_string()));
    assert_eq!(
        raw_run_args(vec!["-i".into(), "a.mkv".into()]).unwrap(),
        ["-hide_banner", "-nostdin", "-progress", "pipe:1", "-i", "a.mkv"]
    );
}

#[test]
fn progress_blocks_are_gathered_and_reported() {
    let stream = "frame=10\nout_time_us=1000000\ntotal_size=2048\nspeed= 2.0x\nprogress=continue\n\
                  garbage line\nout_time_us=N/A\nprogress=end\n";
    let mut acc = ProgressBlock::new();
    let mut got = Vec::new();
    for line in stream.lines() {
        match progress_step(&mut acc, line) {
            ProgressEvent::Pending => {},
            ProgressEvent::Block(b) => got.push((b, false)),
            ProgressEvent::Last(b) => {
                got.push((b, true));
                break;
            },
        }
    }
    assert_eq!(got.len(), 2);
    assert_eq!(got[0].0.out_time_us, Some(1_000_000));
    assert_eq!(got[0].0.total_size, Some(2048));
    assert_eq!(got[0].0.speed.as_deref(), Some("2.0x"));
    assert!(!got[0].1);
    assert_eq!(got[1].0.out_time_us, None);
    assert_eq!(got[1].0.total_size, None);
    assert!(got[1].1);
}

/// Without quotes, tokenizing is splitting at whitespace.
#[test]
fn quote_free_input_splits_at_whitespace() {
    for s in ["a  b\tc", "   ", "", " -i in.mkv\n-map 0:1 ", "C:\\a\\b.mkv x"] {
        let want: Vec<String> = s.split_whitespace().map(String::from).collect();
        assert_eq!(tokenize(s), want, "{s:?}");
    }
}

/// Double-quoting every token and joining with spaces reads back exactly.
#[test]
fn quoted_tokens_round_trip() {
    let t: Vec<String> = ["", "my movie.mkv", "it's", r"C:\Media\x.mkv", "\ttab"].iter().map(|s| s.to_string()).collect();
    let line = t.iter().map(|x| format!("\"{x}\"")).collect::<Vec<_>>().join(" ");
    assert_eq!(tokenize(&line), t);
}

#[test]
fn program_token_checks() {
    assert!(is_program_token_of("FFmpeg", "ffmpeg"));
    assert!(is_program_token_of(r"C:\Tools\FFMPEG.EXE", r"c:\tools\ffmpeg.exe"));
    assert!(!is_program_token_of("-i", "-i"));
    assert!(!is_program_token_of("ffprobe", "ffprobe"));
}

#[test]
fn finished_runs_report_status_and_tail() {
    let lines: Vec<String> = ["x", "", "boom"].iter().map(|s| s.to_string()).collect();
    assert!(finish_result(true, Some(0), &lines).is_ok());
    let f = finish_result(false, Some(1), &lines).unwrap_err();
    assert_eq!(f.code, Some(1));
    assert_eq!(f.stderr_tail, "x\nboom");
}
