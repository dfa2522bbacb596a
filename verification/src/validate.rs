//! Pre-flight container/codec compatibility checks.
//!
//! Rule-based on purpose: the handful of common mismatches that give cryptic
//! ffmpeg errors (an ASS subtitle bound for MP4, a font attachment bound for
//! anything but Matroska, an AAC track in WebM) become a legible message and
//! a concrete suggestion. These are hints shown before a run, not a gate.
//!
//! The effective codec of a stream is its conversion target when it is being
//! re-encoded, otherwise the source codec that is copied through.

use vstd::prelude::*;
use crate::model::{Encode, EncodeView, Kind, OutStream, OutStreamView, Project, ProjectView};
use crate::path::{extension, path_extension};
use crate::text::{has_prefix, starts_with, str_eq, str_lowercase, string_of, to_lowercase};

verus! {

#[derive(Debug, Clone, Copy, PartialEq, Eq, Structural)]
pub enum Severity {
    Error,
    Warning,
}

/// One compatibility finding against a project.
#[derive(Debug, Clone)]
pub struct Issue {
    pub severity: Severity,
    /// The output-stream index this concerns, if it is about one stream.
    pub stream: Option<usize>,
    pub message: String,
    /// A concrete next step, if there is one to offer.
    pub suggestion: Option<String>,
}

pub struct IssueView {
    pub severity: Severity,
    pub stream: Option<usize>,
    pub message: Seq<char>,
    pub suggestion: Option<Seq<char>>,
}

impl View for Issue {
    type V = IssueView;

    open spec fn view(&self) -> IssueView {
        IssueView {
            severity: self.severity,
            stream: self.stream,
            message: self.message@,
            suggestion: match self.suggestion {
                Some(s) => Some(s@),
                None => None,
            },
        }
    }
}

/// The output containers whose rules are known.
#[derive(Debug, Clone, Copy, PartialEq, Eq, Structural)]
pub enum Container {
    Matroska,
    Mp4,
    WebM,
    /// Anything without known rules; codec checks are skipped for these.
    Other,
}

/// The container a lowercased output extension names.
pub open spec fn container_for(lower: Seq<char>) -> Container {
    if lower == "mkv"@ || lower == "mka"@ {
        Container::Matroska
    } else if lower == "mp4"@ || lower == "m4v"@ || lower == "m4a"@ || lower == "mov"@ {
        Container::Mp4
    } else if lower == "webm"@ {
        Container::WebM
    } else {
        Container::Other
    }
}

/// The container of an output path: its extension, lowercased by
/// `str::to_lowercase`, looked up with `container_for`.
pub open spec fn container_of_output(output: Seq<char>) -> Container {
    match extension(output) {
        Some(e) => container_for(str_lowercase(e)),
        None => Container::Other,
    }
}

/// The container a lowercased extension names.
pub fn container_for_extension(lower: &str) -> (r: Container)
    ensures
        r == container_for(lower@),
{
    if str_eq(lower, "mkv") || str_eq(lower, "mka") {
        Container::Matroska
    } else if str_eq(lower, "mp4") || str_eq(lower, "m4v") || str_eq(lower, "m4a") || str_eq(
        lower,
        "mov",
    ) {
        Container::Mp4
    } else if str_eq(lower, "webm") {
        Container::WebM
    } else {
        Container::Other
    }
}

fn container_of(project: &Project) -> (r: Container)
    ensures
        r == container_of_output(project@.output),
{
    match path_extension(project.output.as_str()) {
        Some(e) => {
            let lower = to_lowercase(e.as_str());
            container_for_extension(lower.as_str())
        },
        None => Container::Other,
    }
}

/// The codec that lands in the output: the conversion target when
/// re-encoding, otherwise the copied-through source codec.
pub open spec fn effective(s: OutStreamView) -> Seq<char> {
    match s.encode {
        EncodeView::Copy => s.source.codec,
        EncodeView::Audio { codec, .. } => codec,
    }
}

fn effective_codec(s: &OutStream) -> (r: &str)
    ensures
        r@ == effective(s@),
{
    match &s.encode {
        Encode::Copy => s.source.codec.as_str(),
        Encode::Audio { codec, .. } => codec.as_str(),
    }
}

/// An error finding about stream `i`.
pub open spec fn error_at(i: int, message: Seq<char>, suggestion: Seq<char>) -> IssueView {
    IssueView {
        severity: Severity::Error,
        stream: Some(i as usize),
        message,
        suggestion: Some(suggestion),
    }
}

/// The subtitle codecs MP4 accepts (ffmpeg names tx3g `mov_text`).
pub open spec fn mp4_subtitle(codec: Seq<char>) -> bool {
    codec == "mov_text"@ || codec == "tx3g"@
}

/// MP4/MOV: text subtitles must be `mov_text`; attachments are not stored;
/// PCM audio is poorly supported.
pub open spec fn mp4_finding(i: int, s: OutStreamView) -> Option<IssueView> {
    let codec = effective(s);
    match s.source.kind {
        Kind::Subtitle => if !mp4_subtitle(codec) {
            Some(
                error_at(
                    i,
                    "MP4 can't carry a `"@ + codec + "` subtitle."@,
                    "MP4 only supports mov_text (tx3g) subtitles — use an .mkv output, or remove this stream."@,
                ),
            )
        } else {
            None
        },
        Kind::Attachment => Some(
            error_at(
                i,
                "MP4 can't store font/attachment streams."@,
                "Use an .mkv output to keep attachments, or remove this stream."@,
            ),
        ),
        Kind::Audio => if has_prefix(codec, "pcm_"@) {
            Some(
                IssueView {
                    severity: Severity::Warning,
                    stream: Some(i as usize),
                    message: "PCM audio (`"@ + codec + "`) is poorly supported in MP4."@,
                    suggestion: Some("Convert this audio to aac, or use an .mkv output."@),
                },
            )
        } else {
            None
        },
        _ => None,
    }
}

/// A WebM rejection of stream `i` carrying `codec` as a `what` stream.
pub open spec fn webm_bad(
    i: int,
    codec: Seq<char>,
    what: Seq<char>,
    allowed: Seq<char>,
    hint: Seq<char>,
) -> IssueView {
    error_at(
        i,
        "WebM can't carry a `"@ + codec + "` "@ + what + " stream."@,
        "WebM only allows "@ + allowed + ". "@ + hint,
    )
}

/// WebM permits only VP8/VP9/AV1 video, Vorbis/Opus audio and WebVTT
/// subtitles.
pub open spec fn webm_finding(i: int, s: OutStreamView) -> Option<IssueView> {
    let codec = effective(s);
    match s.source.kind {
        Kind::Video => if !(codec == "vp8"@ || codec == "vp9"@ || codec == "av1"@) {
            Some(
                webm_bad(
                    i,
                    codec,
                    "video"@,
                    "VP8, VP9, or AV1 video"@,
                    "Use an .mkv output instead."@,
                ),
            )
        } else {
            None
        },
        Kind::Audio => if !(codec == "vorbis"@ || codec == "opus"@) {
            Some(
                webm_bad(
                    i,
                    codec,
                    "audio"@,
                    "Vorbis or Opus audio"@,
                    "Convert this audio to opus, or use an .mkv output."@,
                ),
            )
        } else {
            None
        },
        Kind::Subtitle => if codec != "webvtt"@ {
            Some(
                webm_bad(
                    i,
                    codec,
                    "subtitle"@,
                    "WebVTT subtitles"@,
                    "Use an .mkv output instead."@,
                ),
            )
        } else {
            None
        },
        Kind::Attachment | Kind::Data => Some(
            webm_bad(
                i,
                codec,
                "attachment/data"@,
                "video, audio, and WebVTT streams"@,
                "Use an .mkv output instead."@,
            ),
        ),
    }
}

/// The finding (if any) for stream `i` bound for `c`; Matroska takes
/// essentially everything.
pub open spec fn finding(c: Container, i: int, s: OutStreamView) -> Option<IssueView> {
    match c {
        Container::Mp4 => mp4_finding(i, s),
        Container::WebM => webm_finding(i, s),
        _ => None,
    }
}

/// The findings of `streams`, in stream order.
pub open spec fn findings(c: Container, streams: Seq<OutStreamView>) -> Seq<IssueView>
    decreases streams.len(),
{
    if streams.len() == 0 {
        Seq::empty()
    } else {
        let rest = findings(c, streams.drop_last());
        match finding(c, streams.len() - 1, streams.last()) {
            Some(f) => rest.push(f),
            None => rest,
        }
    }
}

/// The issues of severity `sev`, in order.
pub open spec fn of_severity(issues: Seq<IssueView>, sev: Severity) -> Seq<IssueView>
    decreases issues.len(),
{
    if issues.len() == 0 {
        Seq::empty()
    } else if issues.last().severity == sev {
        of_severity(issues.drop_last(), sev).push(issues.last())
    } else {
        of_severity(issues.drop_last(), sev)
    }
}

/// The single finding of a project with no streams.
pub open spec fn no_streams_issue() -> IssueView {
    IssueView {
        severity: Severity::Error,
        stream: None,
        message: "No streams selected — the output would be empty."@,
        suggestion: Some("Load a file, or keep at least one stream."@),
    }
}

/// Every rule run against `p`: one error for an empty project, nothing for a
/// container without known rules, otherwise the per-stream findings with the
/// errors (in stream order) ahead of the warnings (in stream order).
pub open spec fn validate_spec(p: ProjectView) -> Seq<IssueView> {
    if p.streams.len() == 0 {
        seq![no_streams_issue()]
    } else {
        container_findings(container_of_output(p.output), p.streams)
    }
}

/// The findings for `streams` bound for container `c`, errors ahead of
/// warnings; none for a container without known rules.
pub open spec fn container_findings(c: Container, streams: Seq<OutStreamView>) -> Seq<IssueView> {
    if c == Container::Other {
        Seq::empty()
    } else {
        let f = findings(c, streams);
        of_severity(f, Severity::Error) + of_severity(f, Severity::Warning)
    }
}

fn cat3(a: &str, b: &str, c: &str) -> (r: String)
    ensures
        r@ == a@ + b@ + c@,
{
    let mut r = string_of(a);
    r.append(b);
    r.append(c);
    r
}

fn error_issue(i: usize, message: String, suggestion: String) -> (r: Issue)
    ensures
        r@ == error_at(i as int, message@, suggestion@),
{
    Issue { severity: Severity::Error, stream: Some(i), message, suggestion: Some(suggestion) }
}

fn is_mp4_subtitle(codec: &str) -> (r: bool)
    ensures
        r == mp4_subtitle(codec@),
{
    str_eq(codec, "mov_text") || str_eq(codec, "tx3g")
}

fn check_mp4(i: usize, s: &OutStream) -> (r: Option<Issue>)
    ensures
        opt_issue(r) == mp4_finding(i as int, s@),
{
    let codec = effective_codec(s);
    match s.source.kind {
        Kind::Subtitle => if !is_mp4_subtitle(codec) {
            Some(
                error_issue(
                    i,
                    cat3("MP4 can't carry a `", codec, "` subtitle."),
                    string_of(
                        "MP4 only supports mov_text (tx3g) subtitles — use an .mkv output, or remove this stream.",
                    ),
                ),
            )
        } else {
            None
        },
        Kind::Attachment => Some(
            error_issue(
                i,
                string_of("MP4 can't store font/attachment streams."),
                string_of("Use an .mkv output to keep attachments, or remove this stream."),
            ),
        ),
        Kind::Audio => if starts_with(codec, "pcm_") {
            Some(
                Issue {
                    severity: Severity::Warning,
                    stream: Some(i),
                    message: cat3("PCM audio (`", codec, "`) is poorly supported in MP4."),
                    suggestion: Some(string_of("Convert this audio to aac, or use an .mkv output.")),
                },
            )
        } else {
            None
        },
        _ => None,
    }
}

fn webm_issue(i: usize, codec: &str, what: &str, allowed: &str, hint: &str) -> (r: Issue)
    ensures
        r@ == webm_bad(i as int, codec@, what@, allowed@, hint@),
{
    let mut message = cat3("WebM can't carry a `", codec, "` ");
    message.append(what);
    message.append(" stream.");
    let mut suggestion = cat3("WebM only allows ", allowed, ". ");
    suggestion.append(hint);
    error_issue(i, message, suggestion)
}

fn check_webm(i: usize, s: &OutStream) -> (r: Option<Issue>)
    ensures
        opt_issue(r) == webm_finding(i as int, s@),
{
    let codec = effective_codec(s);
    match s.source.kind {
        Kind::Video => if !(str_eq(codec, "vp8") || str_eq(codec, "vp9") || str_eq(codec, "av1")) {
            Some(
                webm_issue(
                    i,
                    codec,
                    "video",
                    "VP8, VP9, or AV1 video",
                    "Use an .mkv output instead.",
                ),
            )
        } else {
            None
        },
        Kind::Audio => if !(str_eq(codec, "vorbis") || str_eq(codec, "opus")) {
            Some(
                webm_issue(
                    i,
                    codec,
                    "audio",
                    "Vorbis or Opus audio",
                    "Convert this audio to opus, or use an .mkv output.",
                ),
            )
        } else {
            None
        },
        Kind::Subtitle => if !str_eq(codec, "webvtt") {
            Some(
                webm_issue(
                    i,
                    codec,
                    "subtitle",
                    "WebVTT subtitles",
                    "Use an .mkv output instead.",
                ),
            )
        } else {
            None
        },
        Kind::Attachment | Kind::Data => Some(
            webm_issue(
                i,
                codec,
                "attachment/data",
                "video, audio, and WebVTT streams",
                "Use an .mkv output instead.",
            ),
        ),
    }
}

/// The view of an optional issue.
pub open spec fn opt_issue(o: Option<Issue>) -> Option<IssueView> {
    match o {
        Some(i) => Some(i@),
        None => None,
    }
}

fn check_stream(c: Container, i: usize, s: &OutStream) -> (r: Option<Issue>)
    ensures
        opt_issue(r) == finding(c, i as int, s@),
{
    match c {
        Container::Matroska | Container::Other => None,
        Container::Mp4 => check_mp4(i, s),
        Container::WebM => check_webm(i, s),
    }
}

/// The views of a list of issues.
pub open spec fn issues_view(v: Seq<Issue>) -> Seq<IssueView> {
    v.map_values(|x: Issue| x@)
}

fn push_issue(v: &mut Vec<Issue>, x: Issue)
    ensures
        issues_view(final(v)@) == issues_view(old(v)@).push(x@),
{
    v.push(x);
    assert(issues_view(v@) =~= issues_view(old(v)@).push(x@));
}

/// Run the rules of `container` against `streams`: findings in stream
/// order, errors ahead of warnings.
pub fn validate_for(container: Container, streams: &Vec<OutStream>) -> (r: Vec<Issue>)
    ensures
        issues_view(r@) == container_findings(container, streams@.map_values(|s: OutStream| s@)),
{
    let mut issues: Vec<Issue> = Vec::new();
    if container == Container::Other {
        assert(issues_view(issues@) =~= Seq::<IssueView>::empty());
        return issues;
    }
    let ghost ss = streams@.map_values(|s: OutStream| s@);
    let mut warnings: Vec<Issue> = Vec::new();
    let mut i: usize = 0;
    while i < streams.len()
        invariant
            ss == streams@.map_values(|s: OutStream| s@),
            i <= streams.len(),
            issues_view(issues@) == of_severity(findings(container, ss.take(i as int)), Severity::Error),
            issues_view(warnings@) == of_severity(
                findings(container, ss.take(i as int)),
                Severity::Warning,
            ),
        decreases streams.len() - i,
    {
        let s = &streams[i];
        assert(ss[i as int] == s@);
        let ghost prev = findings(container, ss.take(i as int));
        assert(ss.take(i + 1).drop_last() =~= ss.take(i as int));
        match check_stream(container, i, s) {
            Some(issue) => {
                let ghost iv = issue@;
                assert(findings(container, ss.take(i + 1)) == prev.push(iv));
                assert(prev.push(iv).drop_last() =~= prev);
                match issue.severity {
                    Severity::Error => push_issue(&mut issues, issue),
                    Severity::Warning => push_issue(&mut warnings, issue),
                }
            },
            None => {},
        }
        i = i + 1;
    }
    assert(ss.take(streams.len() as int) =~= ss);
    let ghost e = issues_view(issues@);
    let ghost w = issues_view(warnings@);
    issues.append(&mut warnings);
    assert(issues_view(issues@) =~= e + w);
    issues
}

/// Run every rule against `project`: findings in stream order, errors ahead
/// of warnings.
pub fn validate(project: &Project) -> (r: Vec<Issue>)
    ensures
        issues_view(r@) == validate_spec(project@),
{
    if project.streams.len() == 0 {
        let mut issues: Vec<Issue> = Vec::new();
        push_issue(
            &mut issues,
            Issue {
                severity: Severity::Error,
                stream: None,
                message: string_of("No streams selected — the output would be empty."),
                suggestion: Some(string_of("Load a file, or keep at least one stream.")),
            },
        );
        assert(issues_view(issues@) =~= validate_spec(project@));
        return issues;
    }
    let container = container_of(project);
    validate_for(container, &project.streams)
}

proof fn lemma_of_severity_sound(issues: Seq<IssueView>, sev: Severity)
    ensures
        forall|i: int|
            0 <= i < of_severity(issues, sev).len() ==> (#[trigger] of_severity(issues, sev)[i]).severity
                == sev,
        forall|i: int|
            0 <= i < of_severity(issues, sev).len() ==> issues.contains(
                #[trigger] of_severity(issues, sev)[i],
            ),
    decreases issues.len(),
{
    if issues.len() > 0 {
        let q = issues.drop_last();
        lemma_of_severity_sound(q, sev);
        let r = of_severity(issues, sev);
        assert forall|i: int| 0 <= i < r.len() implies issues.contains(#[trigger] r[i]) by {
            if i < of_severity(q, sev).len() {
                assert(r[i] == of_severity(q, sev)[i]);
                let j = choose|j: int| 0 <= j < q.len() && q[j] == r[i];
                assert(issues[j] == q[j]);
            } else {
                assert(r[i] == issues.last());
                assert(issues[issues.len() - 1] == issues.last());
            }
        }
    }
}

/// Errors lead: in what `validate` returns, no warning comes before an
/// error.
pub proof fn lemma_errors_before_warnings(p: ProjectView)
    ensures
        forall|i: int, j: int|
            0 <= i < j < validate_spec(p).len() && (#[trigger] validate_spec(p)[j]).severity
                == Severity::Error ==> (#[trigger] validate_spec(p)[i]).severity == Severity::Error,
{
    if p.streams.len() > 0 {
        let c = container_of_output(p.output);
        if c != Container::Other {
            let f = findings(c, p.streams);
            lemma_of_severity_sound(f, Severity::Error);
            lemma_of_severity_sound(f, Severity::Warning);
            let e = of_severity(f, Severity::Error);
            let w = of_severity(f, Severity::Warning);
            assert forall|i: int, j: int|
                0 <= i < j < validate_spec(p).len() && (#[trigger] validate_spec(p)[j]).severity
                    == Severity::Error implies (#[trigger] validate_spec(p)[i]).severity
                == Severity::Error by {
                if j >= e.len() {
                    assert(validate_spec(p)[j] == w[j - e.len()]);
                }
                if i < e.len() {
                    assert(validate_spec(p)[i] == e[i]);
                }
            }
        }
    }
}

proof fn lemma_matroska_no_findings(s: Seq<OutStreamView>)
    ensures
        findings(Container::Matroska, s) == Seq::<IssueView>::empty(),
    decreases s.len(),
{
    if s.len() > 0 {
        lemma_matroska_no_findings(s.drop_last());
    }
}

/// Matroska takes everything: a non-empty project bound for `.mkv`/`.mka`
/// has no findings.
pub proof fn lemma_matroska_accepts_everything(p: ProjectView)
    requires
        p.streams.len() > 0,
        container_of_output(p.output) == Container::Matroska,
    ensures
        validate_spec(p) == Seq::<IssueView>::empty(),
{
    lemma_matroska_no_findings(p.streams);
    assert(of_severity(Seq::<IssueView>::empty(), Severity::Error) =~= Seq::<IssueView>::empty());
    assert(of_severity(Seq::<IssueView>::empty(), Severity::Warning) =~= Seq::<IssueView>::empty());
}

proof fn lemma_findings_in_range(c: Container, s: Seq<OutStreamView>)
    ensures
        forall|i: int|
            0 <= i < findings(c, s).len() ==> match (#[trigger] findings(c, s)[i]).stream {
                Some(k) => k < s.len(),
                None => false,
            },
    decreases s.len(),
{
    if s.len() > 0 {
        let q = s.drop_last();
        lemma_findings_in_range(c, q);
        let r = findings(c, s);
        assert forall|i: int| 0 <= i < r.len() implies match (#[trigger] r[i]).stream {
            Some(k) => k < s.len(),
            None => false,
        } by {
            if i < findings(c, q).len() {
                assert(r[i] == findings(c, q)[i]);
            }
        }
    }
}

/// Every finding of a non-empty project is about one of its streams.
pub proof fn lemma_findings_name_streams(p: ProjectView)
    requires
        p.streams.len() > 0,
    ensures
        forall|i: int|
            0 <= i < validate_spec(p).len() ==> match (#[trigger] validate_spec(p)[i]).stream {
                Some(k) => k < p.streams.len(),
                None => false,
            },
{
    let c = container_of_output(p.output);
    if c != Container::Other {
        let f = findings(c, p.streams);
        lemma_findings_in_range(c, p.streams);
        lemma_of_severity_sound(f, Severity::Error);
        lemma_of_severity_sound(f, Severity::Warning);
        let e = of_severity(f, Severity::Error);
        let w = of_severity(f, Severity::Warning);
        assert forall|i: int| 0 <= i < validate_spec(p).len() implies match (#[trigger] validate_spec(
            p,
        )[i]).stream {
            Some(k) => k < p.streams.len(),
            None => false,
        } by {
            let x = validate_spec(p)[i];
            if i < e.len() {
                assert(x == e[i]);
                assert(f.contains(e[i]));
            } else {
                assert(x == w[i - e.len()]);
                assert(f.contains(w[i - e.len()]));
            }
        }
    }
}


/// A stream's own finding is among the findings of the list it is in.
proof fn lemma_finding_listed(c: Container, streams: Seq<OutStreamView>, i: int, f: IssueView)
    requires
        0 <= i < streams.len(),
        finding(c, i, streams[i]) == Some(f),
    ensures
        findings(c, streams).contains(f),
    decreases streams.len(),
{
    let q = streams.drop_last();
    if i == streams.len() - 1 {
        assert(findings(c, streams) == findings(c, q).push(f));
        assert(findings(c, q).push(f)[findings(c, q).len() as int] == f);
    } else {
        assert(q[i] == streams[i]);
        lemma_finding_listed(c, q, i, f);
        let j = choose|j: int| 0 <= j < findings(c, q).len() && findings(c, q)[j] == f;
        match finding(c, streams.len() - 1, streams.last()) {
            Some(g) => {
                assert(findings(c, streams) == findings(c, q).push(g));
                assert(findings(c, streams)[j] == f);
            },
            None => {},
        }
    }
}

/// An issue of severity `sev` stays in the issues of that severity.
proof fn lemma_of_severity_keeps(issues: Seq<IssueView>, sev: Severity, f: IssueView)
    requires
        issues.contains(f),
        f.severity == sev,
    ensures
        of_severity(issues, sev).contains(f),
    decreases issues.len(),
{
    let q = issues.drop_last();
    if issues.last() == f {
        assert(of_severity(issues, sev) == of_severity(q, sev).push(f));
        assert(of_severity(q, sev).push(f)[of_severity(q, sev).len() as int] == f);
    } else {
        let j = choose|j: int| 0 <= j < issues.len() && issues[j] == f;
        assert(j < q.len());
        assert(q[j] == f);
        lemma_of_severity_keeps(q, sev, f);
        let k = choose|k: int| 0 <= k < of_severity(q, sev).len() && of_severity(q, sev)[k] == f;
        if issues.last().severity == sev {
            assert(of_severity(issues, sev)[k] == f);
        }
    }
}

/// MP4 and MOV carry only `mov_text` (tx3g) subtitles: bound for MP4, a
/// subtitle stream whose output codec is anything else always gets an error
/// naming that stream.
pub proof fn lemma_mp4_rejects_other_subtitles(streams: Seq<OutStreamView>, i: int)
    requires
        0 <= i < streams.len(),
        streams[i].source.kind == Kind::Subtitle,
        effective(streams[i]) != "mov_text"@,
        effective(streams[i]) != "tx3g"@,
    ensures
        exists|j: int|
            0 <= j < container_findings(Container::Mp4, streams).len() && (#[trigger] container_findings(
                Container::Mp4,
                streams,
            )[j]).severity == Severity::Error && container_findings(Container::Mp4, streams)[j].stream
                == Some(i as usize),
{
    let f = finding(Container::Mp4, i, streams[i]).unwrap();
    assert(finding(Container::Mp4, i, streams[i]) is Some);
    assert(f.severity == Severity::Error && f.stream == Some(i as usize));
    lemma_finding_listed(Container::Mp4, streams, i, f);
    let fs = findings(Container::Mp4, streams);
    lemma_of_severity_keeps(fs, Severity::Error, f);
    let e = of_severity(fs, Severity::Error);
    let k = choose|k: int| 0 <= k < e.len() && e[k] == f;
    let all = container_findings(Container::Mp4, streams);
    assert(all == e + of_severity(fs, Severity::Warning));
    assert(all[k] == f);
}


/// The converse for MP4: a `mov_text` or `tx3g` subtitle draws no finding.
pub proof fn lemma_mp4_accepts_text_subtitles(i: int, s: OutStreamView)
    requires
        s.source.kind == Kind::Subtitle,
        effective(s) == "mov_text"@ || effective(s) == "tx3g"@,
    ensures
        finding(Container::Mp4, i, s) is None,
{
}

} // verus!
