//! Extracting a single stream into its own file.
//!
//! An extraction is just another `Project`: one input, one mapped stream,
//! always stream-copied, written next to the input under a name whose
//! extension matches the stream's codec. `to_args` already leaves per-stream
//! tags out for raw/elementary outputs such as `.ac3` or `.srt`, so choosing
//! the output path is all it takes to get a correct command. Codecs without a
//! clean elementary muxer fall back to single-stream Matroska, which does
//! carry the tags.

use vstd::prelude::*;
use crate::args::{is_raw_extension, takes_stream_tags};
use crate::model::{
    sources_valid,
    Encode, EncodeView, Input, InputView, Kind, OutStream, OutStreamView, Project, ProjectView,
    Source, SourceView,
};
use crate::path::{
    body_start, extension, file_name, file_stem, is_sep, last_dot, last_end, last_start,
    lemma_last_bounds, lemma_stem_of, parent, path_join,
    path_stem, seg_start, sibling, sibling_path, stem_of, trim_end,
};
use crate::text::{dec, digit_char, fmt_u64, has_prefix, lemma_dec_digits, starts_with, str_eq, string_of};

verus! {

/// The file extension that best matches a stream's codec for a copied
/// extract, falling back to single-stream Matroska (`mka`/`mks`/`mkv`).
pub open spec fn natural_ext(kind: Kind, codec: Seq<char>) -> Seq<char> {
    match kind {
        Kind::Audio => if codec == "aac"@ {
            "aac"@
        } else if codec == "ac3"@ {
            "ac3"@
        } else if codec == "eac3"@ {
            "eac3"@
        } else if codec == "dts"@ {
            "dts"@
        } else if codec == "mp3"@ {
            "mp3"@
        } else if codec == "flac"@ {
            "flac"@
        } else if codec == "opus"@ {
            "opus"@
        } else if codec == "vorbis"@ {
            "ogg"@
        } else if codec == "truehd"@ {
            "thd"@
        } else if codec == "alac"@ {
            "m4a"@
        } else if has_prefix(codec, "pcm_"@) {
            "wav"@
        } else {
            "mka"@
        },
        Kind::Video => if codec == "h264"@ {
            "h264"@
        } else if codec == "hevc"@ {
            "hevc"@
        } else if codec == "mpeg2video"@ {
            "m2v"@
        } else {
            "mkv"@
        },
        Kind::Subtitle => if codec == "subrip"@ {
            "srt"@
        } else if codec == "ass"@ || codec == "ssa"@ {
            "ass"@
        } else if codec == "webvtt"@ {
            "vtt"@
        } else if codec == "hdmv_pgs_subtitle"@ {
            "sup"@
        } else {
            "mks"@
        },
        Kind::Attachment | Kind::Data => "bin"@,
    }
}

/// The extension for a copied extract of a `kind` stream in `codec`.
pub fn natural_extension(kind: Kind, codec: &str) -> (r: String)
    ensures
        r@ == natural_ext(kind, codec@),
{
    match kind {
        Kind::Audio => if str_eq(codec, "aac") {
            string_of("aac")
        } else if str_eq(codec, "ac3") {
            string_of("ac3")
        } else if str_eq(codec, "eac3") {
            string_of("eac3")
        } else if str_eq(codec, "dts") {
            string_of("dts")
        } else if str_eq(codec, "mp3") {
            string_of("mp3")
        } else if str_eq(codec, "flac") {
            string_of("flac")
        } else if str_eq(codec, "opus") {
            string_of("opus")
        } else if str_eq(codec, "vorbis") {
            string_of("ogg")
        } else if str_eq(codec, "truehd") {
            string_of("thd")
        } else if str_eq(codec, "alac") {
            string_of("m4a")
        } else if starts_with(codec, "pcm_") {
            string_of("wav")
        } else {
            string_of("mka")
        },
        Kind::Video => if str_eq(codec, "h264") {
            string_of("h264")
        } else if str_eq(codec, "hevc") {
            string_of("hevc")
        } else if str_eq(codec, "mpeg2video") {
            string_of("m2v")
        } else {
            string_of("mkv")
        },
        Kind::Subtitle => if str_eq(codec, "subrip") {
            string_of("srt")
        } else if str_eq(codec, "ass") || str_eq(codec, "ssa") {
            string_of("ass")
        } else if str_eq(codec, "webvtt") {
            string_of("vtt")
        } else if str_eq(codec, "hdmv_pgs_subtitle") {
            string_of("sup")
        } else {
            string_of("mks")
        },
        Kind::Attachment | Kind::Data => string_of("bin"),
    }
}

/// The stem of `p`, or `output` when it has none.
pub open spec fn stem_or_output(p: Seq<char>) -> Seq<char> {
    match file_stem(p) {
        Some(s) => s,
        None => "output"@,
    }
}

/// The label of an extracted stream: its language tag, or `track<idx>` when
/// it has none (or an empty one).
pub open spec fn extract_label(language: Option<Seq<char>>, idx: nat) -> Seq<char> {
    match language {
        Some(l) => if l.len() > 0 {
            l
        } else {
            "track"@ + dec(idx)
        },
        None => "track"@ + dec(idx),
    }
}

/// `/media/movie.mkv` with the eng audio at 1 gives `/media/movie.eng.ac3`:
/// the name `<stem>.<label>.<ext>` in the input's directory.
pub open spec fn extract_path(input: Seq<char>, label: Seq<char>, ext: Seq<char>) -> Seq<char> {
    sibling(input, stem_or_output(input) + "."@ + label + "."@ + ext)
}

/// The output path of extracting `s` (at position `idx`) from `input`.
pub fn extract_output_path(input: &str, s: &OutStream, idx: usize, ext: &str) -> (r: String)
    ensures
        r@ == extract_path(input@, extract_label(s@.meta.language, idx as nat), ext@),
{
    let stem = match path_stem(input) {
        Some(st) => st,
        None => string_of("output"),
    };
    let label = match &s.meta.language {
        Some(l) => if l.as_str().unicode_len() > 0 {
            l.clone()
        } else {
            let mut t = string_of("track");
            let d = fmt_u64(idx as u64);
            t.append(d.as_str());
            t
        },
        None => {
            let mut t = string_of("track");
            let d = fmt_u64(idx as u64);
            t.append(d.as_str());
            t
        },
    };
    let mut name = stem;
    name.append(".");
    name.append(label.as_str());
    name.append(".");
    name.append(ext);
    sibling_path(input, name.as_str())
}

/// Attachments and data streams are pulled out with `-dump_attachment`, not
/// by stream mapping, so they cannot be extracted here.
pub open spec fn extractable_kind(k: Kind) -> bool {
    !(k is Attachment || k is Data)
}

/// What `extract(idx)` gives: `None` for an index out of range, a stream
/// that cannot be extracted, or a stream whose input does not exist;
/// otherwise a one-input, one-stream copy project writing next to the input.
pub open spec fn extract_spec(p: ProjectView, idx: int) -> Option<ProjectView> {
    if !(0 <= idx < p.streams.len()) {
        None
    } else {
        let s = p.streams[idx];
        if !extractable_kind(s.source.kind) || s.source.input >= p.inputs.len() {
            None
        } else {
            let input = p.inputs[s.source.input as int].path;
            let ext = natural_ext(s.source.kind, s.source.codec);
            Some(
                ProjectView {
                    inputs: seq![InputView { path: input, offset_ms: 0 }],
                    streams: seq![
                        OutStreamView {
                            source: SourceView { input: 0, ..s.source },
                            meta: s.meta,
                            encode: EncodeView::Copy,
                            removed: false,
                            orig_meta: s.meta,
                            added: false,
                        },
                    ],
                    title: None,
                    output: extract_path(input, extract_label(s.meta.language, idx as nat), ext),
                    duration_ms: p.duration_ms,
                },
            )
        }
    }
}

impl Project {
    /// Build a single-stream extraction project for `streams[idx]`: the
    /// stream keeps its absolute index but now refers to input 0, is copied
    /// (never re-encoded) with its tags, and the lone input has no offset.
    /// `None` for an out-of-range index, an attachment/data stream, or a
    /// stream whose input is missing.
    pub fn extract(&self, idx: usize) -> (r: Option<Project>)
        ensures
            match r {
                Some(x) => extract_spec(self@, idx as int) == Some(x@) && sources_valid(x@),
                None => extract_spec(self@, idx as int) is None,
            },
    {
        if idx >= self.streams.len() {
            return None;
        }
        let s = &self.streams[idx];
        assert(self@.streams[idx as int] == s@);
        match s.source.kind {
            Kind::Attachment | Kind::Data => {
                return None;
            },
            _ => {},
        }
        if s.source.input >= self.inputs.len() {
            return None;
        }
        let input = self.inputs[s.source.input].path.clone();
        assert(self@.inputs[s.source.input as int] == self.inputs[s.source.input as int]@);
        let ext = natural_extension(s.source.kind, s.source.codec.as_str());
        let output = extract_output_path(input.as_str(), s, idx, ext.as_str());
        let stream = OutStream::new(
            Source {
                input: 0,
                index: s.source.index,
                kind: s.source.kind,
                codec: s.source.codec.clone(),
                bitrate_kbps: s.source.bitrate_kbps,
            },
            s.meta.duplicate(),
            Encode::Copy,
        );
        let mut inputs: Vec<Input> = Vec::new();
        inputs.push(Input::new(input));
        let mut streams: Vec<OutStream> = Vec::new();
        streams.push(stream);
        let x = Project { inputs, streams, title: None, output, duration_ms: self.duration_ms };
        assert(x@.inputs =~= extract_spec(self@, idx as int).unwrap().inputs);
        assert(x@.streams =~= extract_spec(self@, idx as int).unwrap().streams);
        Some(x)
    }
}

/// No `.` and no separator in `e`.
pub open spec fn plain_component(e: Seq<char>) -> bool {
    forall|i: int| 0 <= i < e.len() ==> #[trigger] e[i] != '.' && !is_sep(e[i])
}

/// No separator in `e`.
pub open spec fn no_sep(e: Seq<char>) -> bool {
    forall|i: int| 0 <= i < e.len() ==> !is_sep(#[trigger] e[i])
}

proof fn lemma_natural_ext_plain(kind: Kind, codec: Seq<char>)
    ensures
        plain_component(natural_ext(kind, codec)),
        natural_ext(kind, codec).len() > 0,
{
    reveal_strlit("aac");
    reveal_strlit("ac3");
    reveal_strlit("eac3");
    reveal_strlit("dts");
    reveal_strlit("mp3");
    reveal_strlit("flac");
    reveal_strlit("opus");
    reveal_strlit("ogg");
    reveal_strlit("thd");
    reveal_strlit("m4a");
    reveal_strlit("wav");
    reveal_strlit("mka");
    reveal_strlit("h264");
    reveal_strlit("hevc");
    reveal_strlit("m2v");
    reveal_strlit("mkv");
    reveal_strlit("srt");
    reveal_strlit("ass");
    reveal_strlit("vtt");
    reveal_strlit("sup");
    reveal_strlit("mks");
    reveal_strlit("bin");
}

/// A component that runs from `k` (just after a separator, or at `b`) to
/// `e` without a separator starts at `k`.
proof fn lemma_seg_start_suffix(p: Seq<char>, b: int, k: int, e: int)
    requires
        0 <= b <= k <= e <= p.len(),
        k == b || p[k - 1] == '/',
        forall|i: int| k <= i < e ==> p[i] != '/',
    ensures
        seg_start(p, b, e) == k,
    decreases e - k,
{
    if e > k {
        lemma_seg_start_suffix(p, b, k, e - 1);
    }
}

/// The file name of a relative `name` joined onto a directory is `name`
/// itself, when `name` has no separator, at least two characters and does
/// not end in `.`.
proof fn lemma_file_name_of_join(d: Seq<char>, n: Seq<char>)
    requires
        no_sep(n),
        n.len() >= 2,
        n.last() != '.',
    ensures
        file_name(path_join(d, n)) == Some(n),
{
    reveal_strlit("..");
    let a = if d.len() == 0 || d.last() == '/' {
        d
    } else {
        d + seq!['/']
    };
    let p = path_join(d, n);
    assert(p =~= a + n);
    let b = body_start(p);
    let l = p.len() as int;
    assert(a.len() == 0 || a.last() == '/');
    if a.len() == 0 {
        assert(p[0] == n[0] && p[1] == n[1]);
        assert(b == 0);
    }
    assert(b <= a.len());
    assert forall|i: int| a.len() <= i < l implies p[i] != '/' by {
        assert(p[i] == n[i - a.len()]);
    }
    if a.len() > b {
        assert(p[a.len() - 1] == a.last());
    }
    lemma_seg_start_suffix(p, b, a.len() as int, l);
    assert(p[l - 1] == n.last());
    assert(trim_end(p, b, l) == l);
    assert(last_end(p) == l);
    assert(last_start(p) == a.len());
    assert(p.subrange(a.len() as int, l) =~= n);
    assert(n != ".."@) by {
        assert(".."@.last() == '.');
    }
}

proof fn lemma_last_dot_before(a: Seq<char>, e: Seq<char>)
    requires
        forall|i: int| 0 <= i < e.len() ==> #[trigger] e[i] != '.',
    ensures
        last_dot(a.push('.') + e) == a.len(),
    decreases e.len(),
{
    if e.len() == 0 {
        assert(a.push('.') + e =~= a.push('.'));
    } else {
        assert((a.push('.') + e).drop_last() =~= a.push('.') + e.drop_last());
        assert((a.push('.') + e).last() == e.last());
        lemma_last_dot_before(a, e.drop_last());
    }
}

proof fn lemma_stem_no_sep(p: Seq<char>)
    ensures
        no_sep(stem_or_output(p)),
        stem_or_output(p).len() > 0,
{
    reveal_strlit("output");
    lemma_last_bounds(p);
    match file_name(p) {
        Some(n) => {
            assert(no_sep(n)) by {
                assert forall|i: int| 0 <= i < n.len() implies !is_sep(#[trigger] n[i]) by {
                    assert(n[i] == p[last_start(p) + i]);
                }
            }
            lemma_stem_of(n);
            assert forall|i: int| 0 <= i < stem_of(n).len() implies !is_sep(#[trigger] stem_of(n)[i]) by {
                assert(stem_of(n)[i] == n[i]);
            }
        },
        None => {},
    }
}

/// Extraction and argument rendering compose: an extract's output takes
/// per-stream tags exactly when its codec's natural extension is not a
/// raw/elementary one, so raw extracts get only `-map` and `-c copy` while
/// Matroska fallbacks keep their tags. (The stream's language label is part
/// of the file name; it must not contain a `/`.)
pub proof fn lemma_extract_tags_follow_extension(p: ProjectView, idx: int)
    requires
        extract_spec(p, idx) is Some,
        match p.streams[idx].meta.language {
            Some(l) => no_sep(l),
            None => true,
        },
    ensures
        takes_stream_tags(extract_spec(p, idx).unwrap().output) == !is_raw_extension(
            natural_ext(p.streams[idx].source.kind, p.streams[idx].source.codec),
        ),
{
    reveal_strlit(".");
    reveal_strlit("track");
    let s = p.streams[idx];
    let input = p.inputs[s.source.input as int].path;
    let ext = natural_ext(s.source.kind, s.source.codec);
    let label = extract_label(s.meta.language, idx as nat);
    let stem = stem_or_output(input);
    lemma_natural_ext_plain(s.source.kind, s.source.codec);
    lemma_stem_no_sep(input);
    assert(no_sep(label)) by {
        lemma_dec_digits(idx as nat);
    }
    let name = stem + "."@ + label + "."@ + ext;
    assert(no_sep(name));
    assert(name.last() == ext.last());
    assert(ext[ext.len() - 1] != '.');
    let out = extract_path(input, label, ext);
    match parent(input) {
        Some(d) => lemma_file_name_of_join(d, name),
        None => lemma_file_name_of_join("."@, name),
    }
    assert(file_name(out) == Some(name));
    assert(name =~= (stem + "."@ + label).push('.') + ext);
    lemma_last_dot_before(stem + "."@ + label, ext);
    assert(name.skip(last_dot(name) + 1) =~= ext);
    assert(extension(out) == Some(ext));
}


/// The audio codecs that have an elementary muxer of their own name.
pub open spec fn raw_audio_codec(c: Seq<char>) -> bool {
    ||| c == "aac"@
    ||| c == "ac3"@
    ||| c == "eac3"@
    ||| c == "dts"@
    ||| c == "mp3"@
    ||| c == "flac"@
    ||| c == "opus"@
}

proof fn lemma_three(s: Seq<char>, a: char, b: char, c: char)
    requires
        s =~= seq![a, b, c],
    ensures
        s.len() == 3 && s[0] == a && s[1] == b && s[2] == c,
{
}

proof fn lemma_four(s: Seq<char>, a: char, b: char, c: char, d: char)
    requires
        s =~= seq![a, b, c, d],
    ensures
        s.len() == 4 && s[0] == a && s[1] == b && s[2] == c && s[3] == d,
{
}

proof fn lemma_audio_ext_letters()
    ensures
        "aac"@.len() == 3 && "aac"@[0] == 'a' && "aac"@[1] == 'a' && "aac"@[2] == 'c',
        "ac3"@.len() == 3 && "ac3"@[0] == 'a' && "ac3"@[1] == 'c' && "ac3"@[2] == '3',
        "eac3"@.len() == 4 && "eac3"@[0] == 'e',
        "dts"@.len() == 3 && "dts"@[0] == 'd',
        "mp3"@.len() == 3 && "mp3"@[0] == 'm' && "mp3"@[1] == 'p',
        "flac"@.len() == 4 && "flac"@[0] == 'f',
        "opus"@.len() == 4 && "opus"@[0] == 'o',
        "ogg"@.len() == 3 && "ogg"@[0] == 'o',
        "thd"@.len() == 3 && "thd"@[0] == 't',
        "m4a"@.len() == 3 && "m4a"@[0] == 'm' && "m4a"@[1] == '4',
        "wav"@.len() == 3 && "wav"@[0] == 'w',
        "mka"@.len() == 3 && "mka"@[0] == 'm' && "mka"@[1] == 'k',
{
    reveal_strlit("aac");
    reveal_strlit("ac3");
    reveal_strlit("eac3");
    reveal_strlit("dts");
    reveal_strlit("mp3");
    reveal_strlit("flac");
    reveal_strlit("opus");
    reveal_strlit("ogg");
    reveal_strlit("thd");
    reveal_strlit("m4a");
    reveal_strlit("wav");
    reveal_strlit("mka");
    lemma_three("aac"@, 'a', 'a', 'c');
    lemma_three("ac3"@, 'a', 'c', '3');
    lemma_four("eac3"@, 'e', 'a', 'c', '3');
    lemma_three("dts"@, 'd', 't', 's');
    lemma_three("mp3"@, 'm', 'p', '3');
    lemma_four("flac"@, 'f', 'l', 'a', 'c');
    lemma_four("opus"@, 'o', 'p', 'u', 's');
    lemma_three("ogg"@, 'o', 'g', 'g');
    lemma_three("thd"@, 't', 'h', 'd');
    lemma_three("m4a"@, 'm', '4', 'a');
    lemma_three("wav"@, 'w', 'a', 'v');
    lemma_three("mka"@, 'm', 'k', 'a');
}

/// An audio stream whose codec has its own elementary muxer (AAC, AC-3,
/// E-AC-3, DTS, MP3, FLAC, Opus) is extracted under exactly that codec's
/// name, and no other audio codec is written under it: the extension names
/// the muxer for the stream's own codec.
pub proof fn lemma_raw_audio_extension(c: Seq<char>, e: Seq<char>)
    requires
        raw_audio_codec(e),
    ensures
        natural_ext(Kind::Audio, c) == e <==> c == e,
{
    lemma_audio_ext_letters();
}

} // verus!
