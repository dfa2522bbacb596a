//! The project model the whole editor works on: an ordered list of output
//! streams (`Project::streams`, whose order *is* the output order), the inputs
//! they are drawn from, and where to write. Reorder is reordering that list,
//! remove drops from it (or flags a stream `removed`), extraction builds a
//! one-stream project, and inserting a track appends an input plus a stream
//! that refers to it.

use vstd::prelude::*;
use crate::text::{str_eq, string_of};

verus! {

/// The stream types the editor models. Each has the letter ffmpeg uses in
/// stream specifiers (`0:a:1`, `-c:a:0`, ...).
#[derive(Debug, Clone, Copy, PartialEq, Eq, Structural)]
pub enum Kind {
    Video,
    Audio,
    Subtitle,
    Attachment,
    Data,
}

impl Kind {
    /// The stream-specifier letter of this kind.
    pub open spec fn letter(self) -> char {
        match self {
            Kind::Video => 'v',
            Kind::Audio => 'a',
            Kind::Subtitle => 's',
            Kind::Attachment => 't',
            Kind::Data => 'd',
        }
    }

    /// The kind ffprobe's `codec_type` names, if it is one we model.
    pub open spec fn of_codec_type(s: Seq<char>) -> Option<Kind> {
        if s == "video"@ {
            Some(Kind::Video)
        } else if s == "audio"@ {
            Some(Kind::Audio)
        } else if s == "subtitle"@ {
            Some(Kind::Subtitle)
        } else if s == "attachment"@ {
            Some(Kind::Attachment)
        } else if s == "data"@ {
            Some(Kind::Data)
        } else {
            None
        }
    }

    /// The letter ffmpeg uses in stream specifiers: `0:a:1`, `-c:a:0`, ...
    pub fn spec(self) -> (c: char)
        ensures
            c == self.letter(),
    {
        match self {
            Kind::Video => 'v',
            Kind::Audio => 'a',
            Kind::Subtitle => 's',
            Kind::Attachment => 't',
            Kind::Data => 'd',
        }
    }

    /// Map ffprobe's `codec_type` string onto a `Kind`; types the editor does
    /// not model give `None`, so ingest can skip them.
    pub fn from_codec_type(s: &str) -> (r: Option<Kind>)
        ensures
            r == Kind::of_codec_type(s@),
    {
        if str_eq(s, "video") {
            Some(Kind::Video)
        } else if str_eq(s, "audio") {
            Some(Kind::Audio)
        } else if str_eq(s, "subtitle") {
            Some(Kind::Subtitle)
        } else if str_eq(s, "attachment") {
            Some(Kind::Attachment)
        } else if str_eq(s, "data") {
            Some(Kind::Data)
        } else {
            None
        }
    }
}

/// The characters of an optional string.
pub open spec fn opt_view(o: Option<String>) -> Option<Seq<char>> {
    match o {
        Some(s) => Some(s@),
        None => None,
    }
}

/// A copy of an optional string.
pub fn opt_string_copy(o: &Option<String>) -> (r: Option<String>)
    ensures
        opt_view(r) == opt_view(*o),
{
    match o {
        Some(s) => Some(s.clone()),
        None => None,
    }
}

/// Where an output stream's packets come from.
#[derive(Debug, Clone)]
pub struct Source {
    /// Which `-i` input this comes from (0-based).
    pub input: usize,
    /// Absolute stream index within that input, as ffprobe reports it.
    pub index: usize,
    pub kind: Kind,
    /// The source codec name, e.g. "flac".
    pub codec: String,
    /// The probed source bitrate in kbps, when ffprobe reported one.
    pub bitrate_kbps: Option<u32>,
}

pub struct SourceView {
    pub input: usize,
    pub index: usize,
    pub kind: Kind,
    pub codec: Seq<char>,
    pub bitrate_kbps: Option<u32>,
}

impl View for Source {
    type V = SourceView;

    open spec fn view(&self) -> SourceView {
        SourceView {
            input: self.input,
            index: self.index,
            kind: self.kind,
            codec: self.codec@,
            bitrate_kbps: self.bitrate_kbps,
        }
    }
}

impl Source {
    /// A copy of this source.
    pub fn duplicate(&self) -> (r: Source)
        ensures
            r@ == self@,
    {
        Source {
            input: self.input,
            index: self.index,
            kind: self.kind,
            codec: self.codec.clone(),
            bitrate_kbps: self.bitrate_kbps,
        }
    }
}

/// How a stream is encoded: stream-copied, or re-encoded as audio.
#[derive(Debug, Clone)]
pub enum Encode {
    Copy,
    /// The audio-conversion (re-encode) path.
    Audio { codec: String, bitrate_kbps: Option<u32>, channels: Option<u32> },
}

pub enum EncodeView {
    Copy,
    Audio { codec: Seq<char>, bitrate_kbps: Option<u32>, channels: Option<u32> },
}

impl View for Encode {
    type V = EncodeView;

    open spec fn view(&self) -> EncodeView {
        match self {
            Encode::Copy => EncodeView::Copy,
            Encode::Audio { codec, bitrate_kbps, channels } => EncodeView::Audio {
                codec: codec@,
                bitrate_kbps: *bitrate_kbps,
                channels: *channels,
            },
        }
    }
}

/// The starting point of a conversion: 192 kbps AAC with no channel count,
/// so the source's channel layout is kept.
pub open spec fn default_audio_view() -> EncodeView {
    EncodeView::Audio { codec: "aac"@, bitrate_kbps: Some(192), channels: None }
}

impl Encode {
    /// The starting point of a conversion: 192 kbps AAC, keeping the source
    /// channel layout.
    pub fn default_audio() -> (r: Encode)
        ensures
            r@ == default_audio_view(),
    {
        Encode::Audio { codec: string_of("aac"), bitrate_kbps: Some(192), channels: None }
    }

    /// A copy of this encoding.
    pub fn duplicate(&self) -> (r: Encode)
        ensures
            r@ == self@,
    {
        match self {
            Encode::Copy => Encode::Copy,
            Encode::Audio { codec, bitrate_kbps, channels } => Encode::Audio {
                codec: codec.clone(),
                bitrate_kbps: *bitrate_kbps,
                channels: *channels,
            },
        }
    }
}

/// User-editable tags and flags of a stream. `None` for `language`/`title`
/// emits nothing, so the original tag passes through a copy unchanged.
#[derive(Debug, Clone, PartialEq, Eq)]
pub struct Meta {
    /// ISO 639-2, e.g. "jpn".
    pub language: Option<String>,
    pub title: Option<String>,
    pub default: bool,
    pub forced: bool,
}

pub struct MetaView {
    pub language: Option<Seq<char>>,
    pub title: Option<Seq<char>>,
    pub default: bool,
    pub forced: bool,
}

impl View for Meta {
    type V = MetaView;

    open spec fn view(&self) -> MetaView {
        MetaView {
            language: opt_view(self.language),
            title: opt_view(self.title),
            default: self.default,
            forced: self.forced,
        }
    }
}

impl Default for Meta {
    /// No tags, no flags.
    fn default() -> (r: Meta)
        ensures
            r@ == (MetaView { language: None, title: None, default: false, forced: false }),
    {
        Meta { language: None, title: None, default: false, forced: false }
    }
}

impl Meta {
    /// A copy of these tags and flags.
    pub fn duplicate(&self) -> (r: Meta)
        ensures
            r@ == self@,
    {
        Meta {
            language: opt_string_copy(&self.language),
            title: opt_string_copy(&self.title),
            default: self.default,
            forced: self.forced,
        }
    }
}

/// Whether two optional strings hold the same text.
pub fn opt_str_eq(a: &Option<String>, b: &Option<String>) -> (r: bool)
    ensures
        r == (opt_view(*a) == opt_view(*b)),
{
    match (a, b) {
        (Some(x), Some(y)) => str_eq(x.as_str(), y.as_str()),
        (None, None) => true,
        _ => false,
    }
}

/// One output stream; its position in `Project::streams` is its output order.
#[derive(Debug, Clone)]
pub struct OutStream {
    pub source: Source,
    pub meta: Meta,
    pub encode: Encode,
    /// Pending removal: the stream stays listed but is never mapped.
    pub removed: bool,
    /// The tags as first probed, the baseline the change badges diff against.
    pub orig_meta: Meta,
    /// Synthesized in the editor rather than probed from the file.
    pub added: bool,
}

pub struct OutStreamView {
    pub source: SourceView,
    pub meta: MetaView,
    pub encode: EncodeView,
    pub removed: bool,
    pub orig_meta: MetaView,
    pub added: bool,
}

impl View for OutStream {
    type V = OutStreamView;

    open spec fn view(&self) -> OutStreamView {
        OutStreamView {
            source: self.source@,
            meta: self.meta@,
            encode: self.encode@,
            removed: self.removed,
            orig_meta: self.orig_meta@,
            added: self.added,
        }
    }
}

impl OutStreamView {
    /// Language or title differ from the probed original.
    pub open spec fn tags_differ(self) -> bool {
        self.meta.language != self.orig_meta.language || self.meta.title != self.orig_meta.title
    }

    /// Default or forced differ from the probed original.
    pub open spec fn flags_differ(self) -> bool {
        self.meta.default != self.orig_meta.default || self.meta.forced != self.orig_meta.forced
    }

    /// The stream re-encodes rather than stream-copies.
    pub open spec fn is_converted(self) -> bool {
        self.encode !is Copy
    }
}

impl OutStream {
    /// Mark the stream for removal, or keep it again: only `removed` flips.
    pub fn toggle_removed(&mut self)
        ensures
            final(self)@ == (OutStreamView { removed: !old(self)@.removed, ..old(self)@ }),
    {
        self.removed = !self.removed;
    }

    /// Build a stream: `meta` is also kept as the change baseline, and the
    /// stream starts neither removed nor added.
    pub fn new(source: Source, meta: Meta, encode: Encode) -> (r: OutStream)
        ensures
            r@ == (OutStreamView {
                source: source@,
                meta: meta@,
                encode: encode@,
                removed: false,
                orig_meta: meta@,
                added: false,
            }),
    {
        let orig_meta = meta.duplicate();
        OutStream { source, orig_meta, meta, encode, removed: false, added: false }
    }

    /// Language or title edited away from the probed original.
    pub fn tags_changed(&self) -> (r: bool)
        ensures
            r == self@.tags_differ(),
    {
        !opt_str_eq(&self.meta.language, &self.orig_meta.language) || !opt_str_eq(
            &self.meta.title,
            &self.orig_meta.title,
        )
    }

    /// Default/forced disposition edited away from the probed original.
    pub fn flags_changed(&self) -> (r: bool)
        ensures
            r == self@.flags_differ(),
    {
        self.meta.default != self.orig_meta.default || self.meta.forced != self.orig_meta.forced
    }

    /// This stream re-encodes rather than stream-copies.
    pub fn converted(&self) -> (r: bool)
        ensures
            r == self@.is_converted(),
    {
        match self.encode {
            Encode::Copy => false,
            _ => true,
        }
    }

    /// A copy of this stream.
    pub fn duplicate(&self) -> (r: OutStream)
        ensures
            r@ == self@,
    {
        OutStream {
            source: self.source.duplicate(),
            meta: self.meta.duplicate(),
            encode: self.encode.duplicate(),
            removed: self.removed,
            orig_meta: self.orig_meta.duplicate(),
            added: self.added,
        }
    }
}

/// A freshly built stream shows no change badges: its tags and flags equal
/// the baseline it was built with.
pub proof fn lemma_new_stream_unchanged(source: SourceView, meta: MetaView, encode: EncodeView)
    ensures
        !(OutStreamView {
            source,
            meta,
            encode,
            removed: false,
            orig_meta: meta,
            added: false,
        }).tags_differ(),
        !(OutStreamView {
            source,
            meta,
            encode,
            removed: false,
            orig_meta: meta,
            added: false,
        }).flags_differ(),
{
}

/// One `-i` input and its sync offset.
#[derive(Debug, Clone)]
pub struct Input {
    pub path: String,
    /// Sync offset in whole milliseconds, emitted as `-itsoffset` before this
    /// input's `-i`; positive delays the input, negative advances it.
    pub offset_ms: i64,
}

pub struct InputView {
    pub path: Seq<char>,
    pub offset_ms: i64,
}

impl View for Input {
    type V = InputView;

    open spec fn view(&self) -> InputView {
        InputView { path: self.path@, offset_ms: self.offset_ms }
    }
}

impl Input {
    /// An input with no sync offset.
    pub fn new(path: String) -> (r: Input)
        ensures
            r@ == (InputView { path: path@, offset_ms: 0 }),
    {
        Input { path, offset_ms: 0 }
    }

    /// A copy of this input.
    pub fn duplicate(&self) -> (r: Input)
        ensures
            r@ == self@,
    {
        Input { path: self.path.clone(), offset_ms: self.offset_ms }
    }

    /// Shift the sync offset by `delta_ms` (positive delays the track,
    /// negative advances it), saturating at the bounds of `i64`.
    pub fn nudge_offset_ms(&mut self, delta_ms: i64)
        ensures
            final(self)@ == (InputView { offset_ms: saturating_sum(old(self)@.offset_ms as int, delta_ms as int), ..old(self)@ }),
    {
        let o = self.offset_ms;
        self.offset_ms = if delta_ms > 0 && o > i64::MAX - delta_ms {
            i64::MAX
        } else if delta_ms < 0 && o < i64::MIN - delta_ms {
            i64::MIN
        } else {
            o + delta_ms
        };
    }
}

/// `a + b` clamped to the range of `i64`.
pub open spec fn saturating_sum(a: int, b: int) -> i64 {
    if a + b > i64::MAX {
        i64::MAX
    } else if a + b < i64::MIN {
        i64::MIN
    } else {
        (a + b) as i64
    }
}

/// The whole editing session: inputs, ordered output streams, the container
/// title, where to write, and the primary input's duration.
#[derive(Debug, Clone)]
pub struct Project {
    pub inputs: Vec<Input>,
    pub streams: Vec<OutStream>,
    /// Container-level title tag, seeded from the source.
    pub title: Option<String>,
    pub output: String,
    /// Duration of the primary input in milliseconds, when ffprobe gave one.
    pub duration_ms: Option<u64>,
}

pub struct ProjectView {
    pub inputs: Seq<InputView>,
    pub streams: Seq<OutStreamView>,
    pub title: Option<Seq<char>>,
    pub output: Seq<char>,
    pub duration_ms: Option<u64>,
}

impl View for Project {
    type V = ProjectView;

    open spec fn view(&self) -> ProjectView {
        ProjectView {
            inputs: self.inputs@.map_values(|i: Input| i@),
            streams: self.streams@.map_values(|s: OutStream| s@),
            title: opt_view(self.title),
            output: self.output@,
            duration_ms: self.duration_ms,
        }
    }
}

/// Every stream refers to an input that exists, so no `-map` names a
/// missing `-i`.
pub open spec fn sources_valid(p: ProjectView) -> bool {
    forall|i: int| 0 <= i < p.streams.len() ==> (#[trigger] p.streams[i]).source.input < p.inputs.len()
}

/// A copy of a list of streams.
pub fn copy_streams(v: &Vec<OutStream>) -> (r: Vec<OutStream>)
    ensures
        r@.map_values(|s: OutStream| s@) == v@.map_values(|s: OutStream| s@),
{
    let mut r: Vec<OutStream> = Vec::new();
    let mut i: usize = 0;
    while i < v.len()
        invariant
            i <= v.len(),
            r.len() == i,
            forall|j: int| 0 <= j < i ==> (#[trigger] r@[j])@ == v@[j]@,
        decreases v.len() - i,
    {
        r.push(v[i].duplicate());
        i = i + 1;
    }
    assert(r@.map_values(|s: OutStream| s@) =~= v@.map_values(|s: OutStream| s@));
    r
}

/// A copy of a list of inputs.
pub fn copy_inputs(v: &Vec<Input>) -> (r: Vec<Input>)
    ensures
        r@.map_values(|s: Input| s@) == v@.map_values(|s: Input| s@),
{
    let mut r: Vec<Input> = Vec::new();
    let mut i: usize = 0;
    while i < v.len()
        invariant
            i <= v.len(),
            r.len() == i,
            forall|j: int| 0 <= j < i ==> (#[trigger] r@[j])@ == v@[j]@,
        decreases v.len() - i,
    {
        r.push(v[i].duplicate());
        i = i + 1;
    }
    assert(r@.map_values(|s: Input| s@) =~= v@.map_values(|s: Input| s@));
    r
}

impl Project {
    /// A copy of this project.
    pub fn duplicate(&self) -> (r: Project)
        ensures
            r@ == self@,
    {
        Project {
            inputs: copy_inputs(&self.inputs),
            streams: copy_streams(&self.streams),
            title: opt_string_copy(&self.title),
            output: self.output.clone(),
            duration_ms: self.duration_ms,
        }
    }
}


/// The `codec_type` ffprobe reports for streams of kind `k`.
pub open spec fn ffprobe_type_name(k: Kind) -> Seq<char> {
    match k {
        Kind::Video => "video"@,
        Kind::Audio => "audio"@,
        Kind::Subtitle => "subtitle"@,
        Kind::Attachment => "attachment"@,
        Kind::Data => "data"@,
    }
}

proof fn lemma_type_name_letters()
    ensures
        "video"@.len() == 5 && "video"@[0] == 'v',
        "audio"@.len() == 5 && "audio"@[0] == 'a',
        "subtitle"@.len() == 8,
        "attachment"@.len() == 10,
        "data"@.len() == 4,
{
    reveal_strlit("video");
    reveal_strlit("audio");
    reveal_strlit("subtitle");
    reveal_strlit("attachment");
    reveal_strlit("data");
    assert("video"@ =~= seq!['v', 'i', 'd', 'e', 'o']);
    assert("audio"@ =~= seq!['a', 'u', 'd', 'i', 'o']);
}

/// ffprobe's stream types and the editor's kinds correspond one to one:
/// every kind is recognised from ffprobe's name for it, and a name is
/// recognised as a kind only when it is ffprobe's name for that kind.
pub proof fn lemma_codec_types_match_kinds(k: Kind, s: Seq<char>)
    ensures
        Kind::of_codec_type(ffprobe_type_name(k)) == Some(k),
        Kind::of_codec_type(s) == Some(k) ==> s == ffprobe_type_name(k),
{
    lemma_type_name_letters();
}

} // verus!
