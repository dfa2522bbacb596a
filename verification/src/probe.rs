//! Building a `Project` from what `ffprobe -print_format json -show_format
//! -show_streams` reports. Running ffprobe and decoding its JSON happen
//! around the library; here the decoded streams (shaped like ffprobe's own
//! objects) become copy-encoded output streams, the default output path is
//! chosen, and an external track is embedded into an existing project.

use vstd::prelude::*;
use crate::extract::stem_or_output;
use crate::model::{
    ffprobe_type_name, lemma_codec_types_match_kinds, opt_string_copy, opt_view, sources_valid, Encode, EncodeView, Input, InputView, Kind, Meta, MetaView, OutStream,
    OutStreamView, Project, ProjectView, Source, SourceView,
};
use crate::path::{path_stem, sibling, sibling_path};
use crate::text::{chars_of, string_of};

verus! {

/// A stream's `tags` object, as ffprobe reports it.
#[derive(Debug, Clone, Default)]
pub struct ProbeTags {
    pub language: Option<String>,
    pub title: Option<String>,
}

/// A stream's `disposition` object; ffprobe reports each flag as 0 or 1.
#[derive(Debug, Clone, Default)]
pub struct ProbeDisposition {
    pub default: u8,
    pub forced: u8,
}

/// One entry of ffprobe's `streams` array.
#[derive(Debug, Clone)]
pub struct ProbeStream {
    pub index: usize,
    pub codec_type: String,
    pub codec_name: String,
    /// Bits per second as a decimal string, e.g. "128000"; absent for some
    /// streams.
    pub bit_rate: Option<String>,
    pub tags: ProbeTags,
    pub disposition: ProbeDisposition,
}

pub struct ProbeStreamView {
    pub index: usize,
    pub codec_type: Seq<char>,
    pub codec_name: Seq<char>,
    pub bit_rate: Option<Seq<char>>,
    pub language: Option<Seq<char>>,
    pub title: Option<Seq<char>>,
    pub default: u8,
    pub forced: u8,
}

impl View for ProbeStream {
    type V = ProbeStreamView;

    open spec fn view(&self) -> ProbeStreamView {
        ProbeStreamView {
            index: self.index,
            codec_type: self.codec_type@,
            codec_name: self.codec_name@,
            bit_rate: opt_view(self.bit_rate),
            language: opt_view(self.tags.language),
            title: opt_view(self.tags.title),
            default: self.disposition.default,
            forced: self.disposition.forced,
        }
    }
}

/// The value of a run of decimal digits.
pub open spec fn digits_value(s: Seq<char>) -> nat
    decreases s.len(),
{
    if s.len() == 0 {
        0
    } else {
        digits_value(s.drop_last()) * 10 + ((s.last() as u32) - 48) as nat
    }
}

/// Every character is an ASCII digit.
pub open spec fn all_digits(s: Seq<char>) -> bool {
    forall|i: int| 0 <= i < s.len() ==> '0' <= #[trigger] s[i] <= '9'
}

/// What `s.parse::<u64>()` accepts: an optional `+` then one or more
/// decimal digits, with a value that fits in 64 bits.
pub open spec fn parse_u64_spec(s: Seq<char>) -> Option<u64> {
    let d = if s.len() > 0 && s[0] == '+' {
        s.skip(1)
    } else {
        s
    };
    if d.len() > 0 && all_digits(d) && digits_value(d) <= u64::MAX {
        Some(digits_value(d) as u64)
    } else {
        None
    }
}

proof fn lemma_digits_value_take(d: Seq<char>, i: int)
    requires
        0 <= i < d.len(),
        all_digits(d),
    ensures
        digits_value(d.take(i + 1)) == digits_value(d.take(i)) * 10 + ((d[i] as u32) - 48) as nat,
{
    assert(d.take(i + 1).drop_last() =~= d.take(i));
}

proof fn lemma_digits_value_mono(d: Seq<char>, i: int)
    requires
        0 <= i <= d.len(),
        all_digits(d),
    ensures
        digits_value(d.take(i)) <= digits_value(d),
    decreases d.len() - i,
{
    if i < d.len() {
        lemma_digits_value_take(d, i);
        lemma_digits_value_mono(d, i + 1);
    } else {
        assert(d.take(i) =~= d);
    }
}

/// `str::parse::<u64>`.
pub fn parse_u64(s: &str) -> (r: Option<u64>)
    ensures
        r == parse_u64_spec(s@),
{
    let v = chars_of(s);
    let start: usize = if v.len() > 0 && v[0] == '+' { 1 } else { 0 };
    let ghost d = if s@.len() > 0 && s@[0] == '+' { s@.skip(1) } else { s@ };
    assert(d =~= v@.skip(start as int));
    if start >= v.len() {
        return None;
    }
    let mut acc: u64 = 0;
    let mut i = start;
    while i < v.len()
        invariant
            start <= i <= v.len(),
            v@ == s@,
            d == v@.skip(start as int),
            d == (if s@.len() > 0 && s@[0] == '+' { s@.skip(1) } else { s@ }),
            forall|j: int| 0 <= j < i - start ==> '0' <= #[trigger] d[j] <= '9',
            acc as nat == digits_value(d.take(i - start)),
        decreases v.len() - i,
    {
        let c = v[i];
        if !('0' <= c && c <= '9') {
            assert(!all_digits(d)) by {
                assert(d[i - start] == c);
            }
            return None;
        }
        let digit: u64 = (c as u32 - 48) as u64;
        assert(d[i - start] == c);
        assert(d.take(i - start + 1).drop_last() =~= d.take(i - start));
        if acc > (u64::MAX - digit) / 10 {
            assert(digits_value(d.take(i - start + 1)) > u64::MAX) by (nonlinear_arith)
                requires
                    acc > (u64::MAX - digit) / 10,
                    digits_value(d.take(i - start + 1)) == acc * 10 + digit,
            ;
            proof {
                if all_digits(d) {
                    lemma_digits_value_mono(d, i - start + 1);
                }
            }
            return None;
        }
        acc = acc * 10 + digit;
        i = i + 1;
    }
    assert(d.take(v.len() - start) =~= d);
    Some(acc)
}

/// A source bitrate in bits/second as kbps, rounded to nearest (the
/// conversion truncates to 32 bits).
pub open spec fn kbps_of(bps: u64) -> u32 {
    ((bps + 500) / 1000) as u32
}

/// The probed bitrate in kbps: `None` when absent or not a decimal number.
pub open spec fn bitrate_kbps_spec(bit_rate: Option<Seq<char>>) -> Option<u32> {
    match bit_rate {
        Some(b) => match parse_u64_spec(b) {
            Some(bps) => Some(kbps_of(bps)),
            None => None,
        },
        None => None,
    }
}

/// A probed bitrate leaves room for the rounding addition (`bps + 500`
/// does not overflow 64 bits).
pub open spec fn bitrate_in_range(bit_rate: Option<Seq<char>>) -> bool {
    match bit_rate {
        Some(b) => match parse_u64_spec(b) {
            Some(bps) => bps <= u64::MAX - 500,
            None => true,
        },
        None => true,
    }
}

fn probe_bitrate_kbps(bit_rate: &Option<String>) -> (r: Option<u32>)
    requires
        bitrate_in_range(opt_view(*bit_rate)),
    ensures
        r == bitrate_kbps_spec(opt_view(*bit_rate)),
{
    match bit_rate {
        Some(b) => match parse_u64(b.as_str()) {
            Some(bps) => Some(((bps + 500) / 1000) as u32),
            None => None,
        },
        None => None,
    }
}

/// The output stream a probed stream becomes, drawn from input `input`.
pub open spec fn probed_stream(rs: ProbeStreamView, kind: Kind, input: usize) -> OutStreamView {
    let meta = MetaView {
        language: rs.language,
        title: rs.title,
        default: rs.default != 0,
        forced: rs.forced != 0,
    };
    OutStreamView {
        source: SourceView {
            input,
            index: rs.index,
            kind,
            codec: rs.codec_name,
            bitrate_kbps: bitrate_kbps_spec(rs.bit_rate),
        },
        meta,
        encode: EncodeView::Copy,
        removed: false,
        orig_meta: meta,
        added: false,
    }
}

/// The probed streams as copy-encoded output streams of input `input`, in
/// order, skipping stream types the editor does not model.
pub open spec fn probe_map(raws: Seq<ProbeStreamView>, input: usize) -> Seq<OutStreamView>
    decreases raws.len(),
{
    if raws.len() == 0 {
        Seq::empty()
    } else {
        let rest = probe_map(raws.drop_last(), input);
        match Kind::of_codec_type(raws.last().codec_type) {
            Some(k) => rest.push(probed_stream(raws.last(), k, input)),
            None => rest,
        }
    }
}

/// Every mapped stream is drawn from input `input`.
pub proof fn lemma_probe_map_input(raws: Seq<ProbeStreamView>, input: usize)
    ensures
        forall|i: int|
            0 <= i < probe_map(raws, input).len() ==> (#[trigger] probe_map(raws, input)[i]).source.input
                == input,
    decreases raws.len(),
{
    if raws.len() > 0 {
        lemma_probe_map_input(raws.drop_last(), input);
        let q = probe_map(raws.drop_last(), input);
        assert forall|i: int| 0 <= i < probe_map(raws, input).len() implies (#[trigger] probe_map(
            raws,
            input,
        )[i]).source.input == input by {
            if i < q.len() {
                assert(probe_map(raws, input)[i] == q[i]);
            }
        }
    }
}

proof fn lemma_embeddable_subset(s: Seq<OutStreamView>)
    ensures
        forall|i: int| 0 <= i < embeddable(s).len() ==> s.contains(#[trigger] embeddable(s)[i]),
    decreases s.len(),
{
    if s.len() > 0 {
        let q = s.drop_last();
        lemma_embeddable_subset(q);
        assert forall|i: int| 0 <= i < embeddable(s).len() implies s.contains(
            #[trigger] embeddable(s)[i],
        ) by {
            if i < embeddable(q).len() {
                assert(embeddable(s)[i] == embeddable(q)[i]);
                let j = choose|j: int| 0 <= j < q.len() && q[j] == embeddable(q)[i];
                assert(s[j] == q[j]);
            } else {
                assert(s[s.len() - 1] == s.last());
            }
        }
    }
}

/// Every probed bitrate leaves room for rounding.
pub open spec fn probe_rates_fit(raws: Seq<ProbeStreamView>) -> bool {
    forall|i: int| 0 <= i < raws.len() ==> bitrate_in_range(#[trigger] raws[i].bit_rate)
}

/// The views of a list of probed streams.
pub open spec fn probe_view(v: Seq<ProbeStream>) -> Seq<ProbeStreamView> {
    v.map_values(|x: ProbeStream| x@)
}

/// The views of a list of streams.
pub open spec fn streams_view(v: Seq<OutStream>) -> Seq<OutStreamView> {
    v.map_values(|x: OutStream| x@)
}

/// Map ffprobe's stream list onto output streams of input `input`, each
/// copy-encoded, skipping types the editor does not model; probed streams
/// are neither removed nor added.
pub fn map_probe_streams(streams: &Vec<ProbeStream>, input: usize) -> (r: Vec<OutStream>)
    requires
        probe_rates_fit(probe_view(streams@)),
    ensures
        streams_view(r@) == probe_map(probe_view(streams@), input),
{
    let ghost raws = probe_view(streams@);
    let mut out: Vec<OutStream> = Vec::new();
    let mut i: usize = 0;
    while i < streams.len()
        invariant
            raws == probe_view(streams@),
            probe_rates_fit(raws),
            i <= streams.len(),
            streams_view(out@) == probe_map(raws.take(i as int), input),
        decreases streams.len() - i,
    {
        let rs = &streams[i];
        assert(raws[i as int] == rs@);
        assert(raws.take(i + 1).drop_last() =~= raws.take(i as int));
        match Kind::from_codec_type(rs.codec_type.as_str()) {
            Some(kind) => {
                assert(bitrate_in_range(raws[i as int].bit_rate));
                let s = OutStream::new(
                    Source {
                        input,
                        index: rs.index,
                        kind,
                        codec: rs.codec_name.clone(),
                        bitrate_kbps: probe_bitrate_kbps(&rs.bit_rate),
                    },
                    Meta {
                        language: opt_string_copy(&rs.tags.language),
                        title: opt_string_copy(&rs.tags.title),
                        default: rs.disposition.default != 0,
                        forced: rs.disposition.forced != 0,
                    },
                    Encode::Copy,
                );
                let ghost before = streams_view(out@);
                out.push(s);
                assert(streams_view(out@) =~= before.push(s@));
            },
            None => {},
        }
        i = i + 1;
    }
    assert(raws.take(streams.len() as int) =~= raws);
    out
}

/// `movie.mkv` becomes `movie.remux.mkv`, in the same directory.
pub open spec fn default_output(file: Seq<char>) -> Seq<char> {
    sibling(file, stem_or_output(file) + ".remux.mkv"@)
}

/// The default output path for a project built from `file`.
pub fn default_output_path(file: &str) -> (r: String)
    ensures
        r@ == default_output(file@),
{
    let mut name = match path_stem(file) {
        Some(st) => st,
        None => string_of("output"),
    };
    name.append(".remux.mkv");
    sibling_path(file, name.as_str())
}

/// The project built from probing `file`: every modeled source stream kept
/// in source order and copy-encoded, the source's container title, output
/// next to the input as `<stem>.remux.mkv`.
pub open spec fn from_probe_spec(
    file: Seq<char>,
    raws: Seq<ProbeStreamView>,
    title: Option<Seq<char>>,
    duration_ms: Option<u64>,
) -> ProjectView {
    ProjectView {
        inputs: seq![InputView { path: file, offset_ms: 0 }],
        streams: probe_map(raws, 0),
        title,
        output: default_output(file),
        duration_ms,
    }
}

impl Project {
    /// Build the initial project from what probing `file` reported: its
    /// streams, its container `title` tag, and its duration.
    pub fn from_probe(
        file: &str,
        streams: &Vec<ProbeStream>,
        title: Option<String>,
        duration_ms: Option<u64>,
    ) -> (r: Project)
        requires
            probe_rates_fit(probe_view(streams@)),
        ensures
            r@ == from_probe_spec(file@, probe_view(streams@), opt_view(title), duration_ms),
            sources_valid(r@),
    {
        let out = map_probe_streams(streams, 0);
        let mut inputs: Vec<Input> = Vec::new();
        inputs.push(Input::new(string_of(file)));
        let p = Project {
            inputs,
            streams: out,
            title,
            output: default_output_path(file),
            duration_ms,
        };
        assert(p@.inputs =~= seq![InputView { path: file@, offset_ms: 0 }]);
        proof {
            lemma_probe_map_input(probe_view(streams@), 0);
        }
        p
    }
}

/// The audio and subtitle streams of `s`, in order.
pub open spec fn embeddable(s: Seq<OutStreamView>) -> Seq<OutStreamView>
    decreases s.len(),
{
    if s.len() == 0 {
        Seq::empty()
    } else if s.last().source.kind is Audio || s.last().source.kind is Subtitle {
        embeddable(s.drop_last()).push(s.last())
    } else {
        embeddable(s.drop_last())
    }
}

/// The error for a file with no audio or subtitle track.
pub open spec fn no_track_message(file: Seq<char>) -> Seq<char> {
    file + " has no audio or subtitle track to embed."@
}

/// The error for a file with more than one audio/subtitle track.
pub open spec fn many_tracks_message(file: Seq<char>) -> Seq<char> {
    file + " has multiple tracks — embed a file with a single audio or subtitle track."@
}

impl Project {
    /// Embed the single audio or subtitle track of a probed `file` as a new
    /// input, returning the position of the appended stream. Incidental
    /// video (cover art) and attachment/data streams are ignored. With no
    /// such track, or more than one, the project is left unchanged and the
    /// error says why — so no orphan `-i` is ever added.
    pub fn embed_probed(&mut self, file: &str, streams: &Vec<ProbeStream>) -> (r: Result<
        usize,
        String,
    >)
        requires
            probe_rates_fit(probe_view(streams@)),
        ensures
            ({
                let e = embeddable(probe_map(probe_view(streams@), old(self)@.inputs.len() as usize));
                match r {
                    Ok(at) => e.len() == 1 && at == old(self)@.streams.len() && final(self)@ == (
                    ProjectView {
                        inputs: old(self)@.inputs.push(InputView { path: file@, offset_ms: 0 }),
                        streams: old(self)@.streams.push(OutStreamView { added: true, ..e[0] }),
                        ..old(self)@
                    }),
                    Err(msg) => final(self)@ == old(self)@ && (if e.len() == 0 {
                        msg@ == no_track_message(file@)
                    } else {
                        e.len() > 1 && msg@ == many_tracks_message(file@)
                    }),
                }
            }),
            sources_valid(old(self)@) ==> sources_valid(final(self)@),
    {
        let idx = self.inputs.len();
        let mapped = map_probe_streams(streams, idx);
        let ghost m = streams_view(mapped@);
        let mut found: Vec<OutStream> = Vec::new();
        let mut i: usize = 0;
        while i < mapped.len()
            invariant
                m == streams_view(mapped@),
                i <= mapped.len(),
                streams_view(found@) == embeddable(m.take(i as int)),
            decreases mapped.len() - i,
        {
            assert(m[i as int] == mapped[i as int]@);
            assert(m.take(i + 1).drop_last() =~= m.take(i as int));
            match mapped[i].source.kind {
                Kind::Audio | Kind::Subtitle => {
                    let ghost before = streams_view(found@);
                    found.push(mapped[i].duplicate());
                    assert(streams_view(found@) =~= before.push(m[i as int]));
                },
                _ => {},
            }
            i = i + 1;
        }
        assert(m.take(mapped.len() as int) =~= m);
        if found.len() == 0 {
            let mut msg = string_of(file);
            msg.append(" has no audio or subtitle track to embed.");
            return Err(msg);
        }
        if found.len() > 1 {
            let mut msg = string_of(file);
            msg.append(" has multiple tracks — embed a file with a single audio or subtitle track.");
            return Err(msg);
        }
        let mut stream = found[0].duplicate();
        assert(streams_view(found@)[0] == found[0]@);
        stream.added = true;
        let at = self.streams.len();
        let ghost old_inputs = self@.inputs;
        let ghost old_streams = self@.streams;
        self.inputs.push(Input::new(string_of(file)));
        self.streams.push(stream);
        assert(self@.inputs =~= old_inputs.push(InputView { path: file@, offset_ms: 0 }));
        assert(self@.streams =~= old_streams.push(stream@));
        proof {
            let e = embeddable(m);
            lemma_embeddable_subset(m);
            lemma_probe_map_input(probe_view(streams@), idx);
            assert(e.len() == 1);
            assert(m.contains(e[0]));
            assert(stream@.source.input == idx);
            if sources_valid(old(self)@) {
                assert forall|k: int| 0 <= k < self@.streams.len() implies (
                #[trigger] self@.streams[k]).source.input < self@.inputs.len() by {
                    if k < old_streams.len() {
                        assert(self@.streams[k] == old_streams[k]);
                    }
                }
            }
        }
        Ok(at)
    }
}


/// Probing keeps every stream of the five types the editor models, in
/// order: each becomes one output stream with the same absolute index, of
/// the kind its `codec_type` names.
pub proof fn lemma_probe_keeps_modeled_streams(raws: Seq<ProbeStreamView>, input: usize)
    requires
        forall|i: int| 0 <= i < raws.len() ==> exists|k: Kind| (#[trigger] raws[i]).codec_type == ffprobe_type_name(k),
    ensures
        probe_map(raws, input).len() == raws.len(),
        forall|i: int|
            0 <= i < raws.len() ==> (#[trigger] probe_map(raws, input)[i]).source.index == raws[i].index
                && ffprobe_type_name(probe_map(raws, input)[i].source.kind) == raws[i].codec_type,
    decreases raws.len(),
{
    if raws.len() > 0 {
        let q = raws.drop_last();
        assert forall|i: int| 0 <= i < q.len() implies exists|k: Kind| (#[trigger] q[i]).codec_type
            == ffprobe_type_name(k) by {
            assert(q[i] == raws[i]);
        }
        lemma_probe_keeps_modeled_streams(q, input);
        let last = raws.last();
        assert(raws[raws.len() - 1] == last);
        let k = choose|k: Kind| last.codec_type == ffprobe_type_name(k);
        lemma_codec_types_match_kinds(k, last.codec_type);
        let r = probe_map(raws, input);
        let rq = probe_map(q, input);
        assert(r == rq.push(probed_stream(last, k, input)));
        assert forall|i: int| 0 <= i < raws.len() implies (#[trigger] r[i]).source.index == raws[i].index
            && ffprobe_type_name(r[i].source.kind) == raws[i].codec_type by {
            if i < q.len() {
                assert(r[i] == rq[i]);
                assert(raws[i] == q[i]);
            }
        }
    }
}

} // verus!
