//! Rendering a `Project` as ffmpeg's argument vector.
//!
//! The rule that matters most: output stream indices are assigned *per type,
//! in `-map` order*. The second audio stream mapped is `:a:1` for every later
//! option, whatever its source index. So the streams are walked in output
//! order with one counter per type, and every `-c` / `-metadata` /
//! `-disposition` uses that output index.

use vstd::prelude::*;
use crate::model::{
    EncodeView, InputView, Kind, Meta, MetaView, OutStream, OutStreamView, Project, ProjectView, Encode,
};
use crate::path::{extension, path_extension};
use crate::text::{
    ascii_ci_eq, dec, digit_char, eq_ignore_ascii_case, fmt_u64, lemma_dec_digits, lemma_dec_injective,
    lemma_dec_nonempty, push_char, string_of,
};

verus! {

/// An extension (compared ASCII case-insensitively) of a raw/elementary
/// muxer, which rejects per-stream metadata and disposition.
pub open spec fn is_raw_extension(e: Seq<char>) -> bool {
    ||| ascii_ci_eq(e, "aac"@)
    ||| ascii_ci_eq(e, "ac3"@)
    ||| ascii_ci_eq(e, "eac3"@)
    ||| ascii_ci_eq(e, "dts"@)
    ||| ascii_ci_eq(e, "mp3"@)
    ||| ascii_ci_eq(e, "flac"@)
    ||| ascii_ci_eq(e, "opus"@)
    ||| ascii_ci_eq(e, "ogg"@)
    ||| ascii_ci_eq(e, "wav"@)
    ||| ascii_ci_eq(e, "thd"@)
    ||| ascii_ci_eq(e, "h264"@)
    ||| ascii_ci_eq(e, "264"@)
    ||| ascii_ci_eq(e, "h265"@)
    ||| ascii_ci_eq(e, "hevc"@)
    ||| ascii_ci_eq(e, "265"@)
    ||| ascii_ci_eq(e, "av1"@)
    ||| ascii_ci_eq(e, "obu"@)
    ||| ascii_ci_eq(e, "srt"@)
    ||| ascii_ci_eq(e, "ass"@)
    ||| ascii_ci_eq(e, "ssa"@)
    ||| ascii_ci_eq(e, "vtt"@)
    ||| ascii_ci_eq(e, "sup"@)
    ||| ascii_ci_eq(e, "sub"@)
}

/// Whether an output path's container accepts per-stream tags: anything but
/// a raw/elementary extension does.
pub open spec fn takes_stream_tags(output: Seq<char>) -> bool {
    match extension(output) {
        Some(e) => !is_raw_extension(e),
        None => true,
    }
}

/// Whether the output container accepts per-stream metadata and disposition.
pub fn output_takes_stream_tags(output: &str) -> (r: bool)
    ensures
        r == takes_stream_tags(output@),
{
    match path_extension(output) {
        None => true,
        Some(e) => {
            let e = e.as_str();
            !(eq_ignore_ascii_case(e, "aac") || eq_ignore_ascii_case(e, "ac3")
                || eq_ignore_ascii_case(e, "eac3") || eq_ignore_ascii_case(e, "dts")
                || eq_ignore_ascii_case(e, "mp3") || eq_ignore_ascii_case(e, "flac")
                || eq_ignore_ascii_case(e, "opus") || eq_ignore_ascii_case(e, "ogg")
                || eq_ignore_ascii_case(e, "wav") || eq_ignore_ascii_case(e, "thd")
                || eq_ignore_ascii_case(e, "h264") || eq_ignore_ascii_case(e, "264")
                || eq_ignore_ascii_case(e, "h265") || eq_ignore_ascii_case(e, "hevc")
                || eq_ignore_ascii_case(e, "265") || eq_ignore_ascii_case(e, "av1")
                || eq_ignore_ascii_case(e, "obu") || eq_ignore_ascii_case(e, "srt")
                || eq_ignore_ascii_case(e, "ass") || eq_ignore_ascii_case(e, "ssa")
                || eq_ignore_ascii_case(e, "vtt") || eq_ignore_ascii_case(e, "sup")
                || eq_ignore_ascii_case(e, "sub"))
        },
    }
}

/// Three decimal digits of `r` in `0..1000`, zero-padded.
pub open spec fn pad3(r: int) -> Seq<char> {
    seq![digit_char(r / 100), digit_char((r / 10) % 10), digit_char(r % 10)]
}

/// A millisecond offset in seconds with exactly three decimals and a `.`
/// point, e.g. `-200` as `-0.200`.
pub open spec fn fmt_ms(ms: int) -> Seq<char> {
    let a = if ms < 0 { -ms } else { ms };
    (if ms < 0 { seq!['-'] } else { Seq::empty() }) + dec((a / 1000) as nat) + seq!['.'] + pad3(
        a % 1000,
    )
}

/// Render a millisecond offset the way `-itsoffset` takes it.
pub fn fmt_offset(ms: i64) -> (r: String)
    ensures
        r@ == fmt_ms(ms as int),
{
    let a: u64 = if ms < 0 { ((-(ms + 1)) as u64) + 1 } else { ms as u64 };
    let mut r = String::new();
    if ms < 0 {
        push_char(&mut r, '-');
    }
    let w = fmt_u64(a / 1000);
    r.append(w.as_str());
    push_char(&mut r, '.');
    let f = a % 1000;
    push_char(&mut r, (((f / 100) as u8) + 48) as char);
    push_char(&mut r, ((((f / 10) % 10) as u8) + 48) as char);
    push_char(&mut r, (((f % 10) as u8) + 48) as char);
    assert(r@ =~= fmt_ms(ms as int));
    r
}

/// The tokens one input contributes: `-itsoffset <secs>` when it has a
/// nonzero offset, then `-i <path>`.
pub open spec fn input_tokens(i: InputView) -> Seq<Seq<char>> {
    (if i.offset_ms != 0 {
        seq!["-itsoffset"@, fmt_ms(i.offset_ms as int)]
    } else {
        Seq::empty()
    }) + seq!["-i"@, i.path]
}

/// The input tokens of all inputs, in order.
pub open spec fn inputs_args(inputs: Seq<InputView>) -> Seq<Seq<char>>
    decreases inputs.len(),
{
    if inputs.len() == 0 {
        Seq::empty()
    } else {
        inputs_args(inputs.drop_last()) + input_tokens(inputs.last())
    }
}

/// The streams not marked for removal, in order.
pub open spec fn live(streams: Seq<OutStreamView>) -> Seq<OutStreamView>
    decreases streams.len(),
{
    if streams.len() == 0 {
        Seq::empty()
    } else if streams.last().removed {
        live(streams.drop_last())
    } else {
        live(streams.drop_last()).push(streams.last())
    }
}

/// The `-map` value of a stream: `<input>:<absolute index>`.
pub open spec fn map_value(s: OutStreamView) -> Seq<char> {
    dec(s.source.input as nat) + ":"@ + dec(s.source.index as nat)
}

/// One `-map` pair per stream, in order.
pub open spec fn maps_args(streams: Seq<OutStreamView>) -> Seq<Seq<char>>
    decreases streams.len(),
{
    if streams.len() == 0 {
        Seq::empty()
    } else {
        maps_args(streams.drop_last()) + seq!["-map"@, map_value(streams.last())]
    }
}

/// How many of `streams` are of kind `k`.
pub open spec fn kind_count(streams: Seq<OutStreamView>, k: Kind) -> nat
    decreases streams.len(),
{
    if streams.len() == 0 {
        0
    } else {
        kind_count(streams.drop_last(), k) + (if streams.last().source.kind == k {
            1nat
        } else {
            0nat
        })
    }
}

/// The output stream specifier `<letter>:<n>`, e.g. `a:1`.
pub open spec fn stream_spec(k: Kind, n: nat) -> Seq<char> {
    seq![k.letter(), ':'] + dec(n)
}

/// The codec options of a stream at specifier `sp`.
pub open spec fn codec_tokens(e: EncodeView, sp: Seq<char>) -> Seq<Seq<char>> {
    match e {
        EncodeView::Copy => seq!["-c:"@ + sp, "copy"@],
        EncodeView::Audio { codec, bitrate_kbps, channels } => seq!["-c:"@ + sp, codec] + (match bitrate_kbps {
            Some(b) => seq!["-b:"@ + sp, dec(b as nat) + "k"@],
            None => Seq::empty(),
        }) + (match channels {
            Some(c) => seq!["-ac:"@ + sp, dec(c as nat)],
            None => Seq::empty(),
        }),
    }
}

/// The disposition value: the set flags joined by `+`, or `0` when none is
/// set (so a reorder never leaves a stale flag on another stream).
pub open spec fn disposition_value(m: MetaView) -> Seq<char> {
    if m.default && m.forced {
        "default+forced"@
    } else if m.default {
        "default"@
    } else if m.forced {
        "forced"@
    } else {
        "0"@
    }
}

/// The tag options of a stream at specifier `sp`: language and title when
/// set, then the disposition, always.
pub open spec fn tag_tokens(m: MetaView, sp: Seq<char>) -> Seq<Seq<char>> {
    (match m.language {
        Some(l) => seq!["-metadata:s:"@ + sp, "language="@ + l],
        None => Seq::empty(),
    }) + (match m.title {
        Some(t) => seq!["-metadata:s:"@ + sp, "title="@ + t],
        None => Seq::empty(),
    }) + seq!["-disposition:"@ + sp, disposition_value(m)]
}

/// Attachments and data streams take no metadata or disposition.
pub open spec fn kind_takes_tags(k: Kind) -> bool {
    !(k is Attachment || k is Data)
}

/// The options of one stream that is the `n`-th of its kind in map order.
pub open spec fn stream_tokens(s: OutStreamView, n: nat, emit_tags: bool) -> Seq<Seq<char>> {
    let sp = stream_spec(s.source.kind, n);
    codec_tokens(s.encode, sp) + (if emit_tags && kind_takes_tags(s.source.kind) {
        tag_tokens(s.meta, sp)
    } else {
        Seq::empty()
    })
}

/// The per-stream options of `streams` in order, each numbered among the
/// earlier streams of its kind.
pub open spec fn options_args(streams: Seq<OutStreamView>, emit_tags: bool) -> Seq<Seq<char>>
    decreases streams.len(),
{
    if streams.len() == 0 {
        Seq::empty()
    } else {
        options_args(streams.drop_last(), emit_tags) + stream_tokens(
            streams.last(),
            kind_count(streams.drop_last(), streams.last().source.kind),
            emit_tags,
        )
    }
}

/// The container title option: `-metadata title=<t>` when a title is set
/// and the output container takes tags; nothing otherwise (an unset title
/// lets the source's own title pass through the copy, and raw/elementary
/// outputs take no metadata at all).
pub open spec fn title_tokens(title: Option<Seq<char>>, emit_tags: bool) -> Seq<Seq<char>> {
    match title {
        Some(t) => if emit_tags {
            seq!["-metadata"@, "title="@ + t]
        } else {
            Seq::empty()
        },
        None => Seq::empty(),
    }
}

/// The whole ffmpeg argument vector of a project: inputs, maps, per-stream
/// options, the container title, then the output path.
pub open spec fn ffmpeg_args(p: ProjectView) -> Seq<Seq<char>> {
    inputs_args(p.inputs) + maps_args(live(p.streams)) + options_args(
        live(p.streams),
        takes_stream_tags(p.output),
    ) + title_tokens(p.title, takes_stream_tags(p.output)) + seq![p.output]
}

/// Append one token.
fn push_token(a: &mut Vec<String>, s: String)
    ensures
        final(a).deep_view() == old(a).deep_view().push(s@),
{
    a.push(s);
    assert(a.deep_view() =~= old(a).deep_view().push(s@));
}

/// A token made of `lit` followed by `tail`.
fn cat(lit: &str, tail: &str) -> (r: String)
    ensures
        r@ == lit@ + tail@,
{
    let mut r = string_of(lit);
    r.append(tail);
    r
}

/// The output specifier `<letter>:<n>`.
fn spec_token(k: Kind, n: usize) -> (r: String)
    ensures
        r@ == stream_spec(k, n as nat),
{
    let mut r = String::new();
    push_char(&mut r, k.spec());
    push_char(&mut r, ':');
    let d = fmt_u64(n as u64);
    r.append(d.as_str());
    assert(r@ =~= stream_spec(k, n as nat));
    r
}

/// Append the codec options of `e` at specifier `sp`.
fn push_codec_tokens(a: &mut Vec<String>, e: &Encode, sp: &str)
    ensures
        final(a).deep_view() == old(a).deep_view() + codec_tokens(e@, sp@),
{
    let ghost a0 = a.deep_view();
    match e {
        Encode::Copy => {
            push_token(a, cat("-c:", sp));
            push_token(a, string_of("copy"));
            assert(a.deep_view() =~= a0 + codec_tokens(e@, sp@));
        },
        Encode::Audio { codec, bitrate_kbps, channels } => {
            push_token(a, cat("-c:", sp));
            push_token(a, codec.clone());
            let ghost a1 = a.deep_view();
            match bitrate_kbps {
                Some(b) => {
                    push_token(a, cat("-b:", sp));
                    let mut v = fmt_u64(*b as u64);
                    v.append("k");
                    push_token(a, v);
                },
                None => {},
            }
            let ghost a2 = a.deep_view();
            assert(a2 =~= a1 + match bitrate_kbps {
                Some(b) => seq!["-b:"@ + sp@, dec(*b as nat) + "k"@],
                None => Seq::<Seq<char>>::empty(),
            });
            match channels {
                Some(c) => {
                    push_token(a, cat("-ac:", sp));
                    push_token(a, fmt_u64(*c as u64));
                },
                None => {},
            }
            assert(a.deep_view() =~= a2 + match channels {
                Some(c) => seq!["-ac:"@ + sp@, dec(*c as nat)],
                None => Seq::<Seq<char>>::empty(),
            });
            assert(a.deep_view() =~= a0 + codec_tokens(e@, sp@));
        },
    }
}

/// Append the tag options of `m` at specifier `sp`.
fn push_tag_tokens(a: &mut Vec<String>, m: &Meta, sp: &str)
    ensures
        final(a).deep_view() == old(a).deep_view() + tag_tokens(m@, sp@),
{
    let ghost a0 = a.deep_view();
    match &m.language {
        Some(l) => {
            push_token(a, cat("-metadata:s:", sp));
            push_token(a, cat("language=", l.as_str()));
        },
        None => {},
    }
    let ghost a1 = a.deep_view();
    assert(a1 =~= a0 + match m@.language {
        Some(l) => seq!["-metadata:s:"@ + sp@, "language="@ + l],
        None => Seq::<Seq<char>>::empty(),
    });
    match &m.title {
        Some(t) => {
            push_token(a, cat("-metadata:s:", sp));
            push_token(a, cat("title=", t.as_str()));
        },
        None => {},
    }
    let ghost a2 = a.deep_view();
    assert(a2 =~= a1 + match m@.title {
        Some(t) => seq!["-metadata:s:"@ + sp@, "title="@ + t],
        None => Seq::<Seq<char>>::empty(),
    });
    push_token(a, cat("-disposition:", sp));
    let d = if m.default && m.forced {
        string_of("default+forced")
    } else if m.default {
        string_of("default")
    } else if m.forced {
        string_of("forced")
    } else {
        string_of("0")
    };
    push_token(a, d);
    assert(a.deep_view() =~= a0 + tag_tokens(m@, sp@));
}

/// Append the options of stream `s`, the `n`-th of its kind.
fn push_stream_tokens(a: &mut Vec<String>, s: &OutStream, n: usize, emit_tags: bool)
    ensures
        final(a).deep_view() == old(a).deep_view() + stream_tokens(s@, n as nat, emit_tags),
{
    let ghost a0 = a.deep_view();
    let sp = spec_token(s.source.kind, n);
    push_codec_tokens(a, &s.encode, sp.as_str());
    let ghost a1 = a.deep_view();
    let takes = match s.source.kind {
        Kind::Attachment | Kind::Data => false,
        _ => true,
    };
    if takes && emit_tags {
        push_tag_tokens(a, &s.meta, sp.as_str());
    }
    assert(a.deep_view() =~= a0 + stream_tokens(s@, n as nat, emit_tags));
}

/// A count of one kind never exceeds the length.
proof fn lemma_kind_count_bound(s: Seq<OutStreamView>, k: Kind)
    ensures
        kind_count(s, k) <= s.len(),
    decreases s.len(),
{
    if s.len() > 0 {
        lemma_kind_count_bound(s.drop_last(), k);
    }
}

/// Dropping removed streams never lengthens the list.
proof fn lemma_live_len(s: Seq<OutStreamView>)
    ensures
        live(s).len() <= s.len(),
    decreases s.len(),
{
    if s.len() > 0 {
        lemma_live_len(s.drop_last());
    }
}

/// Index of a kind among the five per-type counters.
fn kind_slot(k: Kind) -> (r: usize)
    ensures
        r < 5,
        r == kind_slot_spec(k),
{
    match k {
        Kind::Video => 0,
        Kind::Audio => 1,
        Kind::Subtitle => 2,
        Kind::Attachment => 3,
        Kind::Data => 4,
    }
}

pub open spec fn kind_slot_spec(k: Kind) -> usize {
    match k {
        Kind::Video => 0,
        Kind::Audio => 1,
        Kind::Subtitle => 2,
        Kind::Attachment => 3,
        Kind::Data => 4,
    }
}

impl Project {
    /// Render this project as the argument vector for `ffmpeg` (without the
    /// program name). Inputs come first (each offset input preceded by
    /// `-itsoffset`), then one `-map` per stream not marked removed in output
    /// order, then each such stream's codec options and, where the output
    /// container and the stream type take them, its metadata and an explicit
    /// disposition, all addressed by per-type output index; then the container
    /// title when one is set and the container takes tags; the output path
    /// ends the vector. Overwrite flags (`-y`/`-n`) are never emitted here.
    pub fn to_args(&self) -> (r: Vec<String>)
        ensures
            r.deep_view() == ffmpeg_args(self@),
    {
        let mut a: Vec<String> = Vec::new();
        let ghost pv = self@;
        let mut i: usize = 0;
        while i < self.inputs.len()
            invariant
                pv == self@,
                i <= self.inputs.len(),
                a.deep_view() == inputs_args(pv.inputs.take(i as int)),
            decreases self.inputs.len() - i,
        {
            let input = &self.inputs[i];
            assert(pv.inputs[i as int] == input@);
            if input.offset_ms != 0 {
                push_token(&mut a, string_of("-itsoffset"));
                push_token(&mut a, fmt_offset(input.offset_ms));
            }
            push_token(&mut a, string_of("-i"));
            push_token(&mut a, input.path.clone());
            assert(pv.inputs.take(i + 1).drop_last() =~= pv.inputs.take(i as int));
            i = i + 1;
        }
        assert(pv.inputs.take(self.inputs.len() as int) =~= pv.inputs);
        let ghost a_in = a.deep_view();

        let mut i: usize = 0;
        while i < self.streams.len()
            invariant
                pv == self@,
                i <= self.streams.len(),
                a.deep_view() == a_in + maps_args(live(pv.streams.take(i as int))),
            decreases self.streams.len() - i,
        {
            let s = &self.streams[i];
            assert(pv.streams[i as int] == s@);
            assert(pv.streams.take(i + 1).drop_last() =~= pv.streams.take(i as int));
            if !s.removed {
                let mut m = fmt_u64(s.source.input as u64);
                m.append(":");
                let idx = fmt_u64(s.source.index as u64);
                m.append(idx.as_str());
                push_token(&mut a, string_of("-map"));
                push_token(&mut a, m);
                assert(live(pv.streams.take(i + 1)).drop_last() =~= live(pv.streams.take(i as int)));
            }
            i = i + 1;
        }
        assert(pv.streams.take(self.streams.len() as int) =~= pv.streams);
        let ghost a_map = a.deep_view();

        let emit = output_takes_stream_tags(self.output.as_str());
        let mut counts: Vec<usize> = vec![0, 0, 0, 0, 0];
        let mut i: usize = 0;
        while i < self.streams.len()
            invariant
                pv == self@,
                i <= self.streams.len(),
                emit == takes_stream_tags(pv.output),
                counts.len() == 5,
                forall|k: Kind| counts@[kind_slot_spec(k) as int] == kind_count(
                    live(pv.streams.take(i as int)),
                    k,
                ),
                a.deep_view() == a_map + options_args(live(pv.streams.take(i as int)), emit),
            decreases self.streams.len() - i,
        {
            let s = &self.streams[i];
            assert(pv.streams[i as int] == s@);
            let ghost prev = live(pv.streams.take(i as int));
            assert(pv.streams.take(i + 1).drop_last() =~= pv.streams.take(i as int));
            if !s.removed {
                let slot = kind_slot(s.source.kind);
                let n = counts[slot];
                proof {
                    lemma_kind_count_bound(prev, s@.source.kind);
                    lemma_live_len(pv.streams.take(i as int));
                }
                push_stream_tokens(&mut a, s, n, emit);
                let ghost old_counts = counts@;
                counts.set(slot, n + 1);
                assert(live(pv.streams.take(i + 1)) == prev.push(s@));
                assert(prev.push(s@).drop_last() =~= prev);
                assert forall|k: Kind| counts@[kind_slot_spec(k) as int] == kind_count(
                    live(pv.streams.take(i + 1)),
                    k,
                ) by {
                    assert(kind_count(prev.push(s@), k) == kind_count(prev, k) + (if s@.source.kind
                        == k {
                        1nat
                    } else {
                        0nat
                    }));
                    assert(old_counts[kind_slot_spec(k) as int] == kind_count(prev, k));
                    if k != s@.source.kind {
                        assert(kind_slot_spec(k) != slot);
                    }
                }
            }
            i = i + 1;
        }
        assert(pv.streams.take(self.streams.len() as int) =~= pv.streams);
        let ghost a_opt = a.deep_view();
        match &self.title {
            Some(t) => {
                if emit {
                    push_token(&mut a, string_of("-metadata"));
                    push_token(&mut a, cat("title=", t.as_str()));
                }
            },
            None => {},
        }
        assert(a.deep_view() =~= a_opt + title_tokens(pv.title, emit));
        push_token(&mut a, self.output.clone());
        a
    }
}

/// Dropping the removed streams leaves nothing to drop.
pub proof fn lemma_live_idempotent(s: Seq<OutStreamView>)
    ensures
        live(live(s)) == live(s),
        forall|i: int| 0 <= i < live(s).len() ==> !(#[trigger] live(s)[i]).removed,
    decreases s.len(),
{
    if s.len() > 0 {
        let q = s.drop_last();
        lemma_live_idempotent(q);
        if !s.last().removed {
            assert(live(q).push(s.last()).drop_last() =~= live(q));
        }
    }
}

/// Soft removal is exact: a project renders to the same arguments as the
/// project with its removed streams actually dropped from the list (they are
/// never mapped and do not count toward per-type renumbering).
pub proof fn lemma_removed_streams_are_dropped(p: ProjectView)
    ensures
        ffmpeg_args(p) == ffmpeg_args(ProjectView { streams: live(p.streams), ..p }),
{
    lemma_live_idempotent(p.streams);
}

/// The `k`-th `-map` pair of `m` names stream `s`.
pub open spec fn map_pair_at(m: Seq<Seq<char>>, k: int, s: OutStreamView) -> bool {
    m[2 * k] == "-map"@ && m[2 * k + 1] == map_value(s)
}

/// `-map` order is output order: the map section holds one `-map <i>:<j>`
/// pair per stream, the `k`-th pair naming the `k`-th stream's source.
pub proof fn lemma_maps_follow_order(streams: Seq<OutStreamView>)
    ensures
        maps_args(streams).len() == 2 * streams.len(),
        forall|k: int|
            0 <= k < streams.len() ==> map_pair_at(maps_args(streams), k, #[trigger] streams[k]),
    decreases streams.len(),
{
    if streams.len() > 0 {
        let q = streams.drop_last();
        lemma_maps_follow_order(q);
        let m = maps_args(streams);
        assert(m == maps_args(q) + seq!["-map"@, map_value(streams.last())]);
        assert forall|k: int| 0 <= k < streams.len() implies map_pair_at(
            m,
            k,
            #[trigger] streams[k],
        ) by {
            if k < q.len() {
                assert(streams[k] == q[k]);
                assert(map_pair_at(maps_args(q), k, q[k]));
                assert(m[2 * k] == maps_args(q)[2 * k]);
                assert(m[2 * k + 1] == maps_args(q)[2 * k + 1]);
            } else {
                assert(k == q.len());
                assert(m[2 * k] == "-map"@);
            }
        }
    }
}

/// Removal is by positive mapping only: every `-map` value begins with a
/// digit (an input index), never with `-`.
pub proof fn lemma_map_values_positive(s: OutStreamView)
    ensures
        map_value(s).len() > 0,
        '0' <= map_value(s)[0] <= '9',
{
    lemma_dec_digits(s.source.input as nat);
    lemma_dec_nonempty(s.source.input as nat);
    assert(map_value(s)[0] == dec(s.source.input as nat)[0]);
}

/// The output specifier of the `i`-th of `streams`: its kind's letter and
/// its number among the earlier streams of that kind.
pub open spec fn spec_at(streams: Seq<OutStreamView>, i: int) -> Seq<char> {
    stream_spec(streams[i].source.kind, kind_count(streams.take(i), streams[i].source.kind))
}

proof fn lemma_kind_count_grows(l: Seq<OutStreamView>, i: int, j: int, k: Kind)
    requires
        0 <= i < j <= l.len(),
        l[i].source.kind == k,
    ensures
        kind_count(l.take(j), k) >= kind_count(l.take(i), k) + 1,
    decreases j - i,
{
    assert(l.take(j).drop_last() =~= l.take(j - 1));
    if j == i + 1 {
        assert(l.take(j).last() == l[i]);
    } else {
        lemma_kind_count_grows(l, i, j - 1, k);
    }
}

/// Every option addresses exactly one stream: no two streams in map order
/// get the same output specifier.
pub proof fn lemma_specifiers_unique(streams: Seq<OutStreamView>, i: int, j: int)
    requires
        0 <= i < j < streams.len(),
    ensures
        spec_at(streams, i) != spec_at(streams, j),
{
    let ki = streams[i].source.kind;
    let kj = streams[j].source.kind;
    let si = spec_at(streams, i);
    let sj = spec_at(streams, j);
    if si == sj {
        assert(si[0] == ki.letter());
        assert(sj[0] == kj.letter());
        assert(ki == kj);
        assert(si.skip(2) =~= dec(kind_count(streams.take(i), ki)));
        assert(sj.skip(2) =~= dec(kind_count(streams.take(j), kj)));
        lemma_dec_injective(kind_count(streams.take(i), ki), kind_count(streams.take(j), kj));
        lemma_kind_count_grows(streams, i, j, ki);
    }
}


/// `w` occurs in `v` as a run of consecutive characters.
pub open spec fn has_infix(v: Seq<char>, w: Seq<char>) -> bool {
    exists|i: int| 0 <= i && i + w.len() <= v.len() && #[trigger] v.subrange(i, i + w.len()) == w
}

proof fn lemma_infix_at(v: Seq<char>, w: Seq<char>, i: int)
    requires
        0 <= i,
        i + w.len() <= v.len(),
        v.subrange(i, i + w.len()) =~= w,
    ensures
        has_infix(v, w),
{
}

proof fn lemma_no_infix_first(v: Seq<char>, w: Seq<char>)
    requires
        w.len() > 0,
        forall|i: int| 0 <= i && i + w.len() <= v.len() ==> #[trigger] v[i] != w[0],
    ensures
        !has_infix(v, w),
{
    assert forall|i: int| 0 <= i && i + w.len() <= v.len() implies #[trigger] v.subrange(i, i + w.len())
        != w by {
        assert(v.subrange(i, i + w.len())[0] == v[i]);
    }
}

proof fn lemma_flags_both()
    ensures
        has_infix("default+forced"@, "forced"@),
        has_infix("default+forced"@, "default"@),
        "default+forced"@ != "0"@,
{
    reveal_strlit("forced");
    reveal_strlit("default");
    reveal_strlit("default+forced");
    reveal_strlit("0");
    lemma_infix_at("default+forced"@, "forced"@, 8);
    lemma_infix_at("default+forced"@, "default"@, 0);
}

proof fn lemma_default_not_forced()
    ensures
        !has_infix("default"@, "forced"@),
{
    reveal_strlit("forced");
    reveal_strlit("default");
    let d = "default"@;
    let f = "forced"@;
    assert(d[0] == 'd' && d[1] == 'e');
    assert(f[0] == 'f');
    assert forall|i: int| 0 <= i && i + f.len() <= d.len() implies #[trigger] d.subrange(i, i + f.len())
        != f by {
        assert(d.subrange(i, i + f.len())[0] == d[i]);
        assert(i == 0 || i == 1);
    }
}

proof fn lemma_flags_default()
    ensures
        has_infix("default"@, "default"@),
        !has_infix("default"@, "forced"@),
        "default"@ != "0"@,
{
    reveal_strlit("default");
    reveal_strlit("0");
    lemma_infix_at("default"@, "default"@, 0);
    lemma_default_not_forced();
}

proof fn lemma_flags_forced()
    ensures
        has_infix("forced"@, "forced"@),
        !has_infix("forced"@, "default"@),
        "forced"@ != "0"@,
{
    reveal_strlit("forced");
    reveal_strlit("default");
    reveal_strlit("0");
    lemma_infix_at("forced"@, "forced"@, 0);
    lemma_no_infix_first("forced"@, "default"@);
}

proof fn lemma_flags_none()
    ensures
        !has_infix("0"@, "forced"@),
        !has_infix("0"@, "default"@),
{
    reveal_strlit("forced");
    reveal_strlit("default");
    reveal_strlit("0");
    lemma_no_infix_first("0"@, "forced"@);
    lemma_no_infix_first("0"@, "default"@);
}

/// The disposition option of a tagged stream names exactly its set flags:
/// its value is preceded by `-disposition:<spec>`, contains `forced` exactly
/// when the stream is forced and `default` exactly when it is a default
/// stream, and is `0` exactly when neither flag is set (so a reorder can
/// never leave a flag on the wrong stream, nor drop one).
pub proof fn lemma_disposition_names_flags(m: MetaView, sp: Seq<char>)
    ensures
        ({
            let t = tag_tokens(m, sp);
            let v = t.last();
            &&& t.len() >= 2
            &&& t[t.len() - 2] == "-disposition:"@ + sp
            &&& (has_infix(v, "forced"@) <==> m.forced)
            &&& (has_infix(v, "default"@) <==> m.default)
            &&& (v == "0"@ <==> !m.default && !m.forced)
        }),
{
    lemma_flags_both();
    lemma_flags_default();
    lemma_flags_forced();
    lemma_flags_none();
    let t = tag_tokens(m, sp);
    assert(t.last() == disposition_value(m));
    assert(t[t.len() - 2] == "-disposition:"@ + sp);
}

} // verus!
