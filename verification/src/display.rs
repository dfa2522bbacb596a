//! The text the stream table and inspector show for a stream: its summary,
//! flags, type label and the change badges describing how it differs from
//! the probed original, plus the inspector's edits of a stream.

use vstd::prelude::*;
use crate::model::{
    opt_view, Encode, EncodeView, Kind, MetaView, OutStream, OutStreamView, Project, ProjectView,
};
use crate::text::{
    chars_of, dec, push_char, fmt_u64, is_whitespace, is_ws, join, join_strings, str_eq, string_from_chars,
    string_of, trim, trim_spec,
};

verus! {

/// The type label of a badge.
pub open spec fn kind_label(k: Kind) -> Seq<char> {
    match k {
        Kind::Video => "video"@,
        Kind::Audio => "audio"@,
        Kind::Subtitle => "subtitle"@,
        Kind::Attachment => "attach"@,
        Kind::Data => "data"@,
    }
}

/// The type label shown in a stream's badge.
pub fn kind_text(kind: Kind) -> (r: String)
    ensures
        r@ == kind_label(kind),
{
    match kind {
        Kind::Video => string_of("video"),
        Kind::Audio => string_of("audio"),
        Kind::Subtitle => string_of("subtitle"),
        Kind::Attachment => string_of("attach"),
        Kind::Data => string_of("data"),
    }
}

pub open spec fn on_off_spec(b: bool) -> Seq<char> {
    if b {
        "on"@
    } else {
        "off"@
    }
}

/// `on` or `off`.
pub fn on_off(b: bool) -> (r: String)
    ensures
        r@ == on_off_spec(b),
{
    if b {
        string_of("on")
    } else {
        string_of("off")
    }
}

/// A tag value in curly quotes, or an em dash when unset.
pub open spec fn opt_spec(v: Option<Seq<char>>) -> Seq<char> {
    match v {
        Some(s) => "\u{201C}"@ + s + "\u{201D}"@,
        None => "—"@,
    }
}

/// A tag value as the change tooltips show it.
pub fn opt(v: &Option<String>) -> (r: String)
    ensures
        r@ == opt_spec(opt_view(*v)),
{
    match v {
        Some(s) => {
            let mut r = string_of("\u{201C}");
            r.append(s.as_str());
            r.append("\u{201D}");
            r
        },
        None => string_of("—"),
    }
}

/// The parts of a stream's summary: the codec (or `source » target` when
/// converting), the language, the quoted title, and `from <input>` for a
/// stream drawn from an added input.
pub open spec fn summary_parts(s: OutStreamView) -> Seq<Seq<char>> {
    seq![
        match s.encode {
            EncodeView::Copy => s.source.codec,
            EncodeView::Audio { codec, .. } => s.source.codec + " » "@ + codec,
        },
    ] + (match s.meta.language {
        Some(l) => seq![l],
        None => Seq::empty(),
    }) + (match s.meta.title {
        Some(t) => seq![seq!['"'] + t + seq!['"']],
        None => Seq::empty(),
    }) + (if s.source.input != 0 {
        seq!["from "@ + dec(s.source.input as nat)]
    } else {
        Seq::empty()
    })
}

/// A stream's one-line summary, e.g. `flac » aac · jpn · "Japanese"`.
pub open spec fn summary_spec(s: OutStreamView) -> Seq<char> {
    join(summary_parts(s), " · "@)
}

fn push_part(v: &mut Vec<String>, s: String)
    ensures
        final(v).deep_view() == old(v).deep_view().push(s@),
{
    v.push(s);
    assert(v.deep_view() =~= old(v).deep_view().push(s@));
}

/// The summary shown in a stream's row.
pub fn summary(s: &OutStream) -> (r: String)
    ensures
        r@ == summary_spec(s@),
{
    let mut parts: Vec<String> = Vec::new();
    match &s.encode {
        Encode::Copy => push_part(&mut parts, s.source.codec.clone()),
        Encode::Audio { codec, .. } => {
            let mut t = s.source.codec.clone();
            t.append(" » ");
            t.append(codec.as_str());
            push_part(&mut parts, t);
        },
    }
    let ghost p0 = parts.deep_view();
    match &s.meta.language {
        Some(l) => push_part(&mut parts, l.clone()),
        None => {},
    }
    let ghost p1 = parts.deep_view();
    assert(p1 =~= p0 + match s@.meta.language {
        Some(l) => seq![l],
        None => Seq::<Seq<char>>::empty(),
    });
    match &s.meta.title {
        Some(t) => {
            let mut q = String::new();
            push_char(&mut q, '"');
            q.append(t.as_str());
            push_char(&mut q, '"');
            assert(q@ =~= seq!['"'] + t@ + seq!['"']);
            push_part(&mut parts, q);
        },
        None => {},
    }
    let ghost p2 = parts.deep_view();
    assert(p2 =~= p1 + match s@.meta.title {
        Some(t) => seq![seq!['"'] + t + seq!['"']],
        None => Seq::<Seq<char>>::empty(),
    });
    if s.source.input != 0 {
        let mut f = string_of("from ");
        let d = fmt_u64(s.source.input as u64);
        f.append(d.as_str());
        push_part(&mut parts, f);
    }
    assert(parts.deep_view() =~= summary_parts(s@));
    join_strings(&parts, " · ")
}

/// The set disposition flags, joined with ` · `.
pub open spec fn flags_spec(m: MetaView) -> Seq<char> {
    join(
        (if m.default {
            seq!["default"@]
        } else {
            Seq::empty()
        }) + (if m.forced {
            seq!["forced"@]
        } else {
            Seq::empty()
        }),
        " · "@,
    )
}

/// The FLAGS column of a stream's row.
pub fn flags(s: &OutStream) -> (r: String)
    ensures
        r@ == flags_spec(s@.meta),
{
    let mut f: Vec<String> = Vec::new();
    if s.meta.default {
        push_part(&mut f, string_of("default"));
    }
    let ghost f0 = f.deep_view();
    if s.meta.forced {
        push_part(&mut f, string_of("forced"));
    }
    assert(f.deep_view() =~= (if s@.meta.default {
        seq!["default"@]
    } else {
        Seq::<Seq<char>>::empty()
    }) + (if s@.meta.forced {
        seq!["forced"@]
    } else {
        Seq::<Seq<char>>::empty()
    }));
    join_strings(&f, " · ")
}

/// The language and title edits of a stream, one line each.
pub open spec fn tag_diff_spec(s: OutStreamView) -> Seq<char> {
    join(
        (if s.meta.language != s.orig_meta.language {
            seq![
                "language: "@ + opt_spec(s.orig_meta.language) + " » "@ + opt_spec(
                    s.meta.language,
                ),
            ]
        } else {
            Seq::empty()
        }) + (if s.meta.title != s.orig_meta.title {
            seq!["title: "@ + opt_spec(s.orig_meta.title) + " » "@ + opt_spec(s.meta.title)]
        } else {
            Seq::empty()
        }),
        "\n"@,
    )
}

fn diff_line(label: &str, before: &Option<String>, after: &Option<String>) -> (r: String)
    ensures
        r@ == label@ + opt_spec(opt_view(*before)) + " » "@ + opt_spec(opt_view(*after)),
{
    let mut r = string_of(label);
    let b = opt(before);
    r.append(b.as_str());
    r.append(" » ");
    let a = opt(after);
    r.append(a.as_str());
    r
}

/// The tooltip of the `retag` badge.
pub fn tag_diff(s: &OutStream) -> (r: String)
    ensures
        r@ == tag_diff_spec(s@),
{
    let mut parts: Vec<String> = Vec::new();
    if !crate::model::opt_str_eq(&s.meta.language, &s.orig_meta.language) {
        push_part(&mut parts, diff_line("language: ", &s.orig_meta.language, &s.meta.language));
    }
    let ghost p0 = parts.deep_view();
    if !crate::model::opt_str_eq(&s.meta.title, &s.orig_meta.title) {
        push_part(&mut parts, diff_line("title: ", &s.orig_meta.title, &s.meta.title));
    }
    assert(parts.deep_view() =~= (if s@.meta.language != s@.orig_meta.language {
        seq![
            "language: "@ + opt_spec(s@.orig_meta.language) + " » "@ + opt_spec(
                s@.meta.language,
            ),
        ]
    } else {
        Seq::<Seq<char>>::empty()
    }) + (if s@.meta.title != s@.orig_meta.title {
        seq!["title: "@ + opt_spec(s@.orig_meta.title) + " » "@ + opt_spec(s@.meta.title)]
    } else {
        Seq::<Seq<char>>::empty()
    }));
    join_strings(&parts, "\n")
}

/// Which difference a change badge reports.
#[derive(Debug, Clone, Copy, PartialEq, Eq, Structural)]
pub enum ChangeKind {
    Remove,
    Convert,
    Retag,
    Flags,
}

/// One badge of the CHANGES column.
#[derive(Debug, Clone)]
pub struct Change {
    pub kind: ChangeKind,
    pub label: String,
    pub hover: String,
}

pub struct ChangeView {
    pub kind: ChangeKind,
    pub label: Seq<char>,
    pub hover: Seq<char>,
}

impl View for Change {
    type V = ChangeView;

    open spec fn view(&self) -> ChangeView {
        ChangeView { kind: self.kind, label: self.label@, hover: self.hover@ }
    }
}

/// The badges of a stream: only `remove` for a stream marked for removal;
/// otherwise whichever of `convert`, `retag` and `flags` apply, in that
/// order (none for an untouched stream).
pub open spec fn changes_spec(s: OutStreamView) -> Seq<ChangeView> {
    if s.removed {
        seq![
            ChangeView {
                kind: ChangeKind::Remove,
                label: "remove"@,
                hover: "Will be dropped from the output"@,
            },
        ]
    } else {
        (if s.is_converted() {
            seq![
                ChangeView {
                    kind: ChangeKind::Convert,
                    label: "convert"@,
                    hover: "re-encode "@ + s.source.codec + " » "@ + match s.encode {
                        EncodeView::Audio { codec, .. } => codec,
                        EncodeView::Copy => "copy"@,
                    },
                },
            ]
        } else {
            Seq::empty()
        }) + (if s.tags_differ() {
            seq![ChangeView { kind: ChangeKind::Retag, label: "retag"@, hover: tag_diff_spec(s) }]
        } else {
            Seq::empty()
        }) + (if s.flags_differ() {
            seq![
                ChangeView {
                    kind: ChangeKind::Flags,
                    label: "flags"@,
                    hover: "default "@ + on_off_spec(s.orig_meta.default) + " » "@ + on_off_spec(
                        s.meta.default,
                    ) + ", forced "@ + on_off_spec(s.orig_meta.forced) + " » "@ + on_off_spec(
                        s.meta.forced,
                    ),
                },
            ]
        } else {
            Seq::empty()
        })
    }
}

pub open spec fn changes_view(v: Seq<Change>) -> Seq<ChangeView> {
    v.map_values(|c: Change| c@)
}

fn push_change(v: &mut Vec<Change>, c: Change)
    ensures
        changes_view(final(v)@) == changes_view(old(v)@).push(c@),
{
    v.push(c);
    assert(changes_view(v@) =~= changes_view(old(v)@).push(c@));
}

/// The badges of the CHANGES column for `s`.
pub fn changes(s: &OutStream) -> (r: Vec<Change>)
    ensures
        changes_view(r@) == changes_spec(s@),
{
    let mut out: Vec<Change> = Vec::new();
    if s.removed {
        push_change(
            &mut out,
            Change {
                kind: ChangeKind::Remove,
                label: string_of("remove"),
                hover: string_of("Will be dropped from the output"),
            },
        );
        assert(changes_view(out@) =~= changes_spec(s@));
        return out;
    }
    if s.converted() {
        let to = match &s.encode {
            Encode::Audio { codec, .. } => codec.as_str(),
            Encode::Copy => "copy",
        };
        let mut hover = string_of("re-encode ");
        hover.append(s.source.codec.as_str());
        hover.append(" » ");
        hover.append(to);
        push_change(
            &mut out,
            Change { kind: ChangeKind::Convert, label: string_of("convert"), hover },
        );
    }
    let ghost c0 = changes_view(out@);
    if s.tags_changed() {
        push_change(
            &mut out,
            Change { kind: ChangeKind::Retag, label: string_of("retag"), hover: tag_diff(s) },
        );
    }
    let ghost c1 = changes_view(out@);
    if s.flags_changed() {
        let mut hover = string_of("default ");
        let a = on_off(s.orig_meta.default);
        hover.append(a.as_str());
        hover.append(" » ");
        let b = on_off(s.meta.default);
        hover.append(b.as_str());
        hover.append(", forced ");
        let c = on_off(s.orig_meta.forced);
        hover.append(c.as_str());
        hover.append(" » ");
        let d = on_off(s.meta.forced);
        hover.append(d.as_str());
        push_change(&mut out, Change { kind: ChangeKind::Flags, label: string_of("flags"), hover });
    }
    assert(changes_view(out@) =~= changes_spec(s@));
    out
}

/// A freshly probed or built stream shows no badges.
pub proof fn lemma_untouched_stream_has_no_badges(s: OutStreamView)
    requires
        !s.removed,
        s.encode is Copy,
        s.meta == s.orig_meta,
    ensures
        changes_spec(s) == Seq::<ChangeView>::empty(),
{
    assert(changes_spec(s) =~= Seq::<ChangeView>::empty());
}

/// The encoding after choosing `codec` in the conversion box: `copy` goes
/// back to stream-copy; any other codec keeps the bitrate and channels
/// already chosen (192 kbps and the source layout when starting from a
/// copy).
pub open spec fn with_codec(e: EncodeView, codec: Seq<char>) -> EncodeView {
    if codec == "copy"@ {
        EncodeView::Copy
    } else {
        match e {
            EncodeView::Audio { bitrate_kbps, channels, .. } => EncodeView::Audio {
                codec,
                bitrate_kbps,
                channels,
            },
            EncodeView::Copy => EncodeView::Audio { codec, bitrate_kbps: Some(192), channels: None },
        }
    }
}

/// Switch a stream's encoding to `codec` (`"copy"` reverts to stream-copy),
/// keeping any bitrate/channels already chosen.
pub fn set_codec(stream: &mut OutStream, codec: &str)
    ensures
        final(stream)@ == (OutStreamView { encode: with_codec(old(stream)@.encode, codec@), ..old(stream)@ }),
{
    if str_eq(codec, "copy") {
        stream.encode = Encode::Copy;
        return;
    }
    let (bitrate_kbps, channels) = match &stream.encode {
        Encode::Audio { bitrate_kbps, channels, .. } => (*bitrate_kbps, *channels),
        Encode::Copy => (Some(192), None),
    };
    stream.encode = Encode::Audio { codec: string_of(codec), bitrate_kbps, channels };
}

/// An edited tag field: the text, or `None` when it is empty (so the
/// original tag passes through the copy).
pub open spec fn field_value(text: Seq<char>) -> Option<Seq<char>> {
    if text.len() > 0 {
        Some(text)
    } else {
        None
    }
}

fn field_of(text: String) -> (r: Option<String>)
    ensures
        opt_view(r) == field_value(text@),
{
    if text.as_str().unicode_len() > 0 {
        Some(text)
    } else {
        None
    }
}

impl OutStream {
    /// The inspector's language field: trimmed, and unset when empty.
    pub fn set_language(&mut self, text: &str)
        ensures
            final(self)@ == (OutStreamView {
                meta: MetaView { language: field_value(trim_spec(text@)), ..old(self)@.meta },
                ..old(self)@
            }),
    {
        self.meta.language = field_of(trim(text));
    }

    /// The inspector's title field: unset when empty.
    pub fn set_title(&mut self, text: &str)
        ensures
            final(self)@ == (OutStreamView {
                meta: MetaView { title: field_value(text@), ..old(self)@.meta },
                ..old(self)@
            }),
    {
        self.meta.title = field_of(string_of(text));
    }
}

impl Project {
    /// The container title field: unset when empty, so an untouched title
    /// round-trips through the copy.
    pub fn set_title(&mut self, text: &str)
        ensures
            final(self)@ == (ProjectView { title: field_value(text@), ..old(self)@ }),
    {
        self.title = field_of(string_of(text));
    }
}

} // verus!
