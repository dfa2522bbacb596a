//! The editing session behind the interface: the loaded project, the
//! selected row, the last error, and the command-bar edit. Every mutation the
//! table and inspector make goes through here; the interface only renders
//! the state and performs the runs it is asked for.

use vstd::prelude::*;
use crate::extract::extract_spec;
use crate::model::{
    default_audio_view, opt_view, sources_valid, Encode, EncodeView, Kind, Meta, MetaView, OutStream, OutStreamView, Project,
    ProjectView, SourceView,
};
use crate::run::{command_args, command_args_spec};
use crate::args::codec_tokens;
use crate::text::{dec, has_prefix, string_of};

verus! {

/// The editing session.
pub struct Session {
    /// The current project; `None` until a file is loaded.
    pub project: Option<Project>,
    /// Index into `project.streams` of the selected row.
    pub selected: Option<usize>,
    /// The last error to surface.
    pub error: Option<String>,
    /// The command-bar escape hatch: `Some` once the user has edited the
    /// command, which a run then executes verbatim.
    pub command_edit: Option<String>,
}

pub struct SessionView {
    pub project: Option<ProjectView>,
    pub selected: Option<usize>,
    pub error: Option<Seq<char>>,
    pub command_edit: Option<Seq<char>>,
}

impl View for Session {
    type V = SessionView;

    open spec fn view(&self) -> SessionView {
        SessionView {
            project: match self.project {
                Some(p) => Some(p@),
                None => None,
            },
            selected: self.selected,
            error: opt_view(self.error),
            command_edit: opt_view(self.command_edit),
        }
    }
}

impl SessionView {
    /// The selection, if any, names a row of the loaded project.
    pub open spec fn selection_valid(self) -> bool {
        match self.selected {
            Some(s) => match self.project {
                Some(p) => s < p.streams.len(),
                None => false,
            },
            None => true,
        }
    }
}

/// The converted sibling of `orig`: the same source with a default AAC
/// conversion, the original's tags but neither default nor forced (so no
/// track ends up with two default streams), marked as added.
pub open spec fn converted_sibling(orig: OutStreamView) -> OutStreamView {
    let meta = MetaView { default: false, forced: false, ..orig.meta };
    OutStreamView {
        source: orig.source,
        meta,
        encode: EncodeView::Audio { codec: "aac"@, bitrate_kbps: Some(192), channels: None },
        removed: false,
        orig_meta: meta,
        added: true,
    }
}

/// Where `reorder(from, to)` puts the moved stream: `to` is an insertion
/// index in the list before removal.
pub open spec fn reorder_slot(from: int, to: int, len: int) -> int {
    let insert = if from < to {
        to - 1
    } else {
        to
    };
    if insert < len - 1 {
        insert
    } else {
        len - 1
    }
}

/// The list after moving the element at `from` to insertion index `to`.
pub open spec fn reordered<A>(s: Seq<A>, from: int, to: int) -> Seq<A> {
    s.remove(from).insert(reorder_slot(from, to, s.len() as int), s[from])
}

/// The selection after deleting row `i` from a list now `len` long.
pub open spec fn selection_after_delete(sel: Option<usize>, i: int, len: int) -> Option<usize> {
    if len == 0 {
        None
    } else {
        match sel {
            Some(s) => if s > i {
                Some((s - 1) as usize)
            } else if s == i {
                Some((if i < len - 1 {
                    i
                } else {
                    len - 1
                }) as usize)
            } else {
                Some(s)
            },
            None => None,
        }
    }
}

/// What pressing Run asks for.
pub enum RunRequest {
    /// Nothing to run now.
    Nothing,
    /// Run the edited command verbatim with these arguments.
    Edited(Vec<String>),
    /// Run this project (after the caller's overwrite confirmation).
    Model(Project),
}

/// What to do with a project the user asked to run.
pub enum RunAction {
    /// A run is already going: do nothing.
    Ignore,
    /// The output exists: ask before overwriting it.
    Confirm,
    /// Start the run.
    Start,
}

/// Decide what to do with a run request: nothing while a run is going,
/// a confirmation when the output already exists, otherwise start.
pub fn run_action(running: bool, output_exists: bool) -> (r: RunAction)
    ensures
        running ==> r is Ignore,
        !running && output_exists ==> r is Confirm,
        !running && !output_exists ==> r is Start,
{
    if running {
        RunAction::Ignore
    } else if output_exists {
        RunAction::Confirm
    } else {
        RunAction::Start
    }
}

impl Session {
    /// A session with nothing loaded.
    pub fn new() -> (r: Session)
        ensures
            r@ == (SessionView { project: None, selected: None, error: None, command_edit: None }),
    {
        Session { project: None, selected: None, error: None, command_edit: None }
    }

    /// Make `project` the current one, selecting its first stream; a new
    /// file clears the error and starts the command bar from the model.
    pub fn load_project(&mut self, project: Project)
        ensures
            final(self)@ == (SessionView {
                project: Some(project@),
                selected: if project@.streams.len() > 0 {
                    Some(0usize)
                } else {
                    None
                },
                error: None,
                command_edit: None,
            }),
            final(self)@.selection_valid(),
    {
        self.selected = if project.streams.len() > 0 {
            Some(0)
        } else {
            None
        };
        self.project = Some(project);
        self.error = None;
        self.command_edit = None;
    }

    /// Record that loading failed; everything else stays as it was.
    pub fn load_failed(&mut self, message: String)
        ensures
            final(self)@ == (SessionView { error: Some(message@), ..old(self)@ }),
    {
        self.error = Some(message);
    }

    /// Add a re-encoded sibling of `streams[i]` right after it (the original
    /// stays a stream-copy) and select it. Nothing happens without a project
    /// or for an index out of range.
    pub fn add_converted_stream(&mut self, i: usize)
        ensures
            match old(self)@.project {
                Some(p) => if i < p.streams.len() {
                    &&& final(self)@.project == Some(
                        ProjectView {
                            streams: p.streams.insert(i + 1, converted_sibling(p.streams[i as int])),
                            ..p
                        },
                    )
                    &&& final(self)@.selected == Some((i + 1) as usize)
                    &&& final(self)@.error == old(self)@.error
                    &&& final(self)@.command_edit == old(self)@.command_edit
                } else {
                    final(self)@ == old(self)@
                },
                None => final(self)@ == old(self)@,
            },
            old(self)@.selection_valid() ==> final(self)@.selection_valid(),
            (match old(self)@.project {
                Some(p) => sources_valid(p),
                None => true,
            }) ==> (match final(self)@.project {
                Some(p) => sources_valid(p),
                None => true,
            }),
    {
        let mut project = match self.project.take() {
            Some(p) => p,
            None => {
                return;
            },
        };
        let ghost pv = project@;
        if i >= project.streams.len() {
            self.project = Some(project);
            return;
        }
        let orig = &project.streams[i];
        assert(pv.streams[i as int] == orig@);
        let mut meta = orig.meta.duplicate();
        meta.default = false;
        meta.forced = false;
        let mut converted = OutStream::new(orig.source.duplicate(), meta, Encode::default_audio());
        converted.added = true;
        let at = if i + 1 < project.streams.len() {
            i + 1
        } else {
            project.streams.len()
        };
        project.streams.insert(at, converted);
        assert(project@.streams =~= pv.streams.insert(
            i + 1,
            converted_sibling(pv.streams[i as int]),
        ));
        assert(project@ == ProjectView {
            streams: pv.streams.insert(i + 1, converted_sibling(pv.streams[i as int])),
            ..pv
        });
        self.project = Some(project);
        self.selected = Some(at);
    }

    /// Hard-remove `streams[i]` (used for added streams, which have no
    /// original to preview a soft removal against), keeping the selection on
    /// a surviving stream. Nothing happens out of range.
    pub fn delete_stream(&mut self, i: usize)
        ensures
            match old(self)@.project {
                Some(p) => if i < p.streams.len() {
                    &&& final(self)@.project == Some(
                        ProjectView { streams: p.streams.remove(i as int), ..p },
                    )
                    &&& final(self)@.selected == selection_after_delete(
                        old(self)@.selected,
                        i as int,
                        p.streams.len() - 1,
                    )
                    &&& final(self)@.error == old(self)@.error
                    &&& final(self)@.command_edit == old(self)@.command_edit
                } else {
                    final(self)@ == old(self)@
                },
                None => final(self)@ == old(self)@,
            },
            old(self)@.selection_valid() ==> final(self)@.selection_valid(),
            (match old(self)@.project {
                Some(p) => sources_valid(p),
                None => true,
            }) ==> (match final(self)@.project {
                Some(p) => sources_valid(p),
                None => true,
            }),
    {
        let mut project = match self.project.take() {
            Some(p) => p,
            None => {
                return;
            },
        };
        let ghost pv = project@;
        if i >= project.streams.len() {
            self.project = Some(project);
            return;
        }
        project.streams.remove(i);
        assert(project@.streams =~= pv.streams.remove(i as int));
        let len = project.streams.len();
        self.project = Some(project);
        self.selected = if len == 0 {
            None
        } else {
            match self.selected {
                Some(s) => if s > i {
                    Some(s - 1)
                } else if s == i {
                    Some(if i < len - 1 {
                        i
                    } else {
                        len - 1
                    })
                } else {
                    Some(s)
                },
                None => None,
            }
        };
        proof {
            if sources_valid(pv) {
                assert forall|k: int| 0 <= k < pv.streams.remove(i as int).len() implies (
                #[trigger] pv.streams.remove(i as int)[k]).source.input < pv.inputs.len() by {
                    if k < i {
                        assert(pv.streams.remove(i as int)[k] == pv.streams[k]);
                    } else {
                        assert(pv.streams.remove(i as int)[k] == pv.streams[k + 1]);
                    }
                }
            }
        }
    }

    /// Move the stream at `from` to insertion index `to` (`0..=len`, counted
    /// before the removal), keeping the moved stream selected. Nothing
    /// happens out of range.
    pub fn reorder(&mut self, from: usize, to: usize)
        ensures
            match old(self)@.project {
                Some(p) => if from < p.streams.len() && to <= p.streams.len() {
                    &&& final(self)@.project == Some(
                        ProjectView { streams: reordered(p.streams, from as int, to as int), ..p },
                    )
                    &&& final(self)@.selected == Some(
                        reorder_slot(from as int, to as int, p.streams.len() as int) as usize,
                    )
                    &&& final(self)@.error == old(self)@.error
                    &&& final(self)@.command_edit == old(self)@.command_edit
                } else {
                    final(self)@ == old(self)@
                },
                None => final(self)@ == old(self)@,
            },
            old(self)@.selection_valid() ==> final(self)@.selection_valid(),
            (match old(self)@.project {
                Some(p) => sources_valid(p),
                None => true,
            }) ==> (match final(self)@.project {
                Some(p) => sources_valid(p),
                None => true,
            }),
    {
        let mut project = match self.project.take() {
            Some(p) => p,
            None => {
                return;
            },
        };
        let ghost pv = project@;
        if from >= project.streams.len() || to > project.streams.len() {
            self.project = Some(project);
            return;
        }
        let item = project.streams.remove(from);
        let insert = if from < to {
            to - 1
        } else {
            to
        };
        let insert = if insert < project.streams.len() {
            insert
        } else {
            project.streams.len()
        };
        project.streams.insert(insert, item);
        assert(project@.streams =~= reordered(pv.streams, from as int, to as int));
        self.project = Some(project);
        self.selected = Some(insert);
        proof {
            let r = reordered(pv.streams, from as int, to as int);
            let q = pv.streams.remove(from as int);
            let slot = reorder_slot(from as int, to as int, pv.streams.len() as int);
            if sources_valid(pv) {
                assert forall|k: int| 0 <= k < r.len() implies (#[trigger] r[k]).source.input
                    < pv.inputs.len() by {
                    if k < slot {
                        assert(r[k] == q[k]);
                    } else if k > slot {
                        assert(r[k] == q[k - 1]);
                    }
                    if k != slot {
                        let j = if k < slot { k } else { k - 1 };
                        if j < from {
                            assert(q[j] == pv.streams[j]);
                        } else {
                            assert(q[j] == pv.streams[j + 1]);
                        }
                    }
                }
            }
        }
    }

    /// Extract the selected stream to its own file: the one-off project to
    /// run, clearing the error; or, for a stream type that cannot be
    /// extracted, no project and an error saying so. With nothing selected
    /// or loaded nothing happens.
    pub fn extract_selected(&mut self) -> (r: Option<Project>)
        ensures
            match (old(self)@.selected, old(self)@.project) {
                (Some(idx), Some(p)) => match extract_spec(p, idx as int) {
                    Some(x) => r is Some && r.unwrap()@ == x && final(self)@ == (SessionView {
                        error: None,
                        ..old(self)@
                    }),
                    None => r is None && final(self)@ == (SessionView {
                        error: Some("This stream type can't be extracted."@),
                        ..old(self)@
                    }),
                },
                _ => r is None && final(self)@ == old(self)@,
            },
    {
        let idx = match self.selected {
            Some(i) => i,
            None => {
                return None;
            },
        };
        let extracted = match &self.project {
            Some(p) => p.extract(idx),
            None => {
                return None;
            },
        };
        match extracted {
            Some(x) => {
                self.error = None;
                Some(x)
            },
            None => {
                self.error = Some(string_of("This stream type can't be extracted."));
                None
            },
        }
    }

    /// What pressing Run asks for: an edited command runs verbatim (its
    /// tokens, minus a leading program name) unless a run is already going;
    /// otherwise a loaded project runs as modeled.
    pub fn run_request(&self, running: bool) -> (r: RunRequest)
        ensures
            match self@.command_edit {
                Some(cmd) => if running {
                    r is Nothing
                } else {
                    r matches RunRequest::Edited(args) && args.deep_view() == command_args_spec(cmd)
                },
                None => match self@.project {
                    Some(p) => if running {
                        r is Nothing
                    } else {
                        r matches RunRequest::Model(q) && q@ == p
                    },
                    None => r is Nothing,
                },
            },
    {
        match &self.command_edit {
            Some(cmd) => {
                if running {
                    RunRequest::Nothing
                } else {
                    RunRequest::Edited(command_args(cmd.as_str()))
                }
            },
            None => match &self.project {
                Some(p) => {
                    if running {
                        RunRequest::Nothing
                    } else {
                        RunRequest::Model(p.duplicate())
                    }
                },
                None => RunRequest::Nothing,
            },
        }
    }
}

/// Moving a stream is undone by moving it back: after `reorder(from, to)`
/// puts it at slot `q`, `reorder(q, from')` restores the list, where `from'`
/// is `from` counted before the second removal.
pub proof fn lemma_reorder_undo<A>(s: Seq<A>, from: int, to: int)
    requires
        0 <= from < s.len(),
        0 <= to <= s.len(),
    ensures
        ({
            let q = reorder_slot(from, to, s.len() as int);
            let back = if from > q {
                from + 1
            } else {
                from
            };
            &&& 0 <= q < s.len()
            &&& 0 <= back <= s.len()
            &&& reordered(reordered(s, from, to), q, back) == s
        }),
{
    let q = reorder_slot(from, to, s.len() as int);
    let back = if from > q {
        from + 1
    } else {
        from
    };
    let r = reordered(s, from, to);
    assert(r.len() == s.len());
    assert(r[q] == s[from]);
    assert(r.remove(q) =~= s.remove(from));
    assert(reorder_slot(q, back, s.len() as int) == from);
    assert(s.remove(from).insert(from, s[from]) =~= s);
}

/// Deleting the converted sibling just added undoes the addition.
pub proof fn lemma_delete_undoes_add<A>(s: Seq<A>, i: int, x: A)
    requires
        0 <= i < s.len(),
    ensures
        s.insert(i + 1, x).remove(i + 1) == s,
{
    assert(s.insert(i + 1, x).remove(i + 1) =~= s);
}


/// Converting a stream starts from the editor's default conversion
/// (`Encode::default_audio`): the added sibling keeps the original's source,
/// and its codec options set no channel count (`-ac`), so the source's
/// channel layout is kept rather than downmixed.
pub proof fn lemma_converted_sibling_keeps_layout(orig: OutStreamView, sp: Seq<char>)
    ensures
        converted_sibling(orig).encode == default_audio_view(),
        converted_sibling(orig).source == orig.source,
        forall|i: int|
            0 <= i < codec_tokens(converted_sibling(orig).encode, sp).len() ==> !has_prefix(
                #[trigger] codec_tokens(converted_sibling(orig).encode, sp)[i],
                "-ac:"@,
            ),
{
    reveal_strlit("-ac:");
    reveal_strlit("-c:");
    reveal_strlit("-b:");
    reveal_strlit("aac");
    reveal_strlit("k");
    let t = codec_tokens(converted_sibling(orig).encode, sp);
    let ac = "-ac:"@;
    assert(ac.len() == 4 && ac[0] == '-' && ac[1] == 'a');
    assert(t =~= seq!["-c:"@ + sp, "aac"@, "-b:"@ + sp, dec(192) + "k"@]);
    assert forall|i: int| 0 <= i < t.len() implies !has_prefix(#[trigger] t[i], ac) by {
        if t[i].len() >= 4 {
            if i == 0 {
                assert(t[i].take(4)[1] == 'c');
            } else if i == 1 {
                assert(t[i].len() == 3);
            } else if i == 2 {
                assert(t[i].take(4)[1] == 'b');
            } else {
                assert(dec(192) == seq!['1', '9', '2']) by {
                    reveal_with_fuel(dec, 3);
                }
                assert(t[i].len() == 4);
                assert(t[i].take(4)[0] == '1');
            }
        }
    }
}

} // verus!
