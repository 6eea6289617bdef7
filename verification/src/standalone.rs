//! Compiling one open document with the files it includes, step by step.
//! The caller runs the preprocessor and the parser and reads files; this
//! state machine decides what comes next: each file is preprocessed (its
//! macros kept in that order), then each of its includes is read and
//! compiled in turn, looked up next to the including file, and then the
//! file itself is parsed. Unlike the compilation of a project root there is
//! no memory of files seen: a file included twice is compiled twice.
use vstd::prelude::*;
use crate::config::texts;
use crate::includes::{include_target, path_parent, resolve_include_path};
use crate::project::{share_path, FilePath};

verus! {

/// A preprocessed file: its includes, and how many of them are dealt with.
struct DocFrame {
    file: FilePath,
    includes: Vec<String>,
    next: usize,
}

/// What the compilation waits for.
enum DocPhase {
    Preprocessing,
    Reading(String),
    Parsing,
    Over,
}

/// What the caller must do next.
#[derive(Debug)]
pub enum DocTask {
    /// Preprocess this text of this file, then report `Preprocessed` or
    /// `Failed`.
    Preprocess(FilePath, String),
    /// Read the file at this path, then report `Text`.
    Read(String),
    /// Parse the preprocessed lines of this file into the program, then
    /// report `Parsed` or `Failed`.
    Parse(FilePath),
    /// The document compiled.
    Done,
    /// The document did not compile.
    Failed,
}

/// What the caller reports.
#[derive(Debug)]
pub enum DocEvent {
    /// The file preprocessed: the includes it names and the macros it
    /// defines (name, body).
    Preprocessed(Vec<String>, Vec<(String, String)>),
    /// The text of the file, if it could be read.
    Text(Option<String>),
    /// The file parsed.
    Parsed,
    /// Preprocessing or parsing failed.
    Failed,
}

pub type DocFrameView = (Seq<char>, Seq<Seq<char>>, int);

pub enum DocPhaseView {
    Preprocessing,
    Reading(Seq<char>),
    Parsing,
    Over,
}

pub enum DocTaskView {
    Preprocess(Seq<char>, Seq<char>),
    Read(Seq<char>),
    Parse(Seq<char>),
    Done,
    Failed,
}

pub enum DocEventView {
    Preprocessed(Seq<Seq<char>>, Seq<(Seq<char>, Seq<char>)>),
    Text(Option<Seq<char>>),
    Parsed,
    Failed,
}

/// What a document compilation holds: the preprocessed files still open
/// (innermost last) with the file being preprocessed pending, what it
/// waits for, and the macros met so far.
#[verifier::ext_equal]
pub struct DocView {
    pub frames: Seq<DocFrameView>,
    pub pending: Seq<char>,
    pub phase: DocPhaseView,
    pub macros: Seq<(Seq<char>, Seq<char>)>,
}

/// The texts of a list of macros.
pub open spec fn macro_texts(m: Seq<(String, String)>) -> Seq<(Seq<char>, Seq<char>)> {
    m.map_values(|p: (String, String)| (p.0@, p.1@))
}

pub open spec fn doc_task_view(t: DocTask) -> DocTaskView {
    match t {
        DocTask::Preprocess(f, s) => DocTaskView::Preprocess(f@, s@),
        DocTask::Read(p) => DocTaskView::Read(p@),
        DocTask::Parse(f) => DocTaskView::Parse(f@),
        DocTask::Done => DocTaskView::Done,
        DocTask::Failed => DocTaskView::Failed,
    }
}

pub open spec fn doc_event_view(e: DocEvent) -> DocEventView {
    match e {
        DocEvent::Preprocessed(i, m) => DocEventView::Preprocessed(texts(i@), macro_texts(m@)),
        DocEvent::Text(t) => DocEventView::Text(
            match t {
                Some(x) => Some(x@),
                None => None,
            },
        ),
        DocEvent::Parsed => DocEventView::Parsed,
        DocEvent::Failed => DocEventView::Failed,
    }
}

spec fn doc_frames_view(s: Seq<DocFrame>) -> Seq<DocFrameView> {
    s.map_values(|f: DocFrame| (f.file@, texts(f.includes@), f.next as int))
}

spec fn doc_phase_view(p: DocPhase) -> DocPhaseView {
    match p {
        DocPhase::Preprocessing => DocPhaseView::Preprocessing,
        DocPhase::Reading(x) => DocPhaseView::Reading(x@),
        DocPhase::Parsing => DocPhaseView::Parsing,
        DocPhase::Over => DocPhaseView::Over,
    }
}

/// What comes after the innermost file changed: its next include is read
/// (from where it points next to that file), or, when all are dealt with,
/// the file is parsed; with no file left the document is done.
pub open spec fn doc_advance(v: DocView) -> (DocView, DocTaskView) {
    if v.frames.len() == 0 {
        (DocView { frames: v.frames, pending: v.pending, phase: DocPhaseView::Over, macros: v.macros }, DocTaskView::Done)
    } else {
        let (f, incs, n) = v.frames.last();
        if n < incs.len() {
            let p = include_target(path_parent(f), incs[n]);
            (
                DocView { frames: v.frames, pending: v.pending, phase: DocPhaseView::Reading(p), macros: v.macros },
                DocTaskView::Read(p),
            )
        } else {
            (DocView { frames: v.frames, pending: v.pending, phase: DocPhaseView::Parsing, macros: v.macros }, DocTaskView::Parse(f))
        }
    }
}

/// The innermost frame with one more include dealt with.
pub open spec fn doc_bump(frames: Seq<DocFrameView>) -> Seq<DocFrameView> {
    let (f, incs, n) = frames.last();
    frames.update(frames.len() - 1, (f, incs, n + 1))
}

/// The next view and task after event `e`; a failure, or an event that does
/// not answer the task asked for, ends the compilation as failed.
pub open spec fn doc_step(v: DocView, e: DocEventView) -> (DocView, DocTaskView) {
    let over = DocView { frames: v.frames, pending: v.pending, phase: DocPhaseView::Over, macros: v.macros };
    match v.phase {
        DocPhaseView::Preprocessing => match e {
            DocEventView::Preprocessed(incs, ms) => doc_advance(
                DocView { frames: v.frames.push((v.pending, incs, 0)), pending: v.pending, phase: v.phase, macros: v.macros + ms },
            ),
            _ => (over, DocTaskView::Failed),
        },
        DocPhaseView::Reading(p) => match e {
            DocEventView::Text(Some(t)) => (
                DocView { frames: doc_bump(v.frames), pending: p, phase: DocPhaseView::Preprocessing, macros: v.macros },
                DocTaskView::Preprocess(p, t),
            ),
            DocEventView::Text(None) => doc_advance(
                DocView { frames: doc_bump(v.frames), pending: v.pending, phase: v.phase, macros: v.macros },
            ),
            _ => (over, DocTaskView::Failed),
        },
        DocPhaseView::Parsing => match e {
            DocEventView::Parsed => doc_advance(
                DocView { frames: v.frames.drop_last(), pending: v.pending, phase: v.phase, macros: v.macros },
            ),
            _ => (over, DocTaskView::Failed),
        },
        DocPhaseView::Over => (v, DocTaskView::Failed),
    }
}

/// The compilation of an open document.
pub struct DocCompilation {
    stack: Vec<DocFrame>,
    pending: FilePath,
    phase: DocPhase,
    macros: Vec<(String, String)>,
}

spec fn doc_parts_ok(stack: Seq<DocFrame>, phase: DocPhase) -> bool {
    &&& forall|i: int| 0 <= i < stack.len() ==> (#[trigger] stack[i]).next <= stack[i].includes@.len()
    &&& phase is Reading ==> stack.len() > 0 && stack.last().next < stack.last().includes@.len()
    &&& phase is Parsing ==> stack.len() > 0
}

proof fn lemma_doc_frames_push(s: Seq<DocFrame>, f: DocFrame)
    ensures
        doc_frames_view(s.push(f)) == doc_frames_view(s).push((f.file@, texts(f.includes@), f.next as int)),
{
    assert(doc_frames_view(s.push(f)) =~= doc_frames_view(s).push((f.file@, texts(f.includes@), f.next as int)));
}

proof fn lemma_doc_frames_drop(s: Seq<DocFrame>)
    requires
        s.len() > 0,
    ensures
        doc_frames_view(s.drop_last()) == doc_frames_view(s).drop_last(),
        doc_frames_view(s).last() == (s.last().file@, texts(s.last().includes@), s.last().next as int),
{
    assert(doc_frames_view(s.drop_last()) =~= doc_frames_view(s).drop_last());
}

/// The innermost frame with one more include dealt with.
fn doc_bump_top(stack: &mut Vec<DocFrame>)
    requires
        old(stack)@.len() > 0,
        old(stack)@.last().next < old(stack)@.last().includes@.len(),
        forall|i: int| 0 <= i < old(stack)@.len() ==> (#[trigger] old(stack)@[i]).next <= old(stack)@[i].includes@.len(),
    ensures
        doc_frames_view(final(stack)@) == doc_bump(doc_frames_view(old(stack)@)),
        forall|i: int| 0 <= i < final(stack)@.len() ==> (#[trigger] final(stack)@[i]).next <= final(stack)@[i].includes@.len(),
{
    let ghost s = stack@;
    let mut top = stack.pop().unwrap();
    let len = top.includes.len();
    assert(top.next < len);
    top.next = top.next + 1;
    let ghost t = top;
    stack.push(top);
    proof {
        lemma_doc_frames_drop(s);
        lemma_doc_frames_push(s.drop_last(), t);
        assert(doc_frames_view(stack@) =~= doc_bump(doc_frames_view(s)));
    }
}

/// The next include of the innermost file is read, or the file is parsed;
/// with no file left the document is done.
fn doc_advance_parts(stack: &Vec<DocFrame>) -> (r: (DocPhase, DocTask))
    requires
        forall|i: int| 0 <= i < stack@.len() ==> (#[trigger] stack@[i]).next <= stack@[i].includes@.len(),
    ensures
        doc_phase_view(r.0) == doc_advance(
            DocView { frames: doc_frames_view(stack@), pending: Seq::empty(), phase: DocPhaseView::Over, macros: Seq::empty() },
        ).0.phase,
        doc_task_view(r.1) == doc_advance(
            DocView { frames: doc_frames_view(stack@), pending: Seq::empty(), phase: DocPhaseView::Over, macros: Seq::empty() },
        ).1,
        doc_parts_ok(stack@, r.0),
{
    if stack.len() == 0 {
        return (DocPhase::Over, DocTask::Done);
    }
    let top = &stack[stack.len() - 1];
    proof {
        lemma_doc_frames_drop(stack@);
    }
    if top.next < top.includes.len() {
        assert(texts(top.includes@)[top.next as int] == top.includes@[top.next as int]@);
        let target = match resolve_include_path(top.file.as_str(), top.includes[top.next].as_str()) {
            Some(p) => p,
            None => {
                assert(false);
                return (DocPhase::Over, DocTask::Failed);
            },
        };
        let read = target.clone();
        (DocPhase::Reading(target), DocTask::Read(read))
    } else {
        (DocPhase::Parsing, DocTask::Parse(share_path(&top.file)))
    }
}

impl DocCompilation {
    #[verifier::type_invariant]
    spec fn inv(self) -> bool {
        doc_parts_ok(self.stack@, self.phase)
    }

    /// What the compilation holds.
    pub closed spec fn state(self) -> DocView {
        DocView {
            frames: doc_frames_view(self.stack@),
            pending: self.pending@,
            phase: doc_phase_view(self.phase),
            macros: macro_texts(self.macros@),
        }
    }

    /// The compilation of the document `filename` with text `text`: it starts
    /// by preprocessing that text.
    pub fn start(filename: &FilePath, text: String) -> (r: (DocCompilation, DocTask))
        ensures
            r.0.state().frames.len() == 0,
            r.0.state().pending == filename@,
            r.0.state().phase == DocPhaseView::Preprocessing,
            r.0.state().macros.len() == 0,
            doc_task_view(r.1) == DocTaskView::Preprocess(filename@, text@),
    {
        let c = DocCompilation {
            stack: Vec::new(),
            pending: share_path(filename),
            phase: DocPhase::Preprocessing,
            macros: Vec::new(),
        };
        (c, DocTask::Preprocess(share_path(filename), text))
    }

    /// The next task after event `e`.
    pub fn step(&mut self, e: DocEvent) -> (t: DocTask)
        ensures
            final(self).state() == doc_step(old(self).state(), doc_event_view(e)).0,
            doc_task_view(t) == doc_step(old(self).state(), doc_event_view(e)).1,
    {
        proof {
            use_type_invariant(&*self);
        }
        let ghost v = self.state();
        let mut placeholder = DocCompilation {
            stack: Vec::new(),
            pending: share_path(&self.pending),
            phase: DocPhase::Over,
            macros: Vec::new(),
        };
        std::mem::swap(self, &mut placeholder);
        let DocCompilation { stack: mut stack, pending, phase, macros: mut macros } = placeholder;
        let ghost m0 = macros@;
        let (pending2, phase2, task) = match phase {
            DocPhase::Preprocessing => match e {
                DocEvent::Preprocessed(incs, mut ms) => {
                    let ghost msv = ms@;
                    macros.append(&mut ms);
                    assert(macro_texts(macros@) =~= macro_texts(m0) + macro_texts(msv));
                    let ghost s0 = stack@;
                    let fr = DocFrame { file: share_path(&pending), includes: incs, next: 0 };
                    let ghost frv = fr;
                    stack.push(fr);
                    proof {
                        lemma_doc_frames_push(s0, frv);
                    }
                    let (ph, tk) = doc_advance_parts(&stack);
                    (pending, ph, tk)
                },
                _ => (pending, DocPhase::Over, DocTask::Failed),
            },
            DocPhase::Reading(p) => match e {
                DocEvent::Text(Some(t)) => {
                    doc_bump_top(&mut stack);
                    let file = std::sync::Arc::new(p);
                    let task_file = share_path(&file);
                    (file, DocPhase::Preprocessing, DocTask::Preprocess(task_file, t))
                },
                DocEvent::Text(None) => {
                    doc_bump_top(&mut stack);
                    let (ph, tk) = doc_advance_parts(&stack);
                    (pending, ph, tk)
                },
                _ => (pending, DocPhase::Over, DocTask::Failed),
            },
            DocPhase::Parsing => match e {
                DocEvent::Parsed => {
                    let ghost s0 = stack@;
                    let _top = stack.pop();
                    proof {
                        lemma_doc_frames_drop(s0);
                    }
                    let (ph, tk) = doc_advance_parts(&stack);
                    (pending, ph, tk)
                },
                _ => (pending, DocPhase::Over, DocTask::Failed),
            },
            DocPhase::Over => (pending, DocPhase::Over, DocTask::Failed),
        };
        *self = DocCompilation { stack, pending: pending2, phase: phase2, macros };
        task
    }

    /// The macros met, in the order their files were preprocessed.
    pub fn into_macros(self) -> (m: Vec<(String, String)>)
        ensures
            macro_texts(m@) == self.state().macros,
    {
        self.macros
    }
}

/// Law: a step keeps the macros met so far, in order, and adds only the
/// macros of the file it was told was preprocessed, after them.
pub proof fn law_doc_macros_kept(v: DocView, e: DocEventView)
    ensures
        doc_step(v, e).0.macros == match (v.phase, e) {
            (DocPhaseView::Preprocessing, DocEventView::Preprocessed(_, ms)) => v.macros + ms,
            _ => v.macros,
        },
{
}

} // verus!
