//! Compiling a root file step by step. The caller reads files and runs the
//! preprocessor and the parser; this state machine decides, after each
//! result, what is done next: files are preprocessed depth first, each file
//! after the files it includes, every file at most once.
use vstd::prelude::*;
use crate::ast::{Ast, Control, Declared};
use crate::config::texts;
use crate::project::{share_path, FilePath, SymbolKind};
use crate::unit::{
    all_declared, ast_symbols, control_symbols, decl_count, decl_view, defined_in, index_map, index_matches, path_texts,
    symbol_views, unresolved_warning, RootBuild, RootUnit, SymbolView,
};

verus! {

/// A file whose preprocessing is done: the files it includes, and how many
/// of them are dealt with.
struct Frame {
    file: FilePath,
    includes: Vec<String>,
    next: usize,
}

/// What the compilation waits for.
enum Phase {
    Preprocessing(FilePath),
    Resolving,
    Reading(FilePath),
    Parsing,
    Over,
}

/// What the caller must do next.
#[derive(Debug)]
pub enum Task {
    /// Preprocess this text of this file with the current macro environment,
    /// then report `Preprocessed` or `PreprocessFailed`.
    Preprocess(FilePath, String),
    /// Find the file that this `#include`, written in this file, names, then
    /// report `Resolved`.
    Resolve(FilePath, String),
    /// Read this file, then report `Text`.
    Read(FilePath),
    /// Parse the preprocessed lines of this file into the program, then
    /// report `Parsed` or `ParseFailed`.
    Parse(FilePath),
    /// The root compiled.
    Done,
    /// The root did not compile.
    Failed,
}

/// What the caller reports.
#[derive(Debug)]
pub enum Event {
    /// The file preprocessed; these are the includes it names.
    Preprocessed(Vec<String>),
    /// Preprocessing failed, with this warning.
    PreprocessFailed(String),
    /// The file the include names, if one was found.
    Resolved(Option<FilePath>),
    /// The text of the file, if it could be read.
    Text(Option<String>),
    /// The file parsed; this is the program so far.
    Parsed(Ast),
    /// Parsing failed, with this warning.
    ParseFailed(String),
}

pub type FrameView = (Seq<char>, Seq<Seq<char>>, int);

pub enum PhaseView {
    Preprocessing(Seq<char>),
    Resolving,
    Reading(Seq<char>),
    Parsing,
    Over,
}

pub enum TaskView {
    Preprocess(Seq<char>, Seq<char>),
    Resolve(Seq<char>, Seq<char>),
    Read(Seq<char>),
    Parse(Seq<char>),
    Done,
    Failed,
}

pub enum EventView {
    Preprocessed(Seq<Seq<char>>),
    PreprocessFailed(Seq<char>),
    Resolved(Option<Seq<char>>),
    Text(Option<Seq<char>>),
    Parsed(Ast),
    ParseFailed(Seq<char>),
}

/// What a compilation holds: the frames (innermost last), what it waits
/// for, the files seen, the files finished in order and their positions,
/// the symbols recorded and the warnings met.
#[verifier::ext_equal]
pub struct CompileView {
    pub frames: Seq<FrameView>,
    pub phase: PhaseView,
    pub visited: Seq<Seq<char>>,
    pub order: Seq<Seq<char>>,
    pub index: Map<Seq<char>, usize>,
    pub symbols: Seq<SymbolView>,
    pub warnings: Seq<Seq<char>>,
}

spec fn frame_view(f: Frame) -> FrameView {
    (f.file@, texts(f.includes@), f.next as int)
}

spec fn frames_view(s: Seq<Frame>) -> Seq<FrameView> {
    s.map_values(|f: Frame| frame_view(f))
}

spec fn phase_view(p: Phase) -> PhaseView {
    match p {
        Phase::Preprocessing(f) => PhaseView::Preprocessing(f@),
        Phase::Resolving => PhaseView::Resolving,
        Phase::Reading(f) => PhaseView::Reading(f@),
        Phase::Parsing => PhaseView::Parsing,
        Phase::Over => PhaseView::Over,
    }
}

pub open spec fn task_view(a: Task) -> TaskView {
    match a {
        Task::Preprocess(f, t) => TaskView::Preprocess(f@, t@),
        Task::Resolve(f, i) => TaskView::Resolve(f@, i@),
        Task::Read(f) => TaskView::Read(f@),
        Task::Parse(f) => TaskView::Parse(f@),
        Task::Done => TaskView::Done,
        Task::Failed => TaskView::Failed,
    }
}

pub open spec fn event_view(e: Event) -> EventView {
    match e {
        Event::Preprocessed(v) => EventView::Preprocessed(texts(v@)),
        Event::PreprocessFailed(m) => EventView::PreprocessFailed(m@),
        Event::Resolved(p) => EventView::Resolved(
            match p {
                Some(x) => Some(x@),
                None => None,
            },
        ),
        Event::Text(t) => EventView::Text(
            match t {
                Some(x) => Some(x@),
                None => None,
            },
        ),
        Event::Parsed(a) => EventView::Parsed(a),
        Event::ParseFailed(m) => EventView::ParseFailed(m@),
    }
}

/// The view of a compilation made of these parts.
spec fn view_of(build: RootBuild, stack: Seq<Frame>, phase: Phase) -> CompileView {
    CompileView {
        frames: frames_view(stack),
        phase: phase_view(phase),
        visited: path_texts(build.visited@),
        order: path_texts(build.include_order@),
        index: index_map(build.include_index@),
        symbols: symbol_views(build.symbols.view()),
        warnings: texts(build.warnings@),
    }
}

/// `v` with another phase.
pub open spec fn with_phase(v: CompileView, p: PhaseView) -> CompileView {
    CompileView {
        frames: v.frames,
        phase: p,
        visited: v.visited,
        order: v.order,
        index: v.index,
        symbols: v.symbols,
        warnings: v.warnings,
    }
}

/// `v` with other frames.
pub open spec fn with_frames(v: CompileView, frames: Seq<FrameView>) -> CompileView {
    CompileView {
        frames,
        phase: v.phase,
        visited: v.visited,
        order: v.order,
        index: v.index,
        symbols: v.symbols,
        warnings: v.warnings,
    }
}

/// `v` with a warning more, and over.
pub open spec fn failed_with(v: CompileView, m: Seq<char>) -> CompileView {
    CompileView {
        frames: v.frames,
        phase: PhaseView::Over,
        visited: v.visited,
        order: v.order,
        index: v.index,
        symbols: v.symbols,
        warnings: v.warnings.push(m),
    }
}

/// The innermost frame with one more include dealt with.
pub open spec fn bump(frames: Seq<FrameView>) -> Seq<FrameView> {
    let (f, incs, n) = frames.last();
    frames.update(frames.len() - 1, (f, incs, n + 1))
}

/// What comes after the innermost frame changed: its next include is
/// resolved, or, when all are dealt with, its file is finished and parsed;
/// with no frame left the root is done.
pub open spec fn advance(v: CompileView) -> (CompileView, TaskView) {
    if v.frames.len() == 0 {
        (with_phase(v, PhaseView::Over), TaskView::Done)
    } else {
        let (f, incs, n) = v.frames.last();
        if n < incs.len() {
            (with_phase(v, PhaseView::Resolving), TaskView::Resolve(f, incs[n]))
        } else {
            (
                CompileView {
                    frames: v.frames,
                    phase: PhaseView::Parsing,
                    visited: v.visited,
                    order: v.order.push(f),
                    index: v.index.insert(f, v.order.len() as usize),
                    symbols: v.symbols,
                    warnings: v.warnings,
                },
                TaskView::Parse(f),
            )
        }
    }
}

/// The next view and action after event `e`; an event that does not answer
/// the action asked for ends the compilation as failed.
pub open spec fn step_view(v: CompileView, e: EventView) -> (CompileView, TaskView) {
    match v.phase {
        PhaseView::Preprocessing(f) => match e {
            EventView::Preprocessed(incs) => advance(with_frames(v, v.frames.push((f, incs, 0)))),
            EventView::PreprocessFailed(m) => (failed_with(v, m), TaskView::Failed),
            _ => (with_phase(v, PhaseView::Over), TaskView::Failed),
        },
        PhaseView::Resolving => match e {
            EventView::Resolved(Some(p)) => (with_phase(v, PhaseView::Reading(p)), TaskView::Read(p)),
            EventView::Resolved(None) => {
                let (f, incs, n) = v.frames.last();
                let w = with_frames(v, bump(v.frames));
                advance(
                    CompileView {
                        frames: w.frames,
                        phase: w.phase,
                        visited: w.visited,
                        order: w.order,
                        index: w.index,
                        symbols: w.symbols,
                        warnings: w.warnings.push(unresolved_warning(incs[n], f)),
                    },
                )
            },
            _ => (with_phase(v, PhaseView::Over), TaskView::Failed),
        },
        PhaseView::Reading(p) => match e {
            EventView::Text(Some(t)) => {
                let w = with_frames(v, bump(v.frames));
                if v.visited.contains(p) {
                    advance(w)
                } else {
                    (
                        CompileView {
                            frames: w.frames,
                            phase: PhaseView::Preprocessing(p),
                            visited: w.visited.push(p),
                            order: w.order,
                            index: w.index,
                            symbols: w.symbols,
                            warnings: w.warnings,
                        },
                        TaskView::Preprocess(p, t),
                    )
                }
            },
            EventView::Text(None) => advance(with_frames(v, bump(v.frames))),
            _ => (with_phase(v, PhaseView::Over), TaskView::Failed),
        },
        PhaseView::Parsing => match e {
            EventView::Parsed(ast) => {
                let (f, incs, n) = v.frames.last();
                advance(
                    CompileView {
                        frames: v.frames.drop_last(),
                        phase: v.phase,
                        visited: v.visited,
                        order: v.order,
                        index: v.index,
                        symbols: v.symbols + ast_symbols(ast, f),
                        warnings: v.warnings,
                    },
                )
            },
            EventView::ParseFailed(m) => (failed_with(v, m), TaskView::Failed),
            _ => (with_phase(v, PhaseView::Over), TaskView::Failed),
        },
        PhaseView::Over => (v, TaskView::Failed),
    }
}

/// The compilation of a root file.
pub struct Compilation {
    build: RootBuild,
    stack: Vec<Frame>,
    phase: Phase,
}

/// Frames and phase agree: no frame has dealt with more includes than it
/// has, and what the compilation waits for concerns a frame that exists.
spec fn parts_ok(stack: Seq<Frame>, phase: Phase) -> bool {
    &&& forall|i: int| 0 <= i < stack.len() ==> (#[trigger] stack[i]).next <= stack[i].includes@.len()
    &&& (phase is Resolving || phase is Reading) ==> stack.len() > 0 && stack.last().next
        < stack.last().includes@.len()
    &&& phase is Parsing ==> stack.len() > 0
}

proof fn lemma_frames_push(s: Seq<Frame>, f: Frame)
    ensures
        frames_view(s.push(f)) == frames_view(s).push(frame_view(f)),
{
    assert(frames_view(s.push(f)) =~= frames_view(s).push(frame_view(f)));
}

proof fn lemma_frames_drop(s: Seq<Frame>)
    requires
        s.len() > 0,
    ensures
        frames_view(s.drop_last()) == frames_view(s).drop_last(),
        frames_view(s).last() == frame_view(s.last()),
{
    assert(frames_view(s.drop_last()) =~= frames_view(s).drop_last());
}

/// The next include of the innermost frame is resolved, or its file is
/// finished and parsed; with no frame left the root is done.
fn advance_parts(build: &mut RootBuild, stack: &Vec<Frame>) -> (r: (Phase, Task))
    requires
        forall|i: int| 0 <= i < stack@.len() ==> (#[trigger] stack@[i]).next <= stack@[i].includes@.len(),
    ensures
        view_of(*final(build), stack@, r.0) == advance(view_of(*old(build), stack@, Phase::Over)).0,
        index_matches(old(build).include_index@, old(build).include_order@) ==> index_matches(
            final(build).include_index@,
            final(build).include_order@,
        ),
        task_view(r.1) == advance(view_of(*old(build), stack@, Phase::Over)).1,
        parts_ok(stack@, r.0),
{
    let ghost v = view_of(*build, stack@, Phase::Over);
    if stack.len() == 0 {
        return (Phase::Over, Task::Done);
    }
    let top = &stack[stack.len() - 1];
    proof {
        lemma_frames_drop(stack@);
    }
    if top.next < top.includes.len() {
        assert(texts(top.includes@)[top.next as int] == top.includes@[top.next as int]@);
        (Phase::Resolving, Task::Resolve(share_path(&top.file), top.includes[top.next].clone()))
    } else {
        build.finish_file(&top.file);
        (Phase::Parsing, Task::Parse(share_path(&top.file)))
    }
}

/// The innermost frame with one more include dealt with.
fn bump_top(stack: &mut Vec<Frame>)
    requires
        old(stack)@.len() > 0,
        old(stack)@.last().next < old(stack)@.last().includes@.len(),
        forall|i: int| 0 <= i < old(stack)@.len() ==> (#[trigger] old(stack)@[i]).next <= old(stack)@[i].includes@.len(),
    ensures
        frames_view(final(stack)@) == bump(frames_view(old(stack)@)),
        forall|i: int| 0 <= i < final(stack)@.len() ==> (#[trigger] final(stack)@[i]).next <= final(stack)@[i].includes@.len(),
{
    let ghost s = stack@;
    let mut top = stack.pop().unwrap();
    let len = top.includes.len();
    assert(top.next < len);
    top.next = top.next + 1;
    let ghost t = top;
    stack.push(top);
    proof {
        lemma_frames_drop(s);
        lemma_frames_push(s.drop_last(), t);
        assert(frames_view(stack@) =~= bump(frames_view(s)));
    }
}

impl Compilation {
    #[verifier::type_invariant]
    spec fn inv(self) -> bool {
        &&& parts_ok(self.stack@, self.phase)
        &&& index_matches(self.build.include_index@, self.build.include_order@)
        &&& run_ok(view_of(self.build, self.stack@, self.phase))
        &&& run_shape(view_of(self.build, self.stack@, self.phase))
    }

    /// What the compilation holds.
    pub closed spec fn state(self) -> CompileView {
        view_of(self.build, self.stack@, self.phase)
    }

    /// The compilation of `root`, whose text is `text`: it starts by
    /// preprocessing the root.
    pub fn start(root: &FilePath, text: String) -> (r: (Compilation, Task))
        ensures
            r.0.state().frames.len() == 0,
            r.0.state().phase == PhaseView::Preprocessing(root@),
            r.0.state().visited == seq![root@],
            r.0.state().order.len() == 0,
            r.0.state().index.dom() == Set::<Seq<char>>::empty(),
            r.0.state().symbols.len() == 0,
            r.0.state().warnings.len() == 0,
            run_ok(r.0.state()),
            run_shape(r.0.state()),
            task_view(r.1) == TaskView::Preprocess(root@, text@),
    {
        let mut build = RootBuild::new();
        let first = build.enter(root);
        assert(path_texts(build.visited@) =~= seq![root@]);
        assert(index_map(build.include_index@) =~= Map::empty());
        assert(symbol_views(build.symbols.view()) =~= Seq::<SymbolView>::empty());
        assert(texts(build.warnings@) =~= Seq::<Seq<char>>::empty());
        assert(frames_view(Seq::<Frame>::empty()) =~= Seq::<FrameView>::empty());
        assert(path_texts(build.visited@)[0] == root@);
        let c = Compilation { build, stack: Vec::new(), phase: Phase::Preprocessing(share_path(root)) };
        (c, Task::Preprocess(share_path(root), text))
    }

    /// Whether the symbols of `ast` fit in the table after those recorded.
    pub fn has_room_for(&self, ast: &Ast) -> (r: bool)
        ensures
            r == (self.state().symbols.len() + decl_count(*ast) + 1 < usize::MAX),
    {
        let n = self.build.symbols.symbols().len();
        let ghost d = decl_count(*ast);
        let ghost cs = ast.controls@;
        let parts = [
            ast.structs.len(),
            ast.headers.len(),
            ast.typedefs.len(),
            ast.constants.len(),
            ast.parsers.len(),
            ast.externs.len(),
            ast.packages.len(),
        ];
        proof {
            reveal_with_fuel(sum_first, 8);
            crate::unit::lemma_control_size_prefix(cs, 0);
            lemma_sum_first_le(parts@, 0);
        }
        assert(d == sum_first(parts@, 7) + crate::unit::control_size(cs));
        assert(symbol_views(self.build.symbols.view()).len() == n);
        let mut total: usize = n;
        let mut i: usize = 0;
        while i < 7
            invariant
                i <= 7,
                parts@.len() == 7,
                d == decl_count(*ast),
                n == self.state().symbols.len(),
                cs == ast.controls@,
                d == sum_first(parts@, 7) + crate::unit::control_size(cs),
                crate::unit::control_size(cs) >= 0,
                forall|m: int| 0 <= m <= 7 ==> sum_first(parts@, #[trigger] (m + 0)) <= sum_first(parts@, 7),
                total == n + sum_first(parts@, i as int),
            decreases 7 - i,
        {
            assert(sum_first(parts@, i as int + 1) == sum_first(parts@, i as int) + parts@[i as int]);
            assert(sum_first(parts@, (i as int + 1) + 0) <= sum_first(parts@, 7));
            match total.checked_add(parts[i]) {
                Some(t) => total = t,
                None => {
                    return false;
                },
            }
            i += 1;
        }
        let mut c: usize = 0;
        while c < ast.controls.len()
            invariant
                c <= ast.controls@.len(),
                cs == ast.controls@,
                d == decl_count(*ast),
                n == self.state().symbols.len(),
                d == sum_first(parts@, 7) + crate::unit::control_size(cs),
                total == n + sum_first(parts@, 7) + crate::unit::control_size(cs.take(c as int)),
            decreases ast.controls@.len() - c,
        {
            assert(cs.take(c as int + 1).drop_last() =~= cs.take(c as int));
            assert(cs.take(c as int + 1).last() == cs[c as int]);
            assert(crate::unit::control_size(cs.take(c as int + 1)) == crate::unit::control_size(cs.take(c as int))
                + 1 + cs[c as int].actions@.len() + cs[c as int].tables@.len());
            proof {
                crate::unit::lemma_control_size_prefix(cs, c as int + 1);
            }
            let ctl = &ast.controls[c];
            let step = match ctl.actions.len().checked_add(ctl.tables.len()) {
                Some(x) => x,
                None => {
                    return false;
                },
            };
            match total.checked_add(step) {
                Some(t) => match t.checked_add(1) {
                    Some(u) => total = u,
                    None => {
                        return false;
                    },
                },
                None => {
                    return false;
                },
            }
            c += 1;
        }
        assert(cs.take(cs.len() as int) =~= cs);
        match total.checked_add(1) {
            Some(t) => t < usize::MAX,
            None => false,
        }
    }

    /// The next action after event `e`.
    pub fn step(&mut self, e: Event) -> (a: Task)
        requires
            e matches Event::Parsed(ast) ==> old(self).state().symbols.len() + decl_count(ast) + 1 < usize::MAX,
        ensures
            final(self).state() == step_view(old(self).state(), event_view(e)).0,
            task_view(a) == step_view(old(self).state(), event_view(e)).1,
    {
        proof {
            use_type_invariant(&*self);
        }
        let ghost v = self.state();
        let ghost ev = event_view(e);
        let mut placeholder = Compilation { build: RootBuild::new(), stack: Vec::new(), phase: Phase::Over };
        std::mem::swap(self, &mut placeholder);
        let Compilation { build: mut build, stack: mut stack, phase } = placeholder;
        assert(v == view_of(build, stack@, phase));
        let ghost b0 = build;
        let (phase2, action) = match phase {
            Phase::Preprocessing(f) => match e {
                Event::Preprocessed(incs) => {
                    let ghost fr = Frame { file: f, includes: incs, next: 0 };
                    let ghost s0 = stack@;
                    stack.push(Frame { file: f, includes: incs, next: 0 });
                    proof {
                        lemma_frames_push(s0, fr);
                    }
                    advance_parts(&mut build, &stack)
                },
                Event::PreprocessFailed(m) => {
                    let ghost mv = m@;
                    build.warn(m);
                    assert(texts(build.warnings@) =~= texts(b0.warnings@).push(mv));
                    (Phase::Over, Task::Failed)
                },
                _ => (Phase::Over, Task::Failed),
            },
            Phase::Resolving => match e {
                Event::Resolved(Some(p)) => {
                    let q = share_path(&p);
                    (Phase::Reading(p), Task::Read(q))
                },
                Event::Resolved(None) => {
                    let top = &stack[stack.len() - 1];
                    proof {
                        lemma_frames_drop(stack@);
                    }
                    assert(texts(top.includes@)[top.next as int] == top.includes@[top.next as int]@);
                    build.warn_unresolved(top.includes[top.next].as_str(), &top.file);
                    assert(texts(build.warnings@) =~= texts(b0.warnings@).push(build.warnings@.last()@));
                    bump_top(&mut stack);
                    advance_parts(&mut build, &stack)
                },
                _ => (Phase::Over, Task::Failed),
            },
            Phase::Reading(p) => match e {
                Event::Text(Some(t)) => {
                    bump_top(&mut stack);
                    if build.enter(&p) {
                        let q = share_path(&p);
                        (Phase::Preprocessing(p), Task::Preprocess(q, t))
                    } else {
                        advance_parts(&mut build, &stack)
                    }
                },
                Event::Text(None) => {
                    bump_top(&mut stack);
                    advance_parts(&mut build, &stack)
                },
                _ => (Phase::Over, Task::Failed),
            },
            Phase::Parsing => match e {
                Event::Parsed(ast) => {
                    let ghost s0 = stack@;
                    let top = stack.pop().unwrap();
                    proof {
                        lemma_frames_drop(s0);
                    }
                    build.add_symbols(&ast, &top.file);
                    advance_parts(&mut build, &stack)
                },
                Event::ParseFailed(m) => {
                    let ghost mv = m@;
                    build.warn(m);
                    assert(texts(build.warnings@) =~= texts(b0.warnings@).push(mv));
                    (Phase::Over, Task::Failed)
                },
                _ => (Phase::Over, Task::Failed),
            },
            Phase::Over => (Phase::Over, Task::Failed),
        };
        proof {
            law_run_ok_kept(v, ev);
            law_run_shape_kept(v, ev);
        }
        *self = Compilation { build, stack, phase: phase2 };
        action
    }

    /// The unit the compilation made, for root `root` and program `ast`.
    pub fn into_unit(self, root: FilePath, ast: Ast) -> (u: RootUnit)
        ensures
            u.root == root,
            u.ast == ast,
            path_texts(u.include_order@) == self.state().order,
            index_map(u.include_index@) == self.state().index,
            symbol_views(u.symbols.view()) == self.state().symbols,
            texts(u.warnings@) == self.state().warnings,
            index_matches(u.include_index@, u.include_order@),
            run_ok(self.state()),
            run_shape(self.state()),
    {
        proof {
            use_type_invariant(&self);
        }
        self.build.into_unit(root, ast)
    }
}

/// Law: a step never forgets a file it has seen, and it asks for a file to
/// be preprocessed only when it has not seen that file before, marking it
/// seen; so no file is preprocessed twice.
pub proof fn law_preprocess_once(v: CompileView, e: EventView)
    ensures
        step_view(v, e).0.visited.len() >= v.visited.len(),
        step_view(v, e).0.visited.take(v.visited.len() as int) == v.visited,
        step_view(v, e).1 matches TaskView::Preprocess(p, t) ==> !v.visited.contains(p)
            && step_view(v, e).0.visited == v.visited.push(p),
{
    assert(v.visited.take(v.visited.len() as int) =~= v.visited);
    if let PhaseView::Reading(p) = v.phase {
        assert(v.visited.push(p).take(v.visited.len() as int) =~= v.visited);
    }
}

/// Law: the files are finished in order, each once: a step adds at most
/// the file it finishes at the end of the order, and records that file's
/// position as the position it takes.
pub proof fn law_finish_order(v: CompileView, e: EventView)
    ensures
        step_view(v, e).0.order.take(v.order.len() as int) == v.order,
        step_view(v, e).1 matches TaskView::Parse(f) ==> step_view(v, e).0.order == v.order.push(f)
            && step_view(v, e).0.index == v.index.insert(f, v.order.len() as usize),
        !(step_view(v, e).1 is Parse) ==> step_view(v, e).0.order == v.order,
{
    assert(v.order.take(v.order.len() as int) =~= v.order);
    let w = step_view(v, e).0;
    if w.order.len() > v.order.len() {
        assert(w.order.take(v.order.len() as int) =~= v.order);
    }
}

/// No text occurs twice in `s`.
pub open spec fn no_repeats(s: Seq<Seq<char>>) -> bool {
    forall|i: int, j: int| 0 <= i < j < s.len() ==> s[i] != s[j]
}

/// What holds of a compilation whatever it waits for: the finished files
/// are all different, each is at its own position in the index and the
/// index holds nothing else; every finished file and every file of a frame
/// has been seen; no two frames are of the same file; and every symbol
/// recorded comes from a finished file.
pub open spec fn files_ok(v: CompileView) -> bool {
    &&& no_repeats(v.order)
    &&& forall|k: int| 0 <= k < v.order.len() ==> v.index.dom().contains(#[trigger] v.order[k])
        && v.index[v.order[k]] == k as usize
    &&& forall|s: Seq<char>| #[trigger] v.index.dom().contains(s) ==> v.order.contains(s)
    &&& forall|k: int| 0 <= k < v.order.len() ==> v.visited.contains(#[trigger] v.order[k])
    &&& forall|i: int, j: int| 0 <= i < j < v.frames.len() ==> (#[trigger] v.frames[i]).0 != (#[trigger] v.frames[j]).0
    &&& forall|i: int| 0 <= i < v.frames.len() ==> v.visited.contains((#[trigger] v.frames[i]).0)
    &&& forall|k: int| 0 <= k < v.symbols.len() ==> v.order.contains((#[trigger] v.symbols[k]).2)
}

/// `files_ok`, and no file of a frame is finished yet.
pub open spec fn settled(v: CompileView) -> bool {
    &&& files_ok(v)
    &&& forall|i: int| 0 <= i < v.frames.len() ==> !v.order.contains((#[trigger] v.frames[i]).0)
}

/// What every compilation keeps, from its start to its end: `files_ok`,
/// and, by what it waits for: a file to preprocess has been seen, is not
/// finished and has no frame; an include to resolve or read belongs to a
/// frame, and no frame is finished; a file to parse is the innermost
/// frame's, which is the last file finished, and no other frame is.
pub open spec fn run_ok(v: CompileView) -> bool {
    &&& files_ok(v)
    &&& match v.phase {
        PhaseView::Preprocessing(p) => settled(v) && v.visited.contains(p) && !v.order.contains(p)
            && forall|i: int| 0 <= i < v.frames.len() ==> (#[trigger] v.frames[i]).0 != p,
        PhaseView::Resolving => settled(v) && v.frames.len() > 0,
        PhaseView::Reading(_) => settled(v) && v.frames.len() > 0,
        PhaseView::Parsing => v.frames.len() > 0 && v.order.len() > 0 && v.order.last() == v.frames.last().0
            && settled(with_frames(v, v.frames.drop_last())),
        PhaseView::Over => true,
    }
}

proof fn lemma_defined_in_file<T: Declared>(v: Seq<T>, kind: SymbolKind, file: Seq<char>)
    ensures
        forall|k: int| 0 <= k < defined_in(v, kind, file).len()
            ==> (#[trigger] defined_in(v, kind, file)[k]).2 == file,
    decreases v.len(),
{
    if v.len() > 0 {
        let prev = defined_in(v.drop_last(), kind, file);
        lemma_defined_in_file(v.drop_last(), kind, file);
        assert forall|k: int| 0 <= k < defined_in(v, kind, file).len() implies (#[trigger] defined_in(
            v,
            kind,
            file,
        )[k]).2 == file by {
            if k < prev.len() {
                assert(prev[k].2 == file);
            }
        }
    }
}

proof fn lemma_all_declared_file<T: Declared>(v: Seq<T>, kind: SymbolKind, file: Seq<char>)
    ensures
        forall|k: int| 0 <= k < all_declared(v, kind, file).len()
            ==> (#[trigger] all_declared(v, kind, file)[k]).2 == file,
{
}

proof fn lemma_control_symbols_file(cs: Seq<Control>, file: Seq<char>)
    ensures
        forall|k: int| 0 <= k < control_symbols(cs, file).len()
            ==> (#[trigger] control_symbols(cs, file)[k]).2 == file,
    decreases cs.len(),
{
    if cs.len() > 0 {
        let prev = control_symbols(cs.drop_last(), file);
        lemma_control_symbols_file(cs.drop_last(), file);
        let c = cs.last();
        let acts = all_declared(c.actions@, SymbolKind::Action, file);
        let tabs = all_declared(c.tables@, SymbolKind::Table, file);
        lemma_all_declared_file(c.actions@, SymbolKind::Action, file);
        lemma_all_declared_file(c.tables@, SymbolKind::Table, file);
        if c.token.file@ == file {
            let head = prev.push(decl_view(c, SymbolKind::Control, file));
            assert forall|k: int| 0 <= k < control_symbols(cs, file).len() implies (#[trigger] control_symbols(
                cs,
                file,
            )[k]).2 == file by {
                if k < prev.len() {
                    assert(prev[k].2 == file);
                } else if k == prev.len() {
                } else if k < head.len() + acts.len() {
                    assert(acts[k - head.len()].2 == file);
                } else {
                    assert(tabs[k - head.len() - acts.len()].2 == file);
                }
            }
        }
    }
}

/// Every symbol that a program declares in `file` is attributed to `file`.
proof fn lemma_ast_symbols_file(ast: Ast, file: Seq<char>)
    ensures
        forall|k: int| 0 <= k < ast_symbols(ast, file).len() ==> (#[trigger] ast_symbols(ast, file)[k]).2 == file,
{
    lemma_defined_in_file(ast.structs@, SymbolKind::Struct, file);
    lemma_defined_in_file(ast.headers@, SymbolKind::Header, file);
    lemma_defined_in_file(ast.typedefs@, SymbolKind::Typedef, file);
    lemma_defined_in_file(ast.constants@, SymbolKind::Constant, file);
    lemma_control_symbols_file(ast.controls@, file);
    lemma_defined_in_file(ast.parsers@, SymbolKind::Parser, file);
    lemma_defined_in_file(ast.externs@, SymbolKind::Extern, file);
    lemma_defined_in_file(ast.packages@, SymbolKind::Package, file);
}

/// From a settled compilation, `advance` reaches one that keeps `run_ok`.
proof fn lemma_advance_ok(v: CompileView)
    requires
        settled(v),
    ensures
        run_ok(advance(v).0),
{
    if v.frames.len() > 0 {
        let (f, incs, n) = v.frames.last();
        if n >= incs.len() {
            let w = advance(v).0;
            assert(w.order.last() == f);
            assert forall|s: Seq<char>| #[trigger] w.index.dom().contains(s) implies w.order.contains(s) by {
                if s != f {
                    let k = choose|k: int| 0 <= k < v.order.len() && v.order[k] == s;
                    assert(w.order[k] == s);
                } else {
                    assert(w.order[v.order.len() as int] == s);
                }
            }
            assert forall|k: int| 0 <= k < w.symbols.len() implies w.order.contains((#[trigger] w.symbols[k]).2) by {
                let j = choose|j: int| 0 <= j < v.order.len() && v.order[j] == w.symbols[k].2;
                assert(w.order[j] == w.symbols[k].2);
            }
            let u = with_frames(w, w.frames.drop_last());
            assert forall|i: int| 0 <= i < u.frames.len() implies !u.order.contains((#[trigger] u.frames[i]).0) by {
                assert(v.frames[i] == u.frames[i]);
                if u.order.contains(u.frames[i].0) {
                    let j = choose|j: int| 0 <= j < u.order.len() && u.order[j] == u.frames[i].0;
                    if j < v.order.len() {
                        assert(v.order[j] == v.frames[i].0);
                    } else {
                        assert(v.frames[i].0 != v.frames[v.frames.len() - 1].0);
                    }
                }
            }
        }
    }
}

/// Law: a compilation keeps `run_ok` at every step, whatever the caller
/// reports: the finished files stay all different, each at its recorded
/// position, every symbol comes from a finished file, and no file is in
/// two frames at once.
pub proof fn law_run_ok_kept(v: CompileView, e: EventView)
    requires
        run_ok(v),
    ensures
        run_ok(step_view(v, e).0),
{
    match v.phase {
        PhaseView::Preprocessing(f) => {
            if let EventView::Preprocessed(incs) = e {
                let w = with_frames(v, v.frames.push((f, incs, 0)));
                assert(w.frames.last().0 == f);
                lemma_advance_ok(w);
            }
        },
        PhaseView::Resolving => {
            if let EventView::Resolved(None) = e {
                let (f, incs, n) = v.frames.last();
                let w = with_frames(v, bump(v.frames));
                let x = CompileView {
                    frames: w.frames,
                    phase: w.phase,
                    visited: w.visited,
                    order: w.order,
                    index: w.index,
                    symbols: w.symbols,
                    warnings: w.warnings.push(unresolved_warning(incs[n], f)),
                };
                assert forall|i: int| 0 <= i < x.frames.len() implies (#[trigger] x.frames[i]).0 == v.frames[i].0 by {}
                lemma_advance_ok(x);
            }
        },
        PhaseView::Reading(p) => {
            if let EventView::Text(t) = e {
                let w = with_frames(v, bump(v.frames));
                assert forall|i: int| 0 <= i < w.frames.len() implies (#[trigger] w.frames[i]).0 == v.frames[i].0 by {}
                if t is Some && !v.visited.contains(p) {
                    let x = step_view(v, e).0;
                    assert forall|k: int| 0 <= k < x.order.len() implies x.visited.contains(#[trigger] x.order[k]) by {
                        let j = choose|j: int| 0 <= j < v.visited.len() && v.visited[j] == x.order[k];
                        assert(x.visited[j] == x.order[k]);
                    }
                    assert forall|i: int| 0 <= i < x.frames.len() implies x.visited.contains((#[trigger] x.frames[i]).0) by {
                        let j = choose|j: int| 0 <= j < v.visited.len() && v.visited[j] == x.frames[i].0;
                        assert(x.visited[j] == x.frames[i].0);
                    }
                    assert(x.visited[v.visited.len() as int] == p);
                    assert forall|i: int| 0 <= i < x.frames.len() implies (#[trigger] x.frames[i]).0 != p by {
                        assert(v.visited.contains(v.frames[i].0));
                    }
                    assert(!x.order.contains(p)) by {
                        if x.order.contains(p) {
                            let j = choose|j: int| 0 <= j < v.order.len() && v.order[j] == p;
                            assert(v.visited.contains(v.order[j]));
                        }
                    }
                } else {
                    lemma_advance_ok(w);
                }
            }
        },
        PhaseView::Parsing => {
            if let EventView::Parsed(ast) = e {
                let f = v.frames.last().0;
                let x = CompileView {
                    frames: v.frames.drop_last(),
                    phase: v.phase,
                    visited: v.visited,
                    order: v.order,
                    index: v.index,
                    symbols: v.symbols + ast_symbols(ast, f),
                    warnings: v.warnings,
                };
                lemma_ast_symbols_file(ast, f);
                assert(v.order[v.order.len() - 1] == f);
                let u = with_frames(v, v.frames.drop_last());
                assert forall|i: int| 0 <= i < x.frames.len() implies !x.order.contains((#[trigger] x.frames[i]).0) by {
                    assert(x.frames[i] == u.frames[i]);
                    assert(!u.order.contains(u.frames[i].0));
                }
                assert forall|k: int| 0 <= k < x.symbols.len() implies x.order.contains((#[trigger] x.symbols[k]).2) by {
                    if k >= v.symbols.len() {
                        assert(x.symbols[k] == ast_symbols(ast, f)[k - v.symbols.len()]);
                    } else {
                        assert(x.symbols[k] == v.symbols[k]);
                    }
                }
                lemma_advance_ok(x);
            }
        },
        PhaseView::Over => {},
    }
}

/// `x` occurs before `y` in `s`.
pub open spec fn seen_before(s: Seq<Seq<char>>, x: Seq<char>, y: Seq<char>) -> bool {
    exists|a: int, b: int| 0 <= a < b < s.len() && s[a] == x && s[b] == y
}

/// File `x` is finished, or open in a frame, or about to be preprocessed.
pub open spec fn open_or_done(v: CompileView, x: Seq<char>) -> bool {
    ||| v.order.contains(x)
    ||| exists|i: int| 0 <= i < v.frames.len() && (#[trigger] v.frames[i]).0 == x
    ||| v.phase == PhaseView::Preprocessing(x)
}

/// The shape of a compilation, whose root is the first file seen: no file
/// is seen twice; the outermost frame is the root's and the frames are in
/// the order their files were first seen; a file to preprocess is the one
/// seen last (the root, when no frame is open yet, before anything is
/// finished); while the compilation runs, every file seen is finished, open
/// or about to be preprocessed; and once no frame is left with something
/// finished, the root is the last file finished and every file seen is
/// finished.
pub open spec fn run_shape(v: CompileView) -> bool {
    &&& no_repeats(v.visited)
    &&& v.frames.len() > 0 ==> v.frames[0].0 == v.visited[0]
    &&& forall|i: int, j: int|
        0 <= i < j < v.frames.len() ==> seen_before(v.visited, (#[trigger] v.frames[i]).0, (#[trigger] v.frames[j]).0)
    &&& v.phase matches PhaseView::Preprocessing(p) ==> p == v.visited.last() && (v.frames.len() == 0
        ==> v.visited.len() == 1 && v.order.len() == 0)
    &&& !(v.phase is Over) ==> forall|k: int| 0 <= k < v.visited.len() ==> open_or_done(v, #[trigger] v.visited[k])
    &&& v.frames.len() == 0 && v.order.len() > 0 ==> v.order.last() == v.visited[0] && forall|k: int|
        0 <= k < v.visited.len() ==> v.order.contains(#[trigger] v.visited[k])
}

/// What holds just before `advance`: `run_shape` without a file to
/// preprocess, and with the root last finished when no frame is left.
spec fn shape_pre(v: CompileView) -> bool {
    &&& no_repeats(v.visited)
    &&& v.frames.len() > 0 ==> v.frames[0].0 == v.visited[0]
    &&& forall|i: int, j: int|
        0 <= i < j < v.frames.len() ==> seen_before(v.visited, (#[trigger] v.frames[i]).0, (#[trigger] v.frames[j]).0)
    &&& forall|k: int| 0 <= k < v.visited.len() ==> v.order.contains(#[trigger] v.visited[k]) || exists|i: int|
        0 <= i < v.frames.len() && (#[trigger] v.frames[i]).0 == v.visited[k]
    &&& v.frames.len() == 0 ==> v.order.len() > 0 && v.order.last() == v.visited[0]
}

proof fn lemma_advance_shape(v: CompileView)
    requires
        shape_pre(v),
    ensures
        run_shape(advance(v).0),
        advance(v).1 is Done ==> advance(v).0.order.len() > 0 && advance(v).0.order.last() == v.visited[0]
            && forall|k: int| 0 <= k < v.visited.len() ==> advance(v).0.order.contains(#[trigger] v.visited[k]),
        advance(v).1 matches TaskView::Parse(f) ==> forall|i: int, j: int|
            #![trigger v.visited[i], v.visited[j]]
            0 <= i < j < v.visited.len() && v.visited[i] == f ==> advance(v).0.order.contains(v.visited[j]),
{
    let w = advance(v).0;
    if v.frames.len() == 0 {
        assert forall|k: int| 0 <= k < v.visited.len() implies v.order.contains(#[trigger] v.visited[k]) by {
            assert(v.order.contains(v.visited[k]) || exists|i: int|
                0 <= i < v.frames.len() && (#[trigger] v.frames[i]).0 == v.visited[k]);
        }
    } else {
        let (f, incs, n) = v.frames.last();
        let top = v.frames.len() - 1;
        if n < incs.len() {
            assert forall|k: int| 0 <= k < w.visited.len() implies open_or_done(w, #[trigger] w.visited[k]) by {
                if !v.order.contains(v.visited[k]) {
                    let i = choose|i: int| 0 <= i < v.frames.len() && (#[trigger] v.frames[i]).0 == v.visited[k];
                    assert(w.frames[i].0 == w.visited[k]);
                }
            }
        } else {
            assert forall|k: int| 0 <= k < v.visited.len() && v.order.contains(v.visited[k]) implies w.order.contains(
                #[trigger] v.visited[k],
            ) by {
                let a = choose|a: int| 0 <= a < v.order.len() && v.order[a] == v.visited[k];
                assert(w.order[a] == v.visited[k]);
            }
            assert(w.order[v.order.len() as int] == f);
            assert forall|k: int| 0 <= k < w.visited.len() implies open_or_done(w, #[trigger] w.visited[k]) by {
                if !v.order.contains(v.visited[k]) {
                    let i = choose|i: int| 0 <= i < v.frames.len() && (#[trigger] v.frames[i]).0 == v.visited[k];
                    assert(w.frames[i].0 == w.visited[k]);
                }
            }
            assert forall|i: int, j: int|
                #![trigger v.visited[i], v.visited[j]]
                0 <= i < j < v.visited.len() && v.visited[i] == f implies w.order.contains(v.visited[j]) by {
                if !v.order.contains(v.visited[j]) {
                    let m = choose|m: int| 0 <= m < v.frames.len() && (#[trigger] v.frames[m]).0 == v.visited[j];
                    if m == top {
                        assert(v.visited[i] == v.visited[j]);
                    } else {
                        assert(seen_before(v.visited, v.frames[m].0, v.frames[top].0));
                        let (a, b) = choose|a: int, b: int|
                            0 <= a < b < v.visited.len() && v.visited[a] == v.frames[m].0 && v.visited[b]
                                == v.frames[top].0;
                        assert(v.visited[a] == v.visited[j]);
                        assert(v.visited[b] == v.visited[i]);
                    }
                }
            }
        }
    }
}

/// Law: a compilation keeps `run_shape` at every step. So the root is
/// finished last: when the compilation is done, the order ends with the
/// root and every file seen is finished. And each file is finished after
/// the files it pulls in: when a file is finished, every file first seen
/// after it is finished already, and among those are all the files it
/// pulls in that had not been seen before it (one it pulls in that is
/// still open is part of an include cycle).
pub proof fn law_run_shape_kept(v: CompileView, e: EventView)
    requires
        run_ok(v),
        run_shape(v),
    ensures
        run_shape(step_view(v, e).0),
        step_view(v, e).1 is Done ==> step_view(v, e).0.order.len() > 0 && step_view(v, e).0.order.last()
            == step_view(v, e).0.visited[0] && forall|k: int|
            0 <= k < step_view(v, e).0.visited.len() ==> step_view(v, e).0.order.contains(
                #[trigger] step_view(v, e).0.visited[k],
            ),
        step_view(v, e).1 matches TaskView::Parse(f) ==> forall|i: int, j: int|
            #![trigger step_view(v, e).0.visited[i], step_view(v, e).0.visited[j]]
            0 <= i < j < step_view(v, e).0.visited.len() && step_view(v, e).0.visited[i] == f
                ==> step_view(v, e).0.order.contains(step_view(v, e).0.visited[j]),
{
    match v.phase {
        PhaseView::Preprocessing(p) => {
            if let EventView::Preprocessed(incs) = e {
                let w = with_frames(v, v.frames.push((p, incs, 0)));
                let last = v.frames.len() as int;
                assert(w.frames[last].0 == p);
                assert(v.visited[v.visited.len() - 1] == p);
                assert forall|i: int, j: int| 0 <= i < j < w.frames.len() implies seen_before(
                    w.visited,
                    (#[trigger] w.frames[i]).0,
                    (#[trigger] w.frames[j]).0,
                ) by {
                    if j == last {
                        assert(w.frames[i] == v.frames[i]);
                        let a = choose|a: int| 0 <= a < v.visited.len() && v.visited[a] == v.frames[i].0;
                        assert(a != v.visited.len() - 1);
                    } else {
                        assert(w.frames[i] == v.frames[i]);
                        assert(w.frames[j] == v.frames[j]);
                    }
                }
                assert forall|k: int| 0 <= k < w.visited.len() implies w.order.contains(#[trigger] w.visited[k])
                    || exists|i: int| 0 <= i < w.frames.len() && (#[trigger] w.frames[i]).0 == w.visited[k] by {
                    assert(open_or_done(v, v.visited[k]));
                    if !v.order.contains(v.visited[k]) {
                        if v.visited[k] == p {
                            assert(w.frames[last].0 == w.visited[k]);
                        } else {
                            let i = choose|i: int| 0 <= i < v.frames.len() && (#[trigger] v.frames[i]).0 == v.visited[k];
                            assert(w.frames[i].0 == w.visited[k]);
                        }
                    }
                }
                if v.frames.len() > 0 {
                    assert(w.frames[0] == v.frames[0]);
                }
                lemma_advance_shape(w);
            }
        },
        PhaseView::Resolving => {
            if let EventView::Resolved(None) = e {
                let (f, incs, n) = v.frames.last();
                let w = with_frames(v, bump(v.frames));
                let x = CompileView {
                    frames: w.frames,
                    phase: w.phase,
                    visited: w.visited,
                    order: w.order,
                    index: w.index,
                    symbols: w.symbols,
                    warnings: w.warnings.push(unresolved_warning(incs[n], f)),
                };
                lemma_bump_shape(v, x);
                lemma_advance_shape(x);
            }
        },
        PhaseView::Reading(p) => {
            if let EventView::Text(t) = e {
                let w = with_frames(v, bump(v.frames));
                if t is Some && !v.visited.contains(p) {
                    let x = step_view(v, e).0;
                    let len = v.visited.len() as int;
                    assert(x.visited[len] == p);
                    assert(x.visited[0] == v.visited[0]);
                    assert forall|a: int, b: int| 0 <= a < b < x.visited.len() implies x.visited[a] != x.visited[b] by {
                        if b == len {
                            assert(v.visited[a] == x.visited[a]);
                        } else {
                            assert(v.visited[a] == x.visited[a]);
                            assert(v.visited[b] == x.visited[b]);
                        }
                    }
                    assert forall|i: int| 0 <= i < x.frames.len() implies (#[trigger] x.frames[i]).0 == v.frames[i].0 by {}
                    assert forall|i: int, j: int| 0 <= i < j < x.frames.len() implies seen_before(
                        x.visited,
                        (#[trigger] x.frames[i]).0,
                        (#[trigger] x.frames[j]).0,
                    ) by {
                        assert(seen_before(v.visited, v.frames[i].0, v.frames[j].0));
                        let (a, b) = choose|a: int, b: int|
                            0 <= a < b < v.visited.len() && v.visited[a] == v.frames[i].0 && v.visited[b] == v.frames[j].0;
                        assert(x.visited[a] == v.visited[a] && x.visited[b] == v.visited[b]);
                    }
                    assert forall|k: int| 0 <= k < x.visited.len() implies open_or_done(x, #[trigger] x.visited[k]) by {
                        if k < len {
                            assert(x.visited[k] == v.visited[k]);
                            assert(open_or_done(v, v.visited[k]));
                            if v.order.contains(v.visited[k]) {
                            } else {
                                let i = choose|i: int| 0 <= i < v.frames.len() && (#[trigger] v.frames[i]).0 == v.visited[k];
                                assert(x.frames[i].0 == x.visited[k]);
                            }
                        }
                    }
                } else {
                    lemma_bump_shape(v, w);
                    lemma_advance_shape(w);
                }
            }
        },
        PhaseView::Parsing => {
            if let EventView::Parsed(ast) = e {
                let f = v.frames.last().0;
                let top = v.frames.len() - 1;
                let x = CompileView {
                    frames: v.frames.drop_last(),
                    phase: v.phase,
                    visited: v.visited,
                    order: v.order,
                    index: v.index,
                    symbols: v.symbols + ast_symbols(ast, f),
                    warnings: v.warnings,
                };
                assert(v.order[v.order.len() - 1] == f);
                assert forall|i: int, j: int| 0 <= i < j < x.frames.len() implies seen_before(
                    x.visited,
                    (#[trigger] x.frames[i]).0,
                    (#[trigger] x.frames[j]).0,
                ) by {
                    assert(x.frames[i] == v.frames[i] && x.frames[j] == v.frames[j]);
                }
                assert forall|k: int| 0 <= k < x.visited.len() implies x.order.contains(#[trigger] x.visited[k])
                    || exists|i: int| 0 <= i < x.frames.len() && (#[trigger] x.frames[i]).0 == x.visited[k] by {
                    assert(open_or_done(v, v.visited[k]));
                    if !v.order.contains(v.visited[k]) {
                        let i = choose|i: int| 0 <= i < v.frames.len() && (#[trigger] v.frames[i]).0 == v.visited[k];
                        if i == top {
                            assert(v.order[v.order.len() - 1] == v.visited[k]);
                        } else {
                            assert(x.frames[i].0 == x.visited[k]);
                        }
                    }
                }
                if x.frames.len() > 0 {
                    assert(x.frames[0] == v.frames[0]);
                }
                lemma_advance_shape(x);
            }
        },
        PhaseView::Over => {},
    }
}

/// One more include of the innermost frame dealt with keeps the shape, as
/// it was before `advance`.
proof fn lemma_bump_shape(v: CompileView, x: CompileView)
    requires
        run_shape(v),
        v.phase is Resolving || v.phase is Reading,
        v.frames.len() > 0,
        x.frames == bump(v.frames),
        x.visited == v.visited,
        x.order == v.order,
    ensures
        shape_pre(x),
{
    assert forall|i: int| 0 <= i < x.frames.len() implies (#[trigger] x.frames[i]).0 == v.frames[i].0 by {}
    assert forall|i: int, j: int| 0 <= i < j < x.frames.len() implies seen_before(
        x.visited,
        (#[trigger] x.frames[i]).0,
        (#[trigger] x.frames[j]).0,
    ) by {
        assert(seen_before(v.visited, v.frames[i].0, v.frames[j].0));
    }
    assert forall|k: int| 0 <= k < x.visited.len() implies x.order.contains(#[trigger] x.visited[k])
        || exists|i: int| 0 <= i < x.frames.len() && (#[trigger] x.frames[i]).0 == x.visited[k] by {
        assert(open_or_done(v, v.visited[k]));
        if !v.order.contains(v.visited[k]) {
            let i = choose|i: int| 0 <= i < v.frames.len() && (#[trigger] v.frames[i]).0 == v.visited[k];
            assert(x.frames[i].0 == x.visited[k]);
        }
    }
}

/// The sum of the first `n` numbers of `s`.
pub open spec fn sum_first(s: Seq<usize>, n: int) -> int
    decreases n,
{
    if n <= 0 {
        0
    } else {
        sum_first(s, n - 1) + s[n - 1]
    }
}

proof fn lemma_sum_first_le(s: Seq<usize>, n: int)
    requires
        0 <= n <= s.len(),
    ensures
        forall|m: int| n <= m <= s.len() ==> sum_first(s, n) <= #[trigger] sum_first(s, m),
    decreases s.len() - n,
{
    if n < s.len() {
        lemma_sum_first_le(s, n + 1);
    }
}

} // verus!
