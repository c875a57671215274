use vstd::prelude::*;
use crate::matcher::{EntryKind, Config, entry_selected, entry_matches, opt_view};

verus! {

/// What the walk asks of the filesystem next.
pub enum Action {
    /// Read the kind and the basename of this path.
    Classify(String),
    /// Enumerate the children of this directory, as paths joined onto it.
    List(String),
    /// Every root has been walked.
    Done,
}

/// What the filesystem answered to the last action.
pub enum Event {
    /// The entry's kind, and its basename where that is readable text.
    Classified { kind: EntryKind, name: Option<String> },
    /// The entry could not be classified (it vanished, or access was denied).
    ClassifyFailed { cause: String },
    /// The children read, in order, and the cause if enumeration stopped early.
    Listed { children: Vec<String>, failure: Option<String> },
}

/// What one answer produces: a matched path, a diagnostic line, and the next action.
pub struct Step {
    pub report: Option<String>,
    pub diagnostic: Option<String>,
    pub action: Action,
}

/// The model of an `Action`.
pub enum Stage {
    Classify(Seq<char>),
    List(Seq<char>),
    Done,
}

/// The model of an `Event`.
pub enum Input {
    Classified(EntryKind, Option<Seq<char>>),
    ClassifyFailed(Seq<char>),
    Listed(Seq<Seq<char>>, Option<Seq<char>>),
}

/// The model of a walk in progress: the paths still to visit (the next one
/// last) and what is awaited now.
pub struct WalkState {
    pub pending: Seq<Seq<char>>,
    pub stage: Stage,
}

/// The model of a `Step`.
pub struct Outcome {
    pub report: Option<Seq<char>>,
    pub diagnostic: Option<Seq<char>>,
    pub stage: Stage,
}

impl View for Action {
    type V = Stage;

    open spec fn view(&self) -> Stage {
        match self {
            Action::Classify(p) => Stage::Classify(p@),
            Action::List(p) => Stage::List(p@),
            Action::Done => Stage::Done,
        }
    }
}

impl View for Event {
    type V = Input;

    open spec fn view(&self) -> Input {
        match self {
            Event::Classified { kind, name } => Input::Classified(*kind, opt_view(*name)),
            Event::ClassifyFailed { cause } => Input::ClassifyFailed(cause@),
            Event::Listed { children, failure } => Input::Listed(
                children@.map_values(|c: String| c@),
                opt_view(*failure),
            ),
        }
    }
}

impl View for Step {
    type V = Outcome;

    open spec fn view(&self) -> Outcome {
        Outcome { report: opt_view(self.report), diagnostic: opt_view(self.diagnostic), stage: self.action@ }
    }
}

/// The diagnostic for a path that failed: `<path>: <cause>`.
pub open spec fn diagnostic_line(path: Seq<char>, cause: Seq<char>) -> Seq<char> {
    path + seq![':', ' '] + cause
}

/// Takes the next pending path to classify, or ends the walk.
pub open spec fn pop_pending(pending: Seq<Seq<char>>) -> WalkState {
    if pending.len() == 0 {
        WalkState { pending, stage: Stage::Done }
    } else {
        WalkState { pending: pending.drop_last(), stage: Stage::Classify(pending.last()) }
    }
}

/// The walk before any answer: the roots, first one next.
pub open spec fn initial_state(roots: Seq<Seq<char>>) -> WalkState {
    pop_pending(roots.reverse())
}

/// One step of the walk. A classified entry is reported when selected; a
/// directory is then listed, and its children are visited before anything
/// that was pending. A failure gives one diagnostic and the walk goes on with
/// what was pending. An answer that does not fit what was asked changes nothing.
pub open spec fn transition(
    patterns: Seq<Seq<char>>,
    types: Seq<EntryKind>,
    s: WalkState,
    input: Input,
) -> (WalkState, Outcome) {
    let unchanged = (s, Outcome { report: None, diagnostic: None, stage: s.stage });
    match s.stage {
        Stage::Classify(path) => match input {
            Input::Classified(kind, name) => {
                let report = if entry_selected(patterns, types, name, kind) {
                    Some(path)
                } else {
                    None
                };
                let next = if kind == EntryKind::Directory {
                    WalkState { pending: s.pending, stage: Stage::List(path) }
                } else {
                    pop_pending(s.pending)
                };
                (next, Outcome { report, diagnostic: None, stage: next.stage })
            },
            Input::ClassifyFailed(cause) => {
                let next = pop_pending(s.pending);
                (next, Outcome { report: None, diagnostic: Some(diagnostic_line(path, cause)), stage: next.stage })
            },
            Input::Listed(_, _) => unchanged,
        },
        Stage::List(path) => match input {
            Input::Listed(children, failure) => {
                let next = pop_pending(s.pending + children.reverse());
                let diagnostic = match failure {
                    Some(cause) => Some(diagnostic_line(path, cause)),
                    None => None,
                };
                (next, Outcome { report: None, diagnostic, stage: next.stage })
            },
            _ => unchanged,
        },
        Stage::Done => unchanged,
    }
}

/// A depth-first search in progress. It performs no I/O: the caller carries
/// out each `Action` and answers with the `Event` it observed.
pub struct Walker {
    config: Config,
    pending: Vec<String>,
    stage: Action,
}

impl View for Walker {
    type V = WalkState;

    closed spec fn view(&self) -> WalkState {
        WalkState { pending: self.pending@.map_values(|s: String| s@), stage: self.stage@ }
    }
}

fn clone_action(a: &Action) -> (r: Action)
    ensures
        r@ == a@,
{
    match a {
        Action::Classify(p) => Action::Classify(p.clone()),
        Action::List(p) => Action::List(p.clone()),
        Action::Done => Action::Done,
    }
}

fn join_cause(path: &String, cause: &String) -> (r: String)
    ensures
        r@ == diagnostic_line(path@, cause@),
{
    let mut line = path.clone();
    line.append(": ");
    line.append(cause.as_str());
    proof {
        reveal_strlit(": ");
        assert(line@ =~= diagnostic_line(path@, cause@));
    }
    line
}

impl Walker {
    /// The name patterns the walk selects by.
    pub closed spec fn patterns(&self) -> Seq<Seq<char>> {
        self.config.patterns_view()
    }

    /// The kind filters the walk selects by.
    pub closed spec fn types(&self) -> Seq<EntryKind> {
        self.config.type_filters@
    }

    /// Starts a walk over the configured roots, in their order.
    pub fn new(config: Config) -> (w: Walker)
        ensures
            w@ == initial_state(config.roots_view()),
            w.patterns() == config.patterns_view(),
            w.types() == config.type_filters@,
    {
        let mut pending: Vec<String> = Vec::new();
        let n = config.roots.len();
        let mut k: usize = n;
        while k > 0
            invariant
                k <= n == config.roots@.len(),
                pending@.map_values(|s: String| s@) =~= Seq::new(
                    (n - k) as nat,
                    |i: int| config.roots_view()[n - 1 - i],
                ),
            decreases k,
        {
            k = k - 1;
            let ghost prev = pending@;
            pending.push(config.roots[k].clone());
            assert(pending@.map_values(|s: String| s@) =~= prev.map_values(|s: String| s@).push(
                config.roots_view()[k as int],
            ));
        }
        assert(pending@.map_values(|s: String| s@) =~= config.roots_view().reverse());
        let mut w = Walker { config, pending, stage: Action::Done };
        w.take_next();
        w
    }

    /// Moves on to the next pending path.
    fn take_next(&mut self) -> (r: Action)
        ensures
            final(self)@ == pop_pending(old(self)@.pending),
            final(self).config == old(self).config,
            r@ == final(self)@.stage,
    {
        let ghost before = self.pending@;
        match self.pending.pop() {
            Some(p) => {
                proof {
                    assert(self.pending@.map_values(|s: String| s@) =~= before.map_values(
                        |s: String| s@,
                    ).drop_last());
                }
                let a = Action::Classify(p.clone());
                self.stage = Action::Classify(p);
                a
            },
            None => {
                self.stage = Action::Done;
                Action::Done
            },
        }
    }

    /// What the walk awaits now.
    pub fn action(&self) -> (r: Action)
        ensures
            r@ == self@.stage,
    {
        clone_action(&self.stage)
    }

    /// Takes the answer to the current action and decides what follows.
    pub fn advance(&mut self, event: Event) -> (r: Step)
        ensures
            (final(self)@, r@) == transition(old(self).patterns(), old(self).types(), old(self)@, event@),
            final(self).patterns() == old(self).patterns(),
            final(self).types() == old(self).types(),
    {
        let ghost s0 = self@;
        let stage = clone_action(&self.stage);
        match stage {
            Action::Classify(path) => match event {
                Event::Classified { kind, name } => {
                    let selected = entry_matches(&name, kind, &self.config);
                    let report = if selected {
                        Some(path.clone())
                    } else {
                        None
                    };
                    let action = if kind == EntryKind::Directory {
                        self.stage = Action::List(path.clone());
                        Action::List(path)
                    } else {
                        self.take_next()
                    };
                    Step { report, diagnostic: None, action }
                },
                Event::ClassifyFailed { cause } => {
                    let line = join_cause(&path, &cause);
                    let action = self.take_next();
                    Step { report: None, diagnostic: Some(line), action }
                },
                Event::Listed { .. } => Step { report: None, diagnostic: None, action: Action::Classify(path) },
            },
            Action::List(path) => match event {
                Event::Listed { children, failure } => {
                    let ghost kids = children@.map_values(|c: String| c@);
                    let ghost base = self.pending@.map_values(|s: String| s@);
                    let n = children.len();
                    let mut k: usize = n;
                    while k > 0
                        invariant
                            k <= n == children@.len(),
                            kids == children@.map_values(|c: String| c@),
                            self.config == old(self).config,
                            self.pending@.map_values(|s: String| s@) =~= base + Seq::new(
                                (n - k) as nat,
                                |i: int| kids[n - 1 - i],
                            ),
                        decreases k,
                    {
                        k = k - 1;
                        let ghost prev = self.pending@;
                        self.pending.push(children[k].clone());
                        assert(self.pending@.map_values(|s: String| s@) =~= prev.map_values(
                            |s: String| s@,
                        ).push(kids[k as int]));
                    }
                    assert(self.pending@.map_values(|s: String| s@) =~= base + kids.reverse());
                    let diagnostic = match failure {
                        Some(cause) => Some(join_cause(&path, &cause)),
                        None => None,
                    };
                    let action = self.take_next();
                    Step { report: None, diagnostic, action }
                },
                _ => Step { report: None, diagnostic: None, action: Action::List(path) },
            },
            Action::Done => Step { report: None, diagnostic: None, action: Action::Done },
        }
    }
}

/// The outcomes of a walk that receives the given answers in turn.
pub open spec fn run(
    patterns: Seq<Seq<char>>,
    types: Seq<EntryKind>,
    s: WalkState,
    inputs: Seq<Input>,
) -> Seq<Outcome>
    decreases inputs.len(),
{
    if inputs.len() == 0 {
        Seq::empty()
    } else {
        let (next, out) = transition(patterns, types, s, inputs[0]);
        seq![out] + run(patterns, types, next, inputs.drop_first())
    }
}

/// The paths reported over a sequence of outcomes, in order.
pub open spec fn reported(outcomes: Seq<Outcome>) -> Seq<Seq<char>>
    decreases outcomes.len(),
{
    if outcomes.len() == 0 {
        Seq::empty()
    } else {
        let rest = reported(outcomes.drop_first());
        match outcomes[0].report {
            Some(p) => seq![p] + rest,
            None => rest,
        }
    }
}

/// The paths that were classified over a walk receiving these answers, in order.
pub open spec fn classified(
    patterns: Seq<Seq<char>>,
    types: Seq<EntryKind>,
    s: WalkState,
    inputs: Seq<Input>,
) -> Seq<Seq<char>>
    decreases inputs.len(),
{
    if inputs.len() == 0 {
        Seq::empty()
    } else {
        let next = transition(patterns, types, s, inputs[0]).0;
        let rest = classified(patterns, types, next, inputs.drop_first());
        match (s.stage, inputs[0]) {
            (Stage::Classify(p), Input::Classified(_, _)) => seq![p] + rest,
            _ => rest,
        }
    }
}

/// Over a whole walk without name patterns and kind filters, the reported
/// paths are exactly the classified ones, each once, in the order visited.
pub proof fn lemma_unfiltered_walk_reports_all(s: WalkState, inputs: Seq<Input>)
    ensures
        reported(run(Seq::empty(), Seq::empty(), s, inputs)) == classified(
            Seq::empty(),
            Seq::empty(),
            s,
            inputs,
        ),
    decreases inputs.len(),
{
    let e = Seq::<Seq<char>>::empty();
    let t = Seq::<EntryKind>::empty();
    if inputs.len() > 0 {
        let (next, out) = transition(e, t, s, inputs[0]);
        lemma_unfiltered_walk_reports_all(next, inputs.drop_first());
        let outs = run(e, t, s, inputs);
        assert(outs[0] == out);
        assert(outs.drop_first() =~= run(e, t, next, inputs.drop_first()));
    }
}

/// Without name patterns and kind filters, every entry that is classified is
/// reported, with its path as the walk reached it.
pub proof fn lemma_unfiltered_step_reports_entry(s: WalkState, kind: EntryKind, name: Option<Seq<char>>)
    requires
        s.stage is Classify,
    ensures
        transition(Seq::empty(), Seq::empty(), s, Input::Classified(kind, name)).1.report
            == Some(s.stage->Classify_0),
{
}

/// A path is reported only as the answer to its own classification, and that
/// answer never puts anything back on the pending paths: an entry, once taken
/// from them, is reported at most once.
pub proof fn lemma_reports_come_from_classification(
    patterns: Seq<Seq<char>>,
    types: Seq<EntryKind>,
    s: WalkState,
    input: Input,
)
    ensures
        transition(patterns, types, s, input).1.report is Some ==> {
            &&& s.stage is Classify
            &&& input is Classified
            &&& transition(patterns, types, s, input).1.report == Some(s.stage->Classify_0)
        },
        s.stage is Classify ==> !(transition(patterns, types, s, input).0.pending.len() > s.pending.len()),
{
}

/// The one kind an entry is given decides the walk: only a directory is descended into;
/// a file or a symlink is a leaf, and the walk moves on to the next pending path.
pub proof fn lemma_only_directories_are_listed(
    patterns: Seq<Seq<char>>,
    types: Seq<EntryKind>,
    s: WalkState,
    kind: EntryKind,
    name: Option<Seq<char>>,
)
    requires
        s.stage is Classify,
    ensures
        (kind == EntryKind::Directory) ==> transition(patterns, types, s, Input::Classified(kind, name)).0
            == (WalkState { pending: s.pending, stage: Stage::List(s.stage->Classify_0) }),
        (kind != EntryKind::Directory) ==> transition(patterns, types, s, Input::Classified(kind, name)).0
            == pop_pending(s.pending),
{
}

/// A selected directory is reported before it is listed, and its children
/// are visited next, first child first, ahead of everything that was pending.
pub proof fn lemma_directory_reported_before_descendants(
    patterns: Seq<Seq<char>>,
    types: Seq<EntryKind>,
    s: WalkState,
    name: Option<Seq<char>>,
    children: Seq<Seq<char>>,
    failure: Option<Seq<char>>,
)
    requires
        s.stage is Classify,
        entry_selected(patterns, types, name, EntryKind::Directory),
    ensures
        ({
            let (mid, out) = transition(patterns, types, s, Input::Classified(EntryKind::Directory, name));
            let (next, _) = transition(patterns, types, mid, Input::Listed(children, failure));
            &&& out.report == Some(s.stage->Classify_0)
            &&& out.stage == Stage::List(s.stage->Classify_0)
            &&& children.len() > 0 ==> next.stage == Stage::Classify(children[0])
            &&& children.len() > 0 ==> next.pending == s.pending + children.drop_first().reverse()
        }),
{
    if children.len() > 0 {
        let all = s.pending + children.reverse();
        assert(all.last() == children[0]);
        assert(all.drop_last() =~= s.pending + children.drop_first().reverse());
    }
}

/// A failure on one entry gives one diagnostic naming it and leaves every
/// pending sibling to be visited; a directory whose enumeration stops early
/// still has each child read before the failure visited.
pub proof fn lemma_failure_is_isolated(
    patterns: Seq<Seq<char>>,
    types: Seq<EntryKind>,
    s: WalkState,
    cause: Seq<char>,
    children: Seq<Seq<char>>,
)
    ensures
        s.stage is Classify ==> {
            let (next, out) = transition(patterns, types, s, Input::ClassifyFailed(cause));
            &&& out.report is None
            &&& out.diagnostic == Some(diagnostic_line(s.stage->Classify_0, cause))
            &&& next == pop_pending(s.pending)
        },
        s.stage is List ==> {
            let (next, out) = transition(patterns, types, s, Input::Listed(children, Some(cause)));
            &&& out.diagnostic == Some(diagnostic_line(s.stage->List_0, cause))
            &&& next == pop_pending(s.pending + children.reverse())
        },
{
}

} // verus!
