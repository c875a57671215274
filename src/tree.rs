use vstd::prelude::*;
use crate::matcher::{EntryKind, entry_selected};
use crate::walker::{Input, Outcome, Stage, WalkState, initial_state, pop_pending, reported, run, transition};

verus! {

/// A filesystem tree as the walk observes it: the kind of each path that can
/// be classified (any other path fails), the basename of each path that has
/// one in readable text, and the children of each directory.
pub struct Tree {
    pub kinds: Map<Seq<char>, EntryKind>,
    pub names: Map<Seq<char>, Seq<char>>,
    pub children: Map<Seq<char>, Seq<Seq<char>>>,
}

impl Tree {
    pub open spec fn is_directory(self, path: Seq<char>) -> bool {
        self.kinds.contains_key(path) && self.kinds[path] == EntryKind::Directory
    }

    pub open spec fn name_of(self, path: Seq<char>) -> Option<Seq<char>> {
        if self.names.contains_key(path) {
            Some(self.names[path])
        } else {
            None
        }
    }

    pub open spec fn children_of(self, path: Seq<char>) -> Seq<Seq<char>> {
        if self.children.contains_key(path) {
            self.children[path]
        } else {
            Seq::empty()
        }
    }

    /// The answer the tree gives when asked to classify `path`.
    pub open spec fn classify(self, path: Seq<char>) -> Input {
        if self.kinds.contains_key(path) {
            Input::Classified(self.kinds[path], self.name_of(path))
        } else {
            Input::ClassifyFailed(Seq::empty())
        }
    }

    /// Every directory under `path` lies fewer than `h` levels down.
    pub open spec fn within(self, path: Seq<char>, h: nat) -> bool
        decreases h,
    {
        self.is_directory(path) ==> h > 0 && forall|i: int|
            0 <= i < self.children_of(path).len() ==> self.within(
                #[trigger] self.children_of(path)[i],
                (h - 1) as nat,
            )
    }

    pub open spec fn all_within(self, paths: Seq<Seq<char>>, h: nat) -> bool {
        forall|i: int| 0 <= i < paths.len() ==> self.within(#[trigger] paths[i], h)
    }

    /// The answers a walk of `path` receives, in order.
    pub open spec fn answers(self, path: Seq<char>, h: nat) -> Seq<Input>
        decreases h, 0nat, 0nat,
    {
        if self.is_directory(path) && h > 0 {
            seq![self.classify(path), Input::Listed(self.children_of(path), None)] + self.answers_all(
                self.children_of(path),
                (h - 1) as nat,
            )
        } else {
            seq![self.classify(path)]
        }
    }

    pub open spec fn answers_all(self, paths: Seq<Seq<char>>, h: nat) -> Seq<Input>
        decreases h, 1nat, paths.len(),
    {
        if paths.len() == 0 {
            Seq::empty()
        } else {
            self.answers(paths[0], h) + self.answers_all(paths.drop_first(), h)
        }
    }

    /// The entries under `path` that are selected, each directory before its
    /// descendants and siblings in the order listed.
    pub open spec fn selected(
        self,
        patterns: Seq<Seq<char>>,
        types: Seq<EntryKind>,
        path: Seq<char>,
        h: nat,
    ) -> Seq<Seq<char>>
        decreases h, 0nat, 0nat,
    {
        let own = if self.kinds.contains_key(path) && entry_selected(
            patterns,
            types,
            self.name_of(path),
            self.kinds[path],
        ) {
            seq![path]
        } else {
            Seq::empty()
        };
        if self.is_directory(path) && h > 0 {
            own + self.selected_all(patterns, types, self.children_of(path), (h - 1) as nat)
        } else {
            own
        }
    }

    pub open spec fn selected_all(
        self,
        patterns: Seq<Seq<char>>,
        types: Seq<EntryKind>,
        paths: Seq<Seq<char>>,
        h: nat,
    ) -> Seq<Seq<char>>
        decreases h, 1nat, paths.len(),
    {
        if paths.len() == 0 {
            Seq::empty()
        } else {
            self.selected(patterns, types, paths[0], h) + self.selected_all(
                patterns,
                types,
                paths.drop_first(),
                h,
            )
        }
    }

    /// Every entry under `path` that can be classified, each directory before
    /// its descendants.
    pub open spec fn entries(self, path: Seq<char>, h: nat) -> Seq<Seq<char>>
        decreases h, 0nat, 0nat,
    {
        let own = if self.kinds.contains_key(path) {
            seq![path]
        } else {
            Seq::empty()
        };
        if self.is_directory(path) && h > 0 {
            own + self.entries_all(self.children_of(path), (h - 1) as nat)
        } else {
            own
        }
    }

    pub open spec fn entries_all(self, paths: Seq<Seq<char>>, h: nat) -> Seq<Seq<char>>
        decreases h, 1nat, paths.len(),
    {
        if paths.len() == 0 {
            Seq::empty()
        } else {
            self.entries(paths[0], h) + self.entries_all(paths.drop_first(), h)
        }
    }
}

/// The state a walk reaches after the given answers.
pub open spec fn end_state(
    patterns: Seq<Seq<char>>,
    types: Seq<EntryKind>,
    s: WalkState,
    inputs: Seq<Input>,
) -> WalkState
    decreases inputs.len(),
{
    if inputs.len() == 0 {
        s
    } else {
        end_state(patterns, types, transition(patterns, types, s, inputs[0]).0, inputs.drop_first())
    }
}

proof fn lemma_reported_append(a: Seq<Outcome>, b: Seq<Outcome>)
    ensures
        reported(a + b) == reported(a) + reported(b),
    decreases a.len(),
{
    if a.len() == 0 {
        assert(a + b =~= b);
        assert(reported(a) + reported(b) =~= reported(b));
    } else {
        assert((a + b).drop_first() =~= a.drop_first() + b);
        lemma_reported_append(a.drop_first(), b);
        assert((a + b)[0] == a[0]);
        match a[0].report {
            Some(p) => assert(seq![p] + (reported(a.drop_first()) + reported(b)) =~= (seq![p]
                + reported(a.drop_first())) + reported(b)),
            None => {},
        }
    }
}

proof fn lemma_run_append(
    patterns: Seq<Seq<char>>,
    types: Seq<EntryKind>,
    s: WalkState,
    xs: Seq<Input>,
    ys: Seq<Input>,
)
    ensures
        run(patterns, types, s, xs + ys) == run(patterns, types, s, xs) + run(
            patterns,
            types,
            end_state(patterns, types, s, xs),
            ys,
        ),
        end_state(patterns, types, s, xs + ys) == end_state(
            patterns,
            types,
            end_state(patterns, types, s, xs),
            ys,
        ),
    decreases xs.len(),
{
    if xs.len() == 0 {
        assert(xs + ys =~= ys);
        assert(run(patterns, types, s, xs) =~= Seq::<Outcome>::empty());
        assert(Seq::<Outcome>::empty() + run(patterns, types, s, ys) =~= run(patterns, types, s, ys));
    } else {
        let next = transition(patterns, types, s, xs[0]).0;
        assert((xs + ys)[0] == xs[0]);
        assert((xs + ys).drop_first() =~= xs.drop_first() + ys);
        lemma_run_append(patterns, types, next, xs.drop_first(), ys);
        let o = transition(patterns, types, s, xs[0]).1;
        assert(seq![o] + (run(patterns, types, next, xs.drop_first()) + run(
            patterns,
            types,
            end_state(patterns, types, next, xs.drop_first()),
            ys,
        )) =~= (seq![o] + run(patterns, types, next, xs.drop_first())) + run(
            patterns,
            types,
            end_state(patterns, types, next, xs.drop_first()),
            ys,
        ));
    }
}

/// Walking one entry from the state that is about to classify it.
proof fn lemma_walk_entry(
    tree: Tree,
    patterns: Seq<Seq<char>>,
    types: Seq<EntryKind>,
    pending: Seq<Seq<char>>,
    path: Seq<char>,
    h: nat,
)
    requires
        tree.within(path, h),
    ensures
        ({
            let s = WalkState { pending, stage: Stage::Classify(path) };
            let xs = tree.answers(path, h);
            &&& end_state(patterns, types, s, xs) == pop_pending(pending)
            &&& reported(run(patterns, types, s, xs)) == tree.selected(patterns, types, path, h)
        }),
    decreases h, 0nat, 0nat,
{
    let s = WalkState { pending, stage: Stage::Classify(path) };
    let first = tree.classify(path);
    let (s1, o1) = transition(patterns, types, s, first);
    let own = tree.selected(patterns, types, path, h);
    if tree.is_directory(path) && h > 0 {
        let cs = tree.children_of(path);
        let listed = Input::Listed(cs, None);
        let head = seq![first, listed];
        let rest = tree.answers_all(cs, (h - 1) as nat);
        let (s2, o2) = transition(patterns, types, s1, listed);
        assert(s1 == WalkState { pending, stage: Stage::List(path) });
        assert(s2 == pop_pending(pending + cs.reverse()));
        assert(head[0] == first);
        assert(head.drop_first().drop_first() =~= Seq::<Input>::empty());
        assert(head.drop_first()[0] == listed);
        assert(end_state(patterns, types, s2, head.drop_first().drop_first()) == s2);
        assert(end_state(patterns, types, s1, head.drop_first()) == s2);
        assert(end_state(patterns, types, s, head) == s2);
        assert(run(patterns, types, s2, head.drop_first().drop_first()) =~= Seq::<Outcome>::empty());
        assert(run(patterns, types, s1, head.drop_first()) =~= seq![o2]);
        assert(run(patterns, types, s, head) =~= seq![o1, o2]);
        assert(tree.all_within(cs, (h - 1) as nat));
        lemma_walk_entries(tree, patterns, types, pending, cs, (h - 1) as nat);
        lemma_run_append(patterns, types, s, head, rest);
        lemma_reported_append(run(patterns, types, s, head), run(patterns, types, s2, rest));
        assert(seq![o1, o2].drop_first().drop_first() =~= Seq::<Outcome>::empty());
        assert(seq![o1, o2].drop_first()[0] == o2);
        assert(seq![o1, o2][0] == o1);
        assert(reported(Seq::<Outcome>::empty()) =~= Seq::<Seq<char>>::empty());
        assert(reported(seq![o1, o2].drop_first()) =~= Seq::<Seq<char>>::empty());
        assert(reported(seq![o1, o2]) =~= match o1.report {
            Some(p) => seq![p],
            None => Seq::empty(),
        });
    } else {
        let xs = seq![first];
        assert(xs[0] == first);
        assert(xs.drop_first() =~= Seq::<Input>::empty());
        assert(run(patterns, types, s1, xs.drop_first()) =~= Seq::<Outcome>::empty());
        assert(end_state(patterns, types, s1, xs.drop_first()) == s1);
        assert(run(patterns, types, s, xs) =~= seq![o1]);
        assert(seq![o1].drop_first() =~= Seq::<Outcome>::empty());
        assert(reported(Seq::<Outcome>::empty()) =~= Seq::<Seq<char>>::empty());
        assert(seq![o1][0] == o1);
        assert(reported(seq![o1]) =~= match o1.report {
            Some(p) => seq![p],
            None => Seq::empty(),
        });
    }
}

/// Walking the entries `paths` from the state that has just scheduled them
/// above `below`.
proof fn lemma_walk_entries(
    tree: Tree,
    patterns: Seq<Seq<char>>,
    types: Seq<EntryKind>,
    below: Seq<Seq<char>>,
    paths: Seq<Seq<char>>,
    h: nat,
)
    requires
        tree.all_within(paths, h),
    ensures
        ({
            let s = pop_pending(below + paths.reverse());
            let xs = tree.answers_all(paths, h);
            &&& end_state(patterns, types, s, xs) == pop_pending(below)
            &&& reported(run(patterns, types, s, xs)) == tree.selected_all(patterns, types, paths, h)
        }),
    decreases h, 1nat, paths.len(),
{
    if paths.len() == 0 {
        assert(below + paths.reverse() =~= below);
    } else {
        let rest = paths.drop_first();
        let stack = below + paths.reverse();
        let under = below + rest.reverse();
        assert(stack.last() == paths[0]);
        assert(stack.drop_last() =~= under);
        let s = pop_pending(stack);
        assert(s == WalkState { pending: under, stage: Stage::Classify(paths[0]) });
        assert(tree.within(paths[0], h));
        assert(tree.all_within(rest, h)) by {
            assert forall|i: int| 0 <= i < rest.len() implies tree.within(#[trigger] rest[i], h) by {
                assert(rest[i] == paths[i + 1]);
            }
        }
        lemma_walk_entry(tree, patterns, types, under, paths[0], h);
        lemma_walk_entries(tree, patterns, types, below, rest, h);
        let a = tree.answers(paths[0], h);
        let b = tree.answers_all(rest, h);
        lemma_run_append(patterns, types, s, a, b);
        lemma_reported_append(run(patterns, types, s, a), run(patterns, types, pop_pending(under), b));
    }
}

/// A walk of the roots of a tree, answered by the tree, ends having reported
/// exactly the selected entries: each once, every directory before its
/// descendants, in the order the roots and the listings give. An entry that
/// fails is left out without hiding its siblings. Without name patterns and
/// kind filters that is every entry that can be classified.
pub proof fn lemma_walk_reports_selected_preorder(
    tree: Tree,
    patterns: Seq<Seq<char>>,
    types: Seq<EntryKind>,
    roots: Seq<Seq<char>>,
    h: nat,
)
    requires
        tree.all_within(roots, h),
    ensures
        end_state(patterns, types, initial_state(roots), tree.answers_all(roots, h)).stage == Stage::Done,
        reported(run(patterns, types, initial_state(roots), tree.answers_all(roots, h)))
            == tree.selected_all(patterns, types, roots, h),
{
    assert(Seq::<Seq<char>>::empty() + roots.reverse() =~= roots.reverse());
    lemma_walk_entries(tree, patterns, types, Seq::empty(), roots, h);
}

proof fn lemma_answers_stable(tree: Tree, path: Seq<char>, h1: nat, h2: nat)
    requires
        tree.within(path, h1),
        tree.within(path, h2),
    ensures
        tree.answers(path, h1) == tree.answers(path, h2),
    decreases h1, 0nat, 0nat,
{
    if tree.is_directory(path) {
        let cs = tree.children_of(path);
        assert(tree.all_within(cs, (h1 - 1) as nat));
        assert(tree.all_within(cs, (h2 - 1) as nat));
        lemma_answers_all_stable(tree, cs, (h1 - 1) as nat, (h2 - 1) as nat);
    }
}

proof fn lemma_answers_all_stable(tree: Tree, paths: Seq<Seq<char>>, h1: nat, h2: nat)
    requires
        tree.all_within(paths, h1),
        tree.all_within(paths, h2),
    ensures
        tree.answers_all(paths, h1) == tree.answers_all(paths, h2),
    decreases h1, 1nat, paths.len(),
{
    if paths.len() > 0 {
        let rest = paths.drop_first();
        assert(tree.within(paths[0], h1));
        assert(tree.within(paths[0], h2));
        assert forall|i: int| 0 <= i < rest.len() implies tree.within(#[trigger] rest[i], h1) && tree.within(
            rest[i],
            h2,
        ) by {
            assert(rest[i] == paths[i + 1]);
        }
        lemma_answers_stable(tree, paths[0], h1, h2);
        lemma_answers_all_stable(tree, rest, h1, h2);
    }
}

/// Walking an unchanged tree twice from the same roots gets the same answers
/// and gives identical outcomes: the same reports and diagnostics, in the same
/// order. (The depth bound is only a measure of the tree; any that holds will do.)
pub proof fn lemma_rewalk_is_identical(
    tree: Tree,
    patterns: Seq<Seq<char>>,
    types: Seq<EntryKind>,
    roots: Seq<Seq<char>>,
    h1: nat,
    h2: nat,
)
    requires
        tree.all_within(roots, h1),
        tree.all_within(roots, h2),
    ensures
        tree.answers_all(roots, h1) == tree.answers_all(roots, h2),
        run(patterns, types, initial_state(roots), tree.answers_all(roots, h1)) == run(
            patterns,
            types,
            initial_state(roots),
            tree.answers_all(roots, h2),
        ),
{
    lemma_answers_all_stable(tree, roots, h1, h2);
}

proof fn lemma_unfiltered_entry(tree: Tree, path: Seq<char>, h: nat)
    ensures
        tree.selected(Seq::empty(), Seq::empty(), path, h) == tree.entries(path, h),
    decreases h, 0nat, 0nat,
{
    if tree.is_directory(path) && h > 0 {
        lemma_unfiltered_entries(tree, tree.children_of(path), (h - 1) as nat);
    }
}

proof fn lemma_unfiltered_entries(tree: Tree, paths: Seq<Seq<char>>, h: nat)
    ensures
        tree.selected_all(Seq::empty(), Seq::empty(), paths, h) == tree.entries_all(paths, h),
    decreases h, 1nat, paths.len(),
{
    if paths.len() > 0 {
        lemma_unfiltered_entry(tree, paths[0], h);
        lemma_unfiltered_entries(tree, paths.drop_first(), h);
    }
}

/// Without name patterns and kind filters, a walk of a tree reports every
/// entry that can be classified, each once, in the order of the walk.
pub proof fn lemma_unfiltered_walk_reports_every_entry(tree: Tree, roots: Seq<Seq<char>>, h: nat)
    requires
        tree.all_within(roots, h),
    ensures
        reported(run(Seq::empty(), Seq::empty(), initial_state(roots), tree.answers_all(roots, h)))
            == tree.entries_all(roots, h),
{
    lemma_walk_reports_selected_preorder(tree, Seq::empty(), Seq::empty(), roots, h);
    lemma_unfiltered_entries(tree, roots, h);
}

} // verus!
