//! The rename planner: a state machine that decides, pair by pair, which
//! paths to probe, what target each input gets, and what the rename map
//! records. The caller performs the probes and renames it asks for.
use vstd::prelude::*;
use crate::paths::{underscored, underscore_prefixed};

verus! {

/// The policy of one run.
#[derive(PartialEq, Eq, Structural, Clone, Copy, Debug)]
pub struct RenameOptions {
    /// Simulate: never touch the filesystem, but record as if every rename
    /// succeeded.
    pub dry_run: bool,
    /// Replace an existing target instead of prefixing `_` to its name.
    pub overwrite: bool,
    /// Create the target's missing parent directories first.
    pub mkdir: bool,
    /// Keep the map of output to input names.
    pub need_map: bool,
}

/// What the caller is to do next.
#[derive(PartialEq, Eq, Debug)]
pub enum Action {
    /// Find out whether this path exists and report it to `probed`.
    Probe(String),
    /// Create the parent directories of `target` where `create_parent`
    /// (failures ignored), rename `input` to `target` where `perform`, and
    /// report whether that succeeded to `applied` (success where nothing was
    /// performed).
    Apply { input: String, target: String, create_parent: bool, perform: bool },
    /// In a simulation: this input names no file, so the rename would fail.
    Missing(String),
    /// Nothing to do for this pair.
    Done,
}

/// The mathematical value of an `Action`.
pub enum ActionView {
    Probe(Seq<char>),
    Apply { input: Seq<char>, target: Seq<char>, create_parent: bool, perform: bool },
    Missing(Seq<char>),
    Done,
}

impl View for Action {
    type V = ActionView;

    open spec fn view(&self) -> ActionView {
        match self {
            Action::Probe(p) => ActionView::Probe(p@),
            Action::Apply { input, target, create_parent, perform } => ActionView::Apply {
                input: input@,
                target: target@,
                create_parent: *create_parent,
                perform: *perform,
            },
            Action::Missing(p) => ActionView::Missing(p@),
            Action::Done => ActionView::Done,
        }
    }
}

/// What the machine waits for.
#[derive(PartialEq, Eq, Structural, Clone, Copy, Debug)]
pub enum Phase {
    /// The next pair.
    Idle,
    /// The answer to a probe of the current target.
    Probing,
    /// In a simulation, the answer to a probe of the input.
    CheckingInput,
    /// The outcome of an apply.
    Applying,
}

/// The mathematical value of a `Renamer`. In a simulation, `overrides`
/// holds what the simulated renames changed: a path mapped to `true` now
/// exists, one mapped to `false` no longer does.
pub struct RenamerView {
    pub options: RenameOptions,
    pub map: Seq<(Seq<char>, Seq<char>)>,
    pub with_err: bool,
    pub phase: Phase,
    pub input: Seq<char>,
    pub target: Seq<char>,
    pub overrides: Map<Seq<char>, bool>,
}

/// The map with `(output, input)` recorded, where a map is kept.
pub open spec fn recorded(
    options: RenameOptions,
    map: Seq<(Seq<char>, Seq<char>)>,
    output: Seq<char>,
    input: Seq<char>,
) -> Seq<(Seq<char>, Seq<char>)> {
    if options.need_map {
        map.push((output, input))
    } else {
        map
    }
}

/// Whether the machine takes `path` to exist, given the filesystem's
/// answer: in a simulation, its own renames come first.
pub open spec fn believed(s: RenamerView, path: Seq<char>, exists: bool) -> bool {
    if s.options.dry_run && s.overrides.contains_key(path) {
        s.overrides[path]
    } else {
        exists
    }
}

/// The apply step for a settled target.
pub open spec fn apply_action(options: RenameOptions, input: Seq<char>, target: Seq<char>) -> ActionView {
    ActionView::Apply {
        input,
        target,
        create_parent: options.mkdir && !options.dry_run,
        perform: !options.dry_run,
    }
}

/// The machine once its target is settled: a simulation next asks whether
/// the input exists; a live run applies.
pub open spec fn settle(s: RenamerView) -> (RenamerView, ActionView) {
    if s.options.dry_run {
        (RenamerView { phase: Phase::CheckingInput, ..s }, ActionView::Probe(s.input))
    } else {
        (RenamerView { phase: Phase::Applying, ..s }, apply_action(s.options, s.input, s.target))
    }
}

/// The machine after it is handed the pair `(input, output)`.
pub open spec fn start_spec(s: RenamerView, input: Seq<char>, output: Seq<char>) -> (
    RenamerView,
    ActionView,
) {
    if input == output {
        (RenamerView { map: recorded(s.options, s.map, output, input), ..s }, ActionView::Done)
    } else if !s.options.overwrite {
        (
            RenamerView { phase: Phase::Probing, input, target: output, ..s },
            ActionView::Probe(output),
        )
    } else {
        settle(RenamerView { input, target: output, ..s })
    }
}

/// The machine after it learns whether the path it probed exists.
pub open spec fn probed_spec(s: RenamerView, exists: bool) -> (RenamerView, ActionView) {
    if s.phase == Phase::CheckingInput {
        if believed(s, s.input, exists) {
            (RenamerView { phase: Phase::Applying, ..s }, apply_action(s.options, s.input, s.target))
        } else {
            (RenamerView { phase: Phase::Idle, with_err: true, ..s }, ActionView::Missing(s.input))
        }
    } else if believed(s, s.target, exists) {
        let t = underscored(s.target);
        (RenamerView { target: t, ..s }, ActionView::Probe(t))
    } else {
        settle(s)
    }
}

/// The machine after it learns whether the rename succeeded.
pub open spec fn applied_spec(s: RenamerView, ok: bool) -> RenamerView {
    if ok {
        RenamerView {
            phase: Phase::Idle,
            map: recorded(s.options, s.map, s.target, s.input),
            overrides: if s.options.dry_run {
                s.overrides.insert(s.input, false).insert(s.target, true)
            } else {
                s.overrides
            },
            ..s
        }
    } else {
        RenamerView { phase: Phase::Idle, with_err: true, ..s }
    }
}

/// What a list of overrides says, the later entries winning.
pub open spec fn overrides_map(v: Seq<(String, bool)>) -> Map<Seq<char>, bool>
    decreases v.len(),
{
    if v.len() == 0 {
        Map::empty()
    } else {
        overrides_map(v.drop_last()).insert(v.last().0@, v.last().1)
    }
}

proof fn lemma_overrides_skip(v: Seq<(String, bool)>, j: int, x: Seq<char>)
    requires
        0 <= j <= v.len(),
        forall|k: int| j <= k < v.len() ==> (#[trigger] v[k]).0@ != x,
    ensures
        overrides_map(v).contains_key(x) == overrides_map(v.take(j)).contains_key(x),
        overrides_map(v)[x] == overrides_map(v.take(j))[x],
    decreases v.len() - j,
{
    if j < v.len() {
        let w = v.drop_last();
        assert(w.take(j) =~= v.take(j));
        assert forall|k: int| j <= k < w.len() implies (#[trigger] w[k]).0@ != x by {
            assert(w[k] == v[k]);
        }
        lemma_overrides_skip(w, j, x);
    } else {
        assert(v.take(j) =~= v);
    }
}

/// Decides the renames of one run, pair by pair.
pub struct Renamer {
    options: RenameOptions,
    map: Vec<(String, String)>,
    with_err: bool,
    phase: Phase,
    input: String,
    target: String,
    overrides: Vec<(String, bool)>,
}

pub open spec fn map_view(v: Seq<(String, String)>) -> Seq<(Seq<char>, Seq<char>)> {
    v.map_values(|p: (String, String)| (p.0@, p.1@))
}

impl View for Renamer {
    type V = RenamerView;

    closed spec fn view(&self) -> RenamerView {
        RenamerView {
            options: self.options,
            map: map_view(self.map@),
            with_err: self.with_err,
            phase: self.phase,
            input: self.input@,
            target: self.target@,
            overrides: overrides_map(self.overrides@),
        }
    }
}

impl Renamer {
    pub fn new(options: RenameOptions) -> (r: Renamer)
        ensures
            r@.options == options,
            r@.map == Seq::<(Seq<char>, Seq<char>)>::empty(),
            !r@.with_err,
            r@.phase == Phase::Idle,
            r@.overrides == Map::<Seq<char>, bool>::empty(),
    {
        let r = Renamer {
            options,
            map: Vec::new(),
            with_err: false,
            phase: Phase::Idle,
            input: String::new(),
            target: String::new(),
            overrides: Vec::new(),
        };
        assert(map_view(r.map@) =~= Seq::<(Seq<char>, Seq<char>)>::empty());
        r
    }

    fn record(&mut self, output: String, input: String)
        ensures
            final(self)@ == (RenamerView {
                map: recorded(old(self)@.options, old(self)@.map, output@, input@),
                ..old(self)@
            }),
    {
        if self.options.need_map {
            let ghost before = self.map@;
            self.map.push((output, input));
            assert(map_view(self.map@) =~= map_view(before).push((output@, input@)));
        }
    }

    fn apply(&self) -> (r: Action)
        ensures
            r@ == apply_action(self@.options, self@.input, self@.target),
    {
        Action::Apply {
            input: self.input.clone(),
            target: self.target.clone(),
            create_parent: self.options.mkdir && !self.options.dry_run,
            perform: !self.options.dry_run,
        }
    }

    fn believes(&self, path: &String, exists: bool) -> (r: bool)
        ensures
            r == believed(self@, path@, exists),
    {
        if !self.options.dry_run {
            return exists;
        }
        let ghost v = self.overrides@;
        let mut j: usize = self.overrides.len();
        while j > 0
            invariant
                v == self.overrides@,
                self.options.dry_run,
                j <= v.len(),
                forall|k: int| j <= k < v.len() ==> (#[trigger] v[k]).0@ != path@,
            decreases j,
        {
            if self.overrides[j - 1].0.eq(path) {
                proof {
                    lemma_overrides_skip(v, j as int, path@);
                    let t = v.take(j as int);
                    assert(t.drop_last() =~= v.take(j - 1));
                    assert(t.last() == v[j - 1]);
                    assert(overrides_map(t) == overrides_map(t.drop_last()).insert(
                        v[j - 1].0@,
                        v[j - 1].1,
                    ));
                }
                return self.overrides[j - 1].1;
            }
            j = j - 1;
        }
        proof {
            lemma_overrides_skip(v, 0, path@);
            assert(v.take(0) =~= Seq::<(String, bool)>::empty());
        }
        exists
    }

    fn settle(&mut self) -> (r: Action)
        ensures
            (final(self)@, r@) == settle(old(self)@),
    {
        if self.options.dry_run {
            self.phase = Phase::CheckingInput;
            Action::Probe(self.input.clone())
        } else {
            self.phase = Phase::Applying;
            self.apply()
        }
    }

    /// Takes the next pair of input and rendered output.
    pub fn start(&mut self, input: String, output: String) -> (r: Action)
        requires
            old(self)@.phase == Phase::Idle,
        ensures
            (final(self)@, r@) == start_spec(old(self)@, input@, output@),
    {
        if input.eq(&output) {
            self.record(output, input);
            return Action::Done;
        }
        let probe = !self.options.overwrite;
        self.input = input;
        self.target = output;
        if probe {
            self.phase = Phase::Probing;
            Action::Probe(self.target.clone())
        } else {
            self.settle()
        }
    }

    /// Takes the answer to the last probe.
    pub fn probed(&mut self, exists: bool) -> (r: Action)
        requires
            old(self)@.phase == Phase::Probing || old(self)@.phase == Phase::CheckingInput,
        ensures
            (final(self)@, r@) == probed_spec(old(self)@, exists),
    {
        if self.phase == Phase::CheckingInput {
            if self.believes(&self.input, exists) {
                self.phase = Phase::Applying;
                return self.apply();
            } else {
                self.phase = Phase::Idle;
                self.with_err = true;
                return Action::Missing(self.input.clone());
            }
        }
        if self.believes(&self.target, exists) {
            self.target = underscore_prefixed(self.target.as_str());
            Action::Probe(self.target.clone())
        } else {
            self.settle()
        }
    }

    /// Takes the outcome of the last apply.
    pub fn applied(&mut self, ok: bool)
        requires
            old(self)@.phase == Phase::Applying,
        ensures
            final(self)@ == applied_spec(old(self)@, ok),
    {
        self.phase = Phase::Idle;
        if ok {
            if self.options.dry_run {
                let ghost before = self.overrides@;
                self.overrides.push((self.input.clone(), false));
                self.overrides.push((self.target.clone(), true));
                proof {
                    let v = self.overrides@;
                    assert(v.drop_last().drop_last() =~= before);
                    assert(overrides_map(v.drop_last()) == overrides_map(before).insert(
                        self.input@,
                        false,
                    ));
                    assert(overrides_map(v) == overrides_map(v.drop_last()).insert(
                        self.target@,
                        true,
                    ));
                }
            }
            let output = self.target.clone();
            let input = self.input.clone();
            self.record(output, input);
        } else {
            self.with_err = true;
        }
    }

    /// Whether some rename failed.
    pub fn had_errors(&self) -> (r: bool)
        ensures
            r == self@.with_err,
    {
        self.with_err
    }

    /// The map of output to input names where one is kept, and whether some
    /// rename failed.
    pub fn finish(self) -> (r: (Option<Vec<(String, String)>>, bool))
        ensures
            r.1 == self@.with_err,
            match r.0 {
                Some(m) => self@.options.need_map && map_view(m@) == self@.map,
                None => !self@.options.need_map,
            },
    {
        let with_err = self.with_err;
        if self.options.need_map {
            (Some(self.map), with_err)
        } else {
            (None, with_err)
        }
    }
}

} // verus!
