//! State that a task run carries from line to line: the kinds of version
//! bump, the working-directory history with its scopes, and the variables
//! with the exported ones.
use vstd::prelude::*;

use crate::text::chars_eq_str;
use crate::vars::VarMap;

verus! {

/// A kind of version bump.
#[derive(Clone, Copy, Debug, PartialEq, Eq, Structural)]
pub enum BumpKind {
    Major,
    Minor,
    Patch,
    Pre,
    Release,
}

pub open spec fn bump_kind_name(k: BumpKind) -> Seq<char> {
    match k {
        BumpKind::Major => "major"@,
        BumpKind::Minor => "minor"@,
        BumpKind::Patch => "patch"@,
        BumpKind::Pre => "pre"@,
        BumpKind::Release => "release"@,
    }
}

pub open spec fn bump_kind_of(s: Seq<char>) -> Option<BumpKind> {
    if s == "major"@ {
        Some(BumpKind::Major)
    } else if s == "minor"@ {
        Some(BumpKind::Minor)
    } else if s == "patch"@ {
        Some(BumpKind::Patch)
    } else if s == "pre"@ || s == "prerelease"@ {
        Some(BumpKind::Pre)
    } else if s == "release"@ {
        Some(BumpKind::Release)
    } else {
        None
    }
}

impl BumpKind {
    /// `major`, `minor`, `patch`, `pre` or `prerelease`, `release`.
    pub fn parse(value: &Vec<char>) -> (r: Option<BumpKind>)
        ensures
            r == bump_kind_of(value@),
    {
        if chars_eq_str(value, "major") {
            Some(BumpKind::Major)
        } else if chars_eq_str(value, "minor") {
            Some(BumpKind::Minor)
        } else if chars_eq_str(value, "patch") {
            Some(BumpKind::Patch)
        } else if chars_eq_str(value, "pre") || chars_eq_str(value, "prerelease") {
            Some(BumpKind::Pre)
        } else if chars_eq_str(value, "release") {
            Some(BumpKind::Release)
        } else {
            None
        }
    }

    /// The canonical name.
    pub fn as_str(self) -> (s: &'static str)
        ensures
            s@ == bump_kind_name(self),
    {
        match self {
            BumpKind::Major => "major",
            BumpKind::Minor => "minor",
            BumpKind::Patch => "patch",
            BumpKind::Pre => "pre",
            BumpKind::Release => "release",
        }
    }
}

/// The canonical name of a bump kind reads back as that kind.
pub proof fn lemma_bump_kind_roundtrip(k: BumpKind)
    ensures
        bump_kind_of(bump_kind_name(k)) == Some(k),
{
    reveal_strlit("major");
    reveal_strlit("minor");
    reveal_strlit("patch");
    reveal_strlit("pre");
    reveal_strlit("prerelease");
    reveal_strlit("release");
    assert("major"@.len() == 5 && "minor"@.len() == 5 && "patch"@.len() == 5);
    assert("pre"@.len() == 3 && "release"@.len() == 7 && "prerelease"@.len() == 10);
    assert("major"@[1] != "minor"@[1]);
    assert("major"@[0] != "patch"@[0] && "minor"@[0] != "patch"@[0]);
}

/// The working directory of a run: the current directory, the directories
/// that `@back` returns to, and for each open scope its starting directory
/// and how much history it may not undo.
#[derive(Debug)]
pub struct CwdState {
    current: Vec<char>,
    history: Vec<Vec<char>>,
    scopes: Vec<(Vec<char>, usize)>,
}

pub struct CwdModel {
    pub current: Seq<char>,
    pub history: Seq<Seq<char>>,
    pub scopes: Seq<(Seq<char>, nat)>,
}

pub open spec fn dir_views(v: Seq<Vec<char>>) -> Seq<Seq<char>> {
    v.map_values(|x: Vec<char>| x@)
}

pub open spec fn scope_views(v: Seq<(Vec<char>, usize)>) -> Seq<(Seq<char>, nat)> {
    v.map_values(|x: (Vec<char>, usize)| (x.0@, x.1 as nat))
}

impl View for CwdState {
    type V = CwdModel;

    closed spec fn view(&self) -> CwdModel {
        CwdModel {
            current: self.current@,
            history: dir_views(self.history@),
            scopes: scope_views(self.scopes@),
        }
    }
}

/// The history below which `@back` may not go.
pub open spec fn back_floor(m: CwdModel) -> nat {
    if m.scopes.len() > 0 {
        m.scopes.last().1
    } else {
        0
    }
}

/// Every scope's floor lies within the history.
pub open spec fn cwd_wf(m: CwdModel) -> bool {
    &&& forall|i: int| 0 <= i < m.scopes.len() ==> #[trigger] m.scopes[i].1 <= m.history.len()
    &&& forall|i: int, j: int|
        0 <= i <= j < m.scopes.len() ==> #[trigger] m.scopes[i].1 <= #[trigger] m.scopes[j].1
}

/// The directory the innermost scope started in, or the current one where
/// no scope is open: what `@clean` may not remove, nor anything above it.
pub open spec fn scope_base_of(m: CwdModel) -> Seq<char> {
    if m.scopes.len() > 0 {
        m.scopes.last().0
    } else {
        m.current
    }
}

pub open spec fn cd_spec(m: CwdModel, path: Seq<char>) -> CwdModel {
    CwdModel { current: path, history: m.history.push(m.current), ..m }
}

pub open spec fn back_spec(m: CwdModel) -> CwdModel {
    if m.history.len() > back_floor(m) {
        CwdModel { current: m.history.last(), history: m.history.drop_last(), ..m }
    } else {
        m
    }
}

pub open spec fn push_scope_spec(m: CwdModel) -> CwdModel {
    CwdModel { scopes: m.scopes.push((m.current, m.history.len())), ..m }
}

pub open spec fn pop_scope_spec(m: CwdModel) -> CwdModel {
    if m.scopes.len() > 0 {
        CwdModel {
            current: m.scopes.last().0,
            history: m.history.take(m.scopes.last().1 as int),
            scopes: m.scopes.drop_last(),
        }
    } else {
        m
    }
}

impl CwdState {
    /// Starts in `base` with no history and no scope.
    pub fn new(base: &Vec<char>) -> (s: CwdState)
        ensures
            s@.current == base@,
            s@.history == Seq::<Seq<char>>::empty(),
            s@.scopes == Seq::<(Seq<char>, nat)>::empty(),
            cwd_wf(s@),
    {
        let s = CwdState { current: base.clone(), history: Vec::new(), scopes: Vec::new() };
        assert(dir_views(s.history@) =~= seq![]);
        assert(scope_views(s.scopes@) =~= seq![]);
        s
    }

    /// A copy of the state.
    pub fn copy(&self) -> (r: CwdState)
        ensures
            r@ == self@,
    {
        let mut history: Vec<Vec<char>> = Vec::new();
        let mut i: usize = 0;
        while i < self.history.len()
            invariant
                i <= self.history.len(),
                dir_views(history@) == dir_views(self.history@).take(i as int),
            decreases self.history.len() - i,
        {
            let ghost before = dir_views(history@);
            let d = self.history[i].clone();
            assert(d@ == self.history@[i as int]@);
            history.push(d);
            assert(dir_views(history@) =~= before.push(self.history@[i as int]@));
            assert(dir_views(self.history@).take(i + 1) =~= dir_views(self.history@).take(i as int).push(
                self.history@[i as int]@,
            ));
            i = i + 1;
        }
        let mut scopes: Vec<(Vec<char>, usize)> = Vec::new();
        let mut j: usize = 0;
        while j < self.scopes.len()
            invariant
                j <= self.scopes.len(),
                scope_views(scopes@) == scope_views(self.scopes@).take(j as int),
            decreases self.scopes.len() - j,
        {
            let ghost before = scope_views(scopes@);
            let d = self.scopes[j].0.clone();
            let k = self.scopes[j].1;
            assert(d@ == self.scopes@[j as int].0@);
            scopes.push((d, k));
            assert(scope_views(scopes@) =~= before.push((self.scopes@[j as int].0@, self.scopes@[j as int].1 as nat)));
            assert(scope_views(self.scopes@).take(j + 1) =~= scope_views(self.scopes@).take(j as int).push(
                (self.scopes@[j as int].0@, self.scopes@[j as int].1 as nat),
            ));
            j = j + 1;
        }
        assert(dir_views(self.history@).take(self.history.len() as int) =~= dir_views(self.history@));
        assert(scope_views(self.scopes@).take(self.scopes.len() as int) =~= scope_views(self.scopes@));
        let current = self.current.clone();
        assert(current@ == self.current@);
        CwdState { current, history, scopes }
    }

    /// The current directory.
    pub fn current(&self) -> (r: Vec<char>)
        ensures
            r@ == self@.current,
    {
        self.current.clone()
    }

    /// The directory the innermost scope started in, or the current one
    /// where no scope is open.
    pub fn scope_base(&self) -> (r: Vec<char>)
        ensures
            r@ == scope_base_of(self@),
    {
        if self.scopes.len() > 0 {
            self.scopes[self.scopes.len() - 1].0.clone()
        } else {
            self.current.clone()
        }
    }

    /// Opens a scope at the current directory.
    pub fn push_scope(&mut self)
        requires
            cwd_wf(old(self)@),
        ensures
            final(self)@ == push_scope_spec(old(self)@),
            cwd_wf(final(self)@),
    {
        let ghost before = scope_views(self.scopes@);
        let ghost m = old(self)@;
        assert(m.scopes == before);
        let entry = (self.current.clone(), self.history.len());
        self.scopes.push(entry);
        assert(scope_views(self.scopes@) =~= before.push((m.current, m.history.len())));
        assert forall|i: int, j: int|
            0 <= i <= j < self@.scopes.len() implies #[trigger] self@.scopes[i].1
            <= #[trigger] self@.scopes[j].1 by {
            if j < before.len() {
                assert(m.scopes[i].1 <= m.scopes[j].1);
            } else {
                assert(m.scopes[i].1 <= m.history.len() || i == j);
            }
        }
    }

    /// Closes the innermost scope: back to its directory and its history.
    pub fn pop_scope(&mut self)
        requires
            cwd_wf(old(self)@),
        ensures
            final(self)@ == pop_scope_spec(old(self)@),
            cwd_wf(final(self)@),
    {
        let ghost m = old(self)@;
        match self.scopes.pop() {
            Some((start, floor)) => {
                let ghost before = scope_views(old(self).scopes@);
                assert(m.scopes == before);
                assert(scope_views(self.scopes@) =~= before.drop_last());
                assert(before.last() == (start@, floor as nat));
                assert(floor as nat <= dir_views(self.history@).len()) by {
                    assert(m.scopes[before.len() - 1].1 <= m.history.len());
                }
                self.current = start;
                let ghost hb = dir_views(self.history@);
                self.history.truncate(floor);
                assert(dir_views(self.history@) =~= hb.take(floor as int));
                assert forall|i: int| 0 <= i < self@.scopes.len() implies #[trigger] self@.scopes[i].1
                    <= self@.history.len() by {
                    assert(self@.scopes[i] == before[i]);
                    assert(m.scopes[i].1 <= m.scopes[before.len() - 1].1);
                }
                assert forall|i: int, j: int|
                    0 <= i <= j < self@.scopes.len() implies #[trigger] self@.scopes[i].1
                    <= #[trigger] self@.scopes[j].1 by {
                    assert(self@.scopes[i] == before[i]);
                    assert(self@.scopes[j] == before[j]);
                }
            },
            None => {},
        }
    }

    /// `@cd`: remembers the current directory and moves to `path`.
    pub fn cd(&mut self, path: Vec<char>)
        requires
            cwd_wf(old(self)@),
        ensures
            final(self)@ == cd_spec(old(self)@, path@),
            cwd_wf(final(self)@),
    {
        let ghost before = dir_views(self.history@);
        let ghost m = old(self)@;
        let prev = self.current.clone();
        self.history.push(prev);
        assert(dir_views(self.history@) =~= before.push(m.current));
        self.current = path;
        assert forall|i: int| 0 <= i < self@.scopes.len() implies #[trigger] self@.scopes[i].1
            <= self@.history.len() by {
            assert(self@.scopes[i] == m.scopes[i]);
        }
        assert forall|i: int, j: int|
            0 <= i <= j < self@.scopes.len() implies #[trigger] self@.scopes[i].1
            <= #[trigger] self@.scopes[j].1 by {
            assert(self@.scopes[i] == m.scopes[i]);
            assert(self@.scopes[j] == m.scopes[j]);
        }
    }

    /// `@back`: returns to the directory before the last `@cd`, unless that
    /// would leave the innermost scope.
    pub fn back(&mut self)
        requires
            cwd_wf(old(self)@),
        ensures
            final(self)@ == back_spec(old(self)@),
            cwd_wf(final(self)@),
    {
        let ghost m = old(self)@;
        let floor = if self.scopes.len() > 0 {
            self.scopes[self.scopes.len() - 1].1
        } else {
            0
        };
        if self.history.len() > floor {
            let ghost before = dir_views(self.history@);
            match self.history.pop() {
                Some(previous) => {
                    assert(dir_views(self.history@) =~= before.drop_last());
                    self.current = previous;
                    assert forall|i: int| 0 <= i < self@.scopes.len() implies #[trigger] self@.scopes[i].1
                        <= self@.history.len() by {
                        assert(m.scopes[i].1 <= m.scopes[m.scopes.len() - 1].1);
                    }
                },
                None => {},
            }
        }
    }
}

/// `@back` right after `@cd` returns to where the run was, history and all.
pub proof fn lemma_back_undoes_cd(m: CwdModel, path: Seq<char>)
    requires
        cwd_wf(m),
    ensures
        back_spec(cd_spec(m, path)) == m,
{
    let c = cd_spec(m, path);
    if m.scopes.len() > 0 {
        assert(m.scopes[m.scopes.len() - 1].1 <= m.history.len());
    }
    assert(c.history.len() > back_floor(c));
    assert(c.history.drop_last() =~= m.history);
}

/// Closing a scope right after opening it changes nothing.
pub proof fn lemma_pop_undoes_push(m: CwdModel)
    ensures
        pop_scope_spec(push_scope_spec(m)) == m,
{
    let p = push_scope_spec(m);
    assert(p.scopes.drop_last() =~= m.scopes);
    assert(m.history.take(m.history.len() as int) =~= m.history);
}

/// Closing a scope returns to the directory and history it was opened
/// with, whatever `@cd` and `@back` did inside it.
pub proof fn lemma_scope_restores(m: CwdModel, inner: CwdModel)
    requires
        inner.scopes == push_scope_spec(m).scopes,
        inner.history.len() >= m.history.len(),
        inner.history.take(m.history.len() as int) == m.history,
    ensures
        pop_scope_spec(inner).current == m.current,
        pop_scope_spec(inner).history == m.history,
        pop_scope_spec(inner).scopes == m.scopes,
{
    assert(inner.scopes.drop_last() =~= m.scopes);
}

/// `@back` never undoes history recorded before the innermost scope opened.
pub proof fn lemma_back_respects_floor(m: CwdModel)
    requires
        cwd_wf(m),
    ensures
        back_spec(m).history.len() >= back_floor(m),
        back_spec(m).history == m.history.take(back_spec(m).history.len() as int),
{
    if m.history.len() > back_floor(m) {
        assert(m.history.drop_last() =~= m.history.take(m.history.len() - 1));
    } else {
        if m.scopes.len() > 0 {
            assert(m.scopes[m.scopes.len() - 1].1 <= m.history.len());
        }
        assert(m.history.take(m.history.len() as int) =~= m.history);
    }
}


/// One change of the working directory inside a block: `@cd PATH`, `@back`,
/// or a nested block opening or closing its scope.
pub enum CwdStep {
    Cd(Seq<char>),
    Back,
    Open,
    Close,
}

pub open spec fn cwd_step(m: CwdModel, st: CwdStep) -> CwdModel {
    match st {
        CwdStep::Cd(p) => cd_spec(m, p),
        CwdStep::Back => back_spec(m),
        CwdStep::Open => push_scope_spec(m),
        CwdStep::Close => pop_scope_spec(m),
    }
}

/// The steps taken in order.
pub open spec fn cwd_steps(m: CwdModel, steps: Seq<CwdStep>) -> CwdModel
    decreases steps.len(),
{
    if steps.len() == 0 {
        m
    } else {
        cwd_steps(cwd_step(m, steps[0]), steps.drop_first())
    }
}

/// Whether the steps never close more scopes than they opened, counting from
/// `depth` scopes opened before them.
pub open spec fn nested_within(steps: Seq<CwdStep>, depth: nat) -> bool
    decreases steps.len(),
{
    if steps.len() == 0 {
        true
    } else {
        match steps[0] {
            CwdStep::Open => nested_within(steps.drop_first(), depth + 1),
            CwdStep::Close => depth > 0 && nested_within(steps.drop_first(), (depth - 1) as nat),
            _ => nested_within(steps.drop_first(), depth),
        }
    }
}

/// How many scopes the steps leave open, from `depth`.
pub open spec fn depth_after(steps: Seq<CwdStep>, depth: nat) -> int
    decreases steps.len(),
{
    if steps.len() == 0 {
        depth as int
    } else {
        match steps[0] {
            CwdStep::Open => depth_after(steps.drop_first(), depth + 1),
            CwdStep::Close => if depth > 0 {
                depth_after(steps.drop_first(), (depth - 1) as nat)
            } else {
                depth_after(steps.drop_first(), depth)
            },
            _ => depth_after(steps.drop_first(), depth),
        }
    }
}

/// What holds inside the scope opened on `m0`: that scope and those below
/// it are in place, and the history before it is untouched.
pub open spec fn inside_scope_of(m0: CwdModel, m: CwdModel) -> bool {
    &&& cwd_wf(m)
    &&& m.scopes.len() > m0.scopes.len()
    &&& m.scopes.take(m0.scopes.len() as int + 1) == push_scope_spec(m0).scopes
    &&& m.history.len() >= m0.history.len()
    &&& m.history.take(m0.history.len() as int) == m0.history
}

proof fn lemma_step_inside(m0: CwdModel, m: CwdModel, st: CwdStep)
    requires
        inside_scope_of(m0, m),
        st is Close ==> m.scopes.len() > m0.scopes.len() + 1,
    ensures
        inside_scope_of(m0, cwd_step(m, st)),
        cwd_step(m, st).scopes.len() == match st {
            CwdStep::Open => m.scopes.len() + 1int,
            CwdStep::Close => m.scopes.len() - 1,
            _ => m.scopes.len() as int,
        },
{
    let k0 = m0.scopes.len() as int;
    let h0 = m0.history.len() as int;
    let n = cwd_step(m, st);
    assert(m.scopes[k0] == m.scopes.take(k0 + 1)[k0]);
    assert(m.scopes[k0].1 == h0);
    match st {
        CwdStep::Cd(p) => {
            assert(n.history.take(h0) =~= m.history.take(h0));
        },
        CwdStep::Back => {
            if m.history.len() > back_floor(m) {
                assert(m.scopes[k0].1 <= m.scopes[m.scopes.len() - 1].1);
                assert(n.history.take(h0) =~= m.history.take(h0));
                assert forall|i: int| 0 <= i < n.scopes.len() implies #[trigger] n.scopes[i].1 <= n.history.len() by {
                    assert(m.scopes[i].1 <= m.scopes[m.scopes.len() - 1].1);
                }
            }
        },
        CwdStep::Open => {
            assert(n.scopes.take(k0 + 1) =~= m.scopes.take(k0 + 1));
            assert forall|i: int, j: int| 0 <= i <= j < n.scopes.len() implies #[trigger] n.scopes[i].1 <= #[trigger] n.scopes[j].1 by {
                if j == n.scopes.len() - 1 && i < j {
                    assert(m.scopes[i].1 <= m.history.len());
                }
            }
        },
        CwdStep::Close => {
            let last = m.scopes.last();
            assert(m.scopes[k0].1 <= m.scopes[m.scopes.len() - 1].1);
            assert(last.1 <= m.history.len());
            assert(n.scopes.take(k0 + 1) =~= m.scopes.take(k0 + 1));
            assert(n.history.take(h0) =~= m.history.take(h0));
            assert forall|i: int| 0 <= i < n.scopes.len() implies #[trigger] n.scopes[i].1 <= n.history.len() by {
                assert(m.scopes[i].1 <= m.scopes[m.scopes.len() - 1].1);
            }
        },
    }
}

proof fn lemma_steps_inside(m0: CwdModel, m: CwdModel, steps: Seq<CwdStep>)
    requires
        inside_scope_of(m0, m),
        nested_within(steps, (m.scopes.len() - m0.scopes.len() - 1) as nat),
    ensures
        inside_scope_of(m0, cwd_steps(m, steps)),
        cwd_steps(m, steps).scopes.len() - m0.scopes.len() - 1 == depth_after(
            steps,
            (m.scopes.len() - m0.scopes.len() - 1) as nat,
        ),
    decreases steps.len(),
{
    if steps.len() > 0 {
        lemma_step_inside(m0, m, steps[0]);
        lemma_steps_inside(m0, cwd_step(m, steps[0]), steps.drop_first());
    }
}

/// Closing a scope returns to the directory, history and scopes it was
/// opened with, whatever `@cd`, `@back` and nested blocks (each closed
/// again) happened inside it.
pub proof fn lemma_scope_restores_after_any_steps(m0: CwdModel, steps: Seq<CwdStep>)
    requires
        cwd_wf(m0),
        nested_within(steps, 0),
        depth_after(steps, 0) == 0,
    ensures
        pop_scope_spec(cwd_steps(push_scope_spec(m0), steps)) == m0,
{
    let p = push_scope_spec(m0);
    assert(p.scopes.take(m0.scopes.len() as int + 1) =~= p.scopes);
    assert(p.history.take(m0.history.len() as int) =~= m0.history);
    assert forall|i: int, j: int| 0 <= i <= j < p.scopes.len() implies #[trigger] p.scopes[i].1 <= #[trigger] p.scopes[j].1 by {
        if j == p.scopes.len() - 1 && i < j {
            assert(m0.scopes[i].1 <= m0.history.len());
        }
    }
    lemma_steps_inside(m0, p, steps);
    let m = cwd_steps(p, steps);
    assert(m.scopes =~= p.scopes);
    assert(m.scopes.drop_last() =~= m0.scopes);
    assert(pop_scope_spec(m).history =~= m0.history);
}

/// Right after a scope opens, `@back` has nothing to undo.
pub proof fn lemma_back_at_scope_start(m0: CwdModel)
    ensures
        back_spec(push_scope_spec(m0)) == push_scope_spec(m0),
{
}

} // verus!
