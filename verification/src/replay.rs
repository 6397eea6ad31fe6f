//! Replaying the ancestors of the cursor into a project.

use crate::operation::{Operation, OperationView, Sha};
use crate::oplog::{
    knows, lemma_known_place, lemma_place, place_of, Commit, CommitView, EvolutionLog,
};
use crate::project::{
    lemma_kind_continues, lemma_step_index_range, lemma_with_step, PlaneDescription, Project,
    ProjectView, StepDataView, StepView, WorkbenchView,
};
use crate::sketch::SketchView;
use vstd::prelude::*;

verus! {

/// Why a chain of commits cannot be replayed.
#[derive(Clone, Copy, Debug, PartialEq, Eq, Structural)]
pub enum ReplayError {
    /// An operation names a workbench that no commit before it in the chain created.
    UnknownWorkbench,
    /// An operation names a plane that no commit before it in the chain created.
    UnknownPlane,
    /// An operation names a sketch that no commit before it in the chain created.
    UnknownSketch,
    /// A sketch is to lie on a plane of another workbench.
    WorkbenchMismatch,
    /// A workbench or a sketch has no id left to give out.
    IdsExhausted,
}

/// The name that a plane step has until it is given one.
pub open spec fn untitled_plane() -> Seq<char> {
    "Untitled-Plane"@
}

/// The name that a sketch step has until it is given one.
pub open spec fn untitled_sketch() -> Seq<char> {
    "Untitled-Sketch"@
}

/// The identity that `sha` stands for after the aliases recorded so far: each alias, in
/// the order of its recording, leads from its original to its new identity.
pub open spec fn resolve(aliases: Seq<(Seq<char>, Seq<char>)>, sha: Seq<char>) -> Seq<char>
    decreases aliases.len(),
{
    if aliases.len() == 0 {
        sha
    } else {
        let so_far = resolve(aliases.drop_last(), sha);
        if so_far == aliases.last().0 {
            aliases.last().1
        } else {
            so_far
        }
    }
}

/// The workbench that the last entry of `table` under `sha` names.
pub open spec fn lookup_bench(table: Seq<(Seq<char>, int)>, sha: Seq<char>) -> Option<int>
    decreases table.len(),
{
    if table.len() == 0 {
        None
    } else if table.last().0 == sha {
        Some(table.last().1)
    } else {
        lookup_bench(table.drop_last(), sha)
    }
}

/// The workbench and the step id that the last entry of `table` under `sha` names.
pub open spec fn lookup_step(table: Seq<(Seq<char>, int, u64)>, sha: Seq<char>) -> Option<
    (int, u64),
>
    decreases table.len(),
{
    if table.len() == 0 {
        None
    } else if table.last().0 == sha {
        Some((table.last().1, table.last().2))
    } else {
        lookup_step(table.drop_last(), sha)
    }
}

/// The state of a replay: the project so far, the aliases recorded so far, and for each
/// creating commit the workbench, plane step or sketch step that it created.
pub struct ReplayView {
    pub project: ProjectView,
    pub aliases: Seq<(Seq<char>, Seq<char>)>,
    pub workbenches: Seq<(Seq<char>, int)>,
    pub planes: Seq<(Seq<char>, int, u64)>,
    pub sketches: Seq<(Seq<char>, int, u64)>,
}

impl ReplayView {
    /// The state before the first commit: the project `Untitled` and empty tables.
    pub open spec fn start() -> ReplayView {
        ReplayView {
            project: ProjectView::blank("Untitled"@),
            aliases: Seq::empty(),
            workbenches: Seq::empty(),
            planes: Seq::empty(),
            sketches: Seq::empty(),
        }
    }

    /// The place of the workbench that `sha` names, through the aliases.
    pub open spec fn bench(self, sha: Seq<char>) -> Option<int> {
        lookup_bench(self.workbenches, resolve(self.aliases, sha))
    }

    /// The workbench and the step id of the plane that `sha` names, through the aliases.
    pub open spec fn plane(self, sha: Seq<char>) -> Option<(int, u64)> {
        lookup_step(self.planes, resolve(self.aliases, sha))
    }

    /// The workbench and the step id of the sketch that `sha` names, through the aliases.
    pub open spec fn sketch(self, sha: Seq<char>) -> Option<(int, u64)> {
        lookup_step(self.sketches, resolve(self.aliases, sha))
    }

    /// The place in the history of workbench `w` of the step with the id `unique_id`.
    pub open spec fn place(self, w: int, unique_id: u64) -> int {
        self.project.workbenches[w].step_index(unique_id).unwrap()
    }

    /// The step at place `s` of workbench `w`.
    pub open spec fn step(self, w: int, s: int) -> StepView {
        self.project.workbenches[w].history[s]
    }

    /// The state with `step` at place `s` of workbench `w`.
    pub open spec fn with_step(self, w: int, s: int, step: StepView) -> ReplayView {
        ReplayView { project: self.project.with_step(w, s, step), ..self }
    }

    /// The state with one more step in workbench `w`: a sketch step, entered in the table
    /// of sketches under `id`, or a plane step, entered in the table of planes.
    pub open spec fn with_new_step(self, id: Seq<char>, w: int, sketch: bool) -> ReplayView {
        let entry = (id, w, (self.project.workbenches[w].highest_step_id + 1) as u64);
        ReplayView {
            project: self.project.with_workbench(
                w,
                self.project.workbenches[w].with_step(
                    if sketch {
                        untitled_sketch()
                    } else {
                        untitled_plane()
                    },
                    if sketch {
                        StepDataView::Sketch {
                            plane_description: PlaneDescription::Unset,
                            sketch: SketchView::empty(),
                        }
                    } else {
                        StepDataView::Plane { plane: None }
                    },
                ),
            ),
            planes: if sketch {
                self.planes
            } else {
                self.planes.push(entry)
            },
            sketches: if sketch {
                self.sketches.push(entry)
            } else {
                self.sketches
            },
            ..self
        }
    }

    /// Whether the tables and the project agree: every entry of a table names a workbench
    /// of the project, every entry for a plane or a sketch names a step of that kind in
    /// the history of its workbench, and no step id is above the highest that its
    /// workbench has given out.
    pub open spec fn consistent(self) -> bool {
        &&& forall|i: int|
            0 <= i < self.workbenches.len() ==> 0 <= (#[trigger] self.workbenches[i]).1
                < self.project.workbenches.len()
        &&& forall|i: int|
            0 <= i < self.planes.len() ==> self.project.has_kind(
                (#[trigger] self.planes[i]).1,
                self.planes[i].2,
                false,
            )
        &&& forall|i: int|
            0 <= i < self.sketches.len() ==> self.project.has_kind(
                (#[trigger] self.sketches[i]).1,
                self.sketches[i].2,
                true,
            )
        &&& forall|w: int|
            0 <= w < self.project.workbenches.len() ==> (
            #[trigger] self.project.workbenches[w]).ids_bounded()
    }

    /// The state after the commit `commit`, or the reason why it cannot be applied.
    ///
    /// A workbench, a plane or a sketch is created and entered in its table under the
    /// identity of the commit. An operation that sets something finds its target through
    /// the aliases and the tables. An alias is recorded. Every other operation leaves the
    /// state as it is.
    #[verifier::opaque]
    pub open spec fn apply(self, commit: CommitView) -> Result<ReplayView, ReplayError> {
        match commit.operation {
            OperationView::CreateWorkbench { nonce } => Ok(
                ReplayView {
                    project: ProjectView {
                        workbenches: self.project.workbenches.push(WorkbenchView::blank(nonce)),
                        ..self.project
                    },
                    workbenches: self.workbenches.push(
                        (commit.id, self.project.workbenches.len() as int),
                    ),
                    ..self
                },
            ),
            OperationView::SetWorkbenchName { workbench_id, name } => match self.bench(
                workbench_id,
            ) {
                Some(w) => Ok(
                    ReplayView {
                        project: self.project.with_workbench(
                            w,
                            WorkbenchView { name, ..self.project.workbenches[w] },
                        ),
                        ..self
                    },
                ),
                None => Err(ReplayError::UnknownWorkbench),
            },
            OperationView::CreatePlane { workbench_id, .. } => match self.bench(workbench_id) {
                Some(w) => if self.project.workbenches[w].highest_step_id < u64::MAX {
                    Ok(self.with_new_step(commit.id, w, false))
                } else {
                    Err(ReplayError::IdsExhausted)
                },
                None => Err(ReplayError::UnknownWorkbench),
            },
            OperationView::SetPlaneName { plane_id, name } => match self.plane(plane_id) {
                Some((w, unique_id)) => {
                    let s = self.place(w, unique_id);
                    Ok(self.with_step(w, s, StepView { name, ..self.step(w, s) }))
                },
                None => Err(ReplayError::UnknownPlane),
            },
            OperationView::SetPlane { plane_id, plane } => match self.plane(plane_id) {
                Some((w, unique_id)) => {
                    let s = self.place(w, unique_id);
                    Ok(
                        self.with_step(
                            w,
                            s,
                            StepView {
                                data: StepDataView::Plane { plane: Some(plane) },
                                ..self.step(w, s)
                            },
                        ),
                    )
                },
                None => Err(ReplayError::UnknownPlane),
            },
            OperationView::CreateSketch { workbench_id, .. } => match self.bench(workbench_id) {
                Some(w) => if self.project.workbenches[w].highest_step_id < u64::MAX {
                    Ok(self.with_new_step(commit.id, w, true))
                } else {
                    Err(ReplayError::IdsExhausted)
                },
                None => Err(ReplayError::UnknownWorkbench),
            },
            OperationView::SetSketchName { sketch_id, name } => match self.sketch(sketch_id) {
                Some((w, unique_id)) => {
                    let s = self.place(w, unique_id);
                    Ok(self.with_step(w, s, StepView { name, ..self.step(w, s) }))
                },
                None => Err(ReplayError::UnknownSketch),
            },
            OperationView::SetSketchPlane { sketch_id, plane_id } => match self.sketch(sketch_id) {
                Some((sketch_bench, sketch_step_id)) => match self.plane(plane_id) {
                    Some((plane_bench, plane_step_id)) => if sketch_bench != plane_bench {
                        Err(ReplayError::WorkbenchMismatch)
                    } else {
                        let s = self.place(plane_bench, sketch_step_id);
                        Ok(
                            self.with_step(
                                plane_bench,
                                s,
                                StepView {
                                    data: StepDataView::Sketch {
                                        plane_description: PlaneDescription::PlaneId(
                                            plane_step_id,
                                        ),
                                        sketch: self.step(plane_bench, s).data->sketch,
                                    },
                                    ..self.step(plane_bench, s)
                                },
                            ),
                        )
                    },
                    None => Err(ReplayError::UnknownPlane),
                },
                None => Err(ReplayError::UnknownSketch),
            },
            OperationView::AddSketchLine { sketch_id, start, end } => match self.sketch(sketch_id) {
                Some((w, unique_id)) => {
                    let s = self.place(w, unique_id);
                    if !self.step(w, s).data->sketch.room_for_line() {
                        Err(ReplayError::IdsExhausted)
                    } else {
                        Ok(
                            self.with_step(
                                w,
                                s,
                                StepView {
                                    data: StepDataView::Sketch {
                                        plane_description: self.step(w, s).data->plane_description,
                                        sketch: self.step(w, s).data->sketch.with_line_segment(
                                            start.0.value,
                                            start.1.value,
                                            end.0.value,
                                            end.1.value,
                                        ),
                                    },
                                    ..self.step(w, s)
                                },
                            ),
                        )
                    }
                },
                None => Err(ReplayError::UnknownSketch),
            },
            OperationView::Alias { original, new } => Ok(
                ReplayView { aliases: self.aliases.push((original, new)), ..self },
            ),
            _ => Ok(self),
        }
    }
}

/// The state after the commits of `chain`, oldest first, or the first reason why one of
/// them cannot be applied.
pub open spec fn run(chain: Seq<CommitView>) -> Result<ReplayView, ReplayError>
    decreases chain.len(),
{
    if chain.len() == 0 {
        Ok(ReplayView::start())
    } else {
        match run(chain.drop_last()) {
            Ok(state) => state.apply(chain.last()),
            Err(e) => Err(e),
        }
    }
}

/// The commit at place `i` of `log` behind its ancestors, the oldest first. A parent is
/// the first commit with the identity that its child names.
pub open spec fn ancestry(log: Seq<CommitView>, i: int) -> Seq<CommitView>
    decreases i,
{
    if !(0 <= i < log.len()) {
        Seq::empty()
    } else if log[i].is_root() || !knows(log, log[i].parent) || !(0 <= place_of(
        log,
        log[i].parent,
    ) < i) {
        seq![log[i]]
    } else {
        ancestry(log, place_of(log, log[i].parent)).push(log[i])
    }
}

/// The project that the ancestors of the commit `cursor` replay into.
pub open spec fn replayed(log: Seq<CommitView>, cursor: Seq<char>) -> Result<
    ProjectView,
    ReplayError,
> {
    match run(ancestry(log, place_of(log, cursor))) {
        Ok(state) => Ok(state.project),
        Err(e) => Err(e),
    }
}

/// The working state of a replay.
struct Replay {
    project: Project,
    aliases: Vec<(Sha, Sha)>,
    workbenches: Vec<(Sha, usize)>,
    planes: Vec<(Sha, usize, u64)>,
    sketches: Vec<(Sha, usize, u64)>,
}

/// The aliases as the contracts read them.
spec fn alias_views(aliases: Seq<(Sha, Sha)>) -> Seq<(Seq<char>, Seq<char>)> {
    Seq::new(aliases.len(), |i: int| (aliases[i].0@, aliases[i].1@))
}

/// A table of workbenches as the contracts read it.
spec fn bench_views(table: Seq<(Sha, usize)>) -> Seq<(Seq<char>, int)> {
    Seq::new(table.len(), |i: int| (table[i].0@, table[i].1 as int))
}

/// A table of steps as the contracts read it.
spec fn entry_views(table: Seq<(Sha, usize, u64)>) -> Seq<(Seq<char>, int, u64)> {
    Seq::new(table.len(), |i: int| (table[i].0@, table[i].1 as int, table[i].2))
}

impl View for Replay {
    type V = ReplayView;

    closed spec fn view(&self) -> ReplayView {
        ReplayView {
            project: self.project@,
            aliases: alias_views(self.aliases@),
            workbenches: bench_views(self.workbenches@),
            planes: entry_views(self.planes@),
            sketches: entry_views(self.sketches@),
        }
    }
}

/// The workbench and the step id that the last entry of `table` under `sha` names.
fn find_entry(table: &Vec<(Sha, usize, u64)>, sha: &Sha) -> (r: Option<(usize, u64)>)
    ensures
        match r {
            Some((w, id)) => lookup_step(entry_views(table@), sha@) == Some((w as int, id)),
            None => lookup_step(entry_views(table@), sha@) is None,
        },
{
    let mut k: usize = table.len();
    proof {
        assert(entry_views(table@).subrange(0, k as int) =~= entry_views(table@));
    }
    while k > 0
        invariant
            k <= table@.len(),
            lookup_step(entry_views(table@), sha@) == lookup_step(
                entry_views(table@).subrange(0, k as int),
                sha@,
            ),
        decreases k,
    {
        let ghost part = entry_views(table@).subrange(0, k as int);
        proof {
            assert(part.drop_last() =~= entry_views(table@).subrange(0, k - 1));
            assert(part.last() == entry_views(table@)[k - 1]);
        }
        if table[k - 1].0 == *sha {
            return Some((table[k - 1].1, table[k - 1].2));
        }
        k = k - 1;
    }
    None
}

/// Whether `s` is empty.
fn is_empty(s: &Sha) -> (r: bool)
    ensures
        r == (s@.len() == 0),
{
    s.as_str().unicode_len() == 0
}

/// An entry that a lookup finds is an entry of the table.
proof fn lemma_lookup_bench(table: Seq<(Seq<char>, int)>, sha: Seq<char>)
    ensures
        lookup_bench(table, sha) matches Some(w) ==> exists|i: int|
            0 <= i < table.len() && (#[trigger] table[i]).1 == w,
    decreases table.len(),
{
    if table.len() > 0 {
        if table.last().0 == sha {
            assert(table[table.len() - 1].1 == table.last().1);
        } else {
            lemma_lookup_bench(table.drop_last(), sha);
            if lookup_bench(table.drop_last(), sha) is Some {
                let w = lookup_bench(table.drop_last(), sha).unwrap();
                let i = choose|i: int|
                    0 <= i < table.drop_last().len() && (#[trigger] table.drop_last()[i]).1 == w;
                assert(table[i] == table.drop_last()[i]);
            }
        }
    }
}

/// An entry that a lookup finds is an entry of the table.
proof fn lemma_lookup_step(table: Seq<(Seq<char>, int, u64)>, sha: Seq<char>)
    ensures
        lookup_step(table, sha) matches Some(found) ==> exists|i: int|
            0 <= i < table.len() && (#[trigger] table[i]).1 == found.0 && table[i].2 == found.1,
    decreases table.len(),
{
    if table.len() > 0 {
        if table.last().0 == sha {
            assert(table[table.len() - 1].1 == table.last().1);
        } else {
            lemma_lookup_step(table.drop_last(), sha);
            if lookup_step(table.drop_last(), sha) is Some {
                let found = lookup_step(table.drop_last(), sha).unwrap();
                let i = choose|i: int|
                    0 <= i < table.drop_last().len() && (#[trigger] table.drop_last()[i]).1
                        == found.0 && table.drop_last()[i].2 == found.1;
                assert(table[i] == table.drop_last()[i]);
            }
        }
    }
}

impl ReplayView {
    /// In a consistent state a workbench that is found is one of the project.
    pub proof fn lemma_bench_found(self, sha: Seq<char>)
        requires
            self.consistent(),
        ensures
            self.bench(sha) matches Some(w) ==> 0 <= w < self.project.workbenches.len(),
    {
        lemma_lookup_bench(self.workbenches, resolve(self.aliases, sha));
    }

    /// In a consistent state a plane that is found is a plane step of its workbench.
    pub proof fn lemma_plane_found(self, sha: Seq<char>)
        requires
            self.consistent(),
        ensures
            self.plane(sha) matches Some(found) ==> self.project.has_kind(
                found.0,
                found.1,
                false,
            ),
    {
        lemma_lookup_step(self.planes, resolve(self.aliases, sha));
    }

    /// In a consistent state a sketch that is found is a sketch step of its workbench.
    pub proof fn lemma_sketch_found(self, sha: Seq<char>)
        requires
            self.consistent(),
        ensures
            self.sketch(sha) matches Some(found) ==> self.project.has_kind(
                found.0,
                found.1,
                true,
            ),
    {
        lemma_lookup_step(self.sketches, resolve(self.aliases, sha));
    }

    /// A state stays consistent when the steps of its workbenches stay at their places,
    /// each under its id and of its kind, and the tables stay as they are.
    pub proof fn lemma_continued(self, after: ReplayView)
        requires
            self.consistent(),
            after.workbenches == self.workbenches,
            after.planes == self.planes,
            after.sketches == self.sketches,
            after.project.workbenches.len() == self.project.workbenches.len(),
            forall|w: int|
                0 <= w < self.project.workbenches.len() ==> (
                #[trigger] self.project.workbenches[w]).continued_by(after.project.workbenches[w])
                    && after.project.workbenches[w].ids_bounded(),
        ensures
            after.consistent(),
    {
        assert forall|i: int| 0 <= i < after.planes.len() implies after.project.has_kind(
            (#[trigger] after.planes[i]).1,
            after.planes[i].2,
            false,
        ) by {
            let w = self.planes[i].1;
            assert(self.project.has_kind(w, self.planes[i].2, false));
            assert(self.project.workbenches[w].continued_by(after.project.workbenches[w]));
            lemma_kind_continues(self.project, after.project, w, self.planes[i].2, false);
        }
        assert forall|i: int| 0 <= i < after.sketches.len() implies after.project.has_kind(
            (#[trigger] after.sketches[i]).1,
            after.sketches[i].2,
            true,
        ) by {
            let w = self.sketches[i].1;
            assert(self.project.has_kind(w, self.sketches[i].2, true));
            assert(self.project.workbenches[w].continued_by(after.project.workbenches[w]));
            lemma_kind_continues(self.project, after.project, w, self.sketches[i].2, true);
        }
        assert forall|w: int| 0 <= w < after.project.workbenches.len() implies (
        #[trigger] after.project.workbenches[w]).ids_bounded() by {
            assert(self.project.workbenches[w].continued_by(after.project.workbenches[w]));
        }
    }

    /// A state stays consistent when the step at place `s` of workbench `w` is replaced
    /// by a step of its kind under its id.
    pub proof fn lemma_step_replaced(self, w: int, s: int, step: StepView)
        requires
            self.consistent(),
            0 <= w < self.project.workbenches.len(),
            0 <= s < self.project.workbenches[w].history.len(),
            step.unique_id == self.step(w, s).unique_id,
            step.data.is_sketch() == self.step(w, s).data.is_sketch(),
        ensures
            self.with_step(w, s, step).consistent(),
    {
        let after = self.with_step(w, s, step);
        assert forall|v: int| 0 <= v < self.project.workbenches.len() implies (
        #[trigger] self.project.workbenches[v]).continued_by(after.project.workbenches[v])
            && after.project.workbenches[v].ids_bounded() by {
            assert(self.project.workbenches[v].ids_bounded());
            if v == w {
                let before = self.project.workbenches[w];
                let now = after.project.workbenches[w];
                assert forall|t: int| 0 <= t < now.history.len() implies (
                #[trigger] now.history[t]).unique_id <= now.highest_step_id by {
                    assert(before.history[t].unique_id <= before.highest_step_id);
                }
            }
        }
        self.lemma_continued(after);
    }

    /// A state stays consistent when a workbench gets another name.
    pub proof fn lemma_bench_renamed(self, w: int, name: Seq<char>)
        requires
            self.consistent(),
            0 <= w < self.project.workbenches.len(),
        ensures
            (ReplayView {
                project: self.project.with_workbench(
                    w,
                    WorkbenchView { name, ..self.project.workbenches[w] },
                ),
                ..self
            }).consistent(),
    {
        let after = ReplayView {
            project: self.project.with_workbench(
                w,
                WorkbenchView { name, ..self.project.workbenches[w] },
            ),
            ..self
        };
        assert forall|v: int| 0 <= v < self.project.workbenches.len() implies (
        #[trigger] self.project.workbenches[v]).continued_by(after.project.workbenches[v])
            && after.project.workbenches[v].ids_bounded() by {
            assert(self.project.workbenches[v].ids_bounded());
            if v == w {
                let before = self.project.workbenches[w];
                let now = after.project.workbenches[w];
                assert forall|t: int| 0 <= t < now.history.len() implies (
                #[trigger] now.history[t]).unique_id <= now.highest_step_id by {
                    assert(before.history[t].unique_id <= before.highest_step_id);
                }
            }
        }
        self.lemma_continued(after);
    }

    /// A state stays consistent when a workbench is created.
    pub proof fn lemma_bench_created(self, id: Seq<char>, name: Seq<char>)
        requires
            self.consistent(),
        ensures
            (ReplayView {
                project: ProjectView {
                    workbenches: self.project.workbenches.push(WorkbenchView::blank(name)),
                    ..self.project
                },
                workbenches: self.workbenches.push(
                    (id, self.project.workbenches.len() as int),
                ),
                ..self
            }).consistent(),
    {
        let after = ReplayView {
            project: ProjectView {
                workbenches: self.project.workbenches.push(WorkbenchView::blank(name)),
                ..self.project
            },
            workbenches: self.workbenches.push((id, self.project.workbenches.len() as int)),
            ..self
        };
        let n = self.project.workbenches.len() as int;
        assert forall|i: int| 0 <= i < after.workbenches.len() implies 0 <= (
        #[trigger] after.workbenches[i]).1 < after.project.workbenches.len() by {
            if i < self.workbenches.len() {
                assert(after.workbenches[i] == self.workbenches[i]);
            }
        }
        assert forall|i: int| 0 <= i < after.planes.len() implies after.project.has_kind(
            (#[trigger] after.planes[i]).1,
            after.planes[i].2,
            false,
        ) by {
            let w = self.planes[i].1;
            assert(self.project.has_kind(w, self.planes[i].2, false));
            assert(after.project.workbenches[w] == self.project.workbenches[w]);
        }
        assert forall|i: int| 0 <= i < after.sketches.len() implies after.project.has_kind(
            (#[trigger] after.sketches[i]).1,
            after.sketches[i].2,
            true,
        ) by {
            let w = self.sketches[i].1;
            assert(self.project.has_kind(w, self.sketches[i].2, true));
            assert(after.project.workbenches[w] == self.project.workbenches[w]);
        }
        assert forall|w: int| 0 <= w < after.project.workbenches.len() implies (
        #[trigger] after.project.workbenches[w]).ids_bounded() by {
            if w < n {
                assert(after.project.workbenches[w] == self.project.workbenches[w]);
                assert(self.project.workbenches[w].ids_bounded());
            }
        }
    }

    /// A state stays consistent when a plane step or a sketch step is created.
    pub proof fn lemma_step_created(self, id: Seq<char>, w: int, sketch: bool)
        requires
            self.consistent(),
            0 <= w < self.project.workbenches.len(),
            self.project.workbenches[w].highest_step_id < u64::MAX,
        ensures
            self.with_new_step(id, w, sketch).consistent(),
    {
        let after = self.with_new_step(id, w, sketch);
        let before = self.project.workbenches[w];
        let now = after.project.workbenches[w];
        let unique_id = (before.highest_step_id + 1) as u64;
        assert(before.ids_bounded());
        lemma_with_step(before, now.history.last().name, now.history.last().data);
        assert(now == before.with_step(now.history.last().name, now.history.last().data));
        assert forall|i: int| 0 <= i < after.workbenches.len() implies 0 <= (
        #[trigger] after.workbenches[i]).1 < after.project.workbenches.len() by {
            assert(0 <= self.workbenches[i].1 < self.project.workbenches.len());
        }
        assert forall|v: int, step_id: u64, kind: bool|
            self.project.has_kind(v, step_id, kind) implies after.project.has_kind(
            v,
            step_id,
            kind,
        ) by {
            if v == w {
                lemma_kind_continues(self.project, after.project, v, step_id, kind);
            } else {
                assert(after.project.workbenches[v] == self.project.workbenches[v]);
            }
        }
        assert(after.project.has_kind(w, unique_id, sketch)) by {
            assert(now.history[before.history.len() as int].data.is_sketch() == sketch);
        }
        assert forall|i: int| 0 <= i < after.planes.len() implies after.project.has_kind(
            (#[trigger] after.planes[i]).1,
            after.planes[i].2,
            false,
        ) by {
            if i < self.planes.len() {
                assert(after.planes[i] == self.planes[i]);
                assert(self.project.has_kind(self.planes[i].1, self.planes[i].2, false));
            }
        }
        assert forall|i: int| 0 <= i < after.sketches.len() implies after.project.has_kind(
            (#[trigger] after.sketches[i]).1,
            after.sketches[i].2,
            true,
        ) by {
            if i < self.sketches.len() {
                assert(after.sketches[i] == self.sketches[i]);
                assert(self.project.has_kind(self.sketches[i].1, self.sketches[i].2, true));
            }
        }
        assert forall|v: int| 0 <= v < after.project.workbenches.len() implies (
        #[trigger] after.project.workbenches[v]).ids_bounded() by {
            if v != w {
                assert(after.project.workbenches[v] == self.project.workbenches[v]);
                assert(self.project.workbenches[v].ids_bounded());
            }
        }
    }

    /// Applying a commit keeps a consistent state consistent.
    pub proof fn lemma_apply_consistent(self, commit: CommitView)
        requires
            self.consistent(),
        ensures
            self.apply(commit) matches Ok(after) ==> after.consistent(),
    {
        reveal(ReplayView::apply);
        match commit.operation {
            OperationView::CreateWorkbench { nonce } => {
                self.lemma_bench_created(commit.id, nonce);
            },
            OperationView::SetWorkbenchName { workbench_id, name } => {
                self.lemma_bench_found(workbench_id);
                if self.bench(workbench_id) is Some {
                    self.lemma_bench_renamed(self.bench(workbench_id).unwrap(), name);
                }
            },
            OperationView::CreatePlane { workbench_id, .. } => {
                self.lemma_bench_found(workbench_id);
                if self.bench(workbench_id) is Some {
                    let w = self.bench(workbench_id).unwrap();
                    if self.project.workbenches[w].highest_step_id < u64::MAX {
                        self.lemma_step_created(commit.id, w, false);
                    }
                }
            },
            OperationView::CreateSketch { workbench_id, .. } => {
                self.lemma_bench_found(workbench_id);
                if self.bench(workbench_id) is Some {
                    let w = self.bench(workbench_id).unwrap();
                    if self.project.workbenches[w].highest_step_id < u64::MAX {
                        self.lemma_step_created(commit.id, w, true);
                    }
                }
            },
            OperationView::SetPlaneName { plane_id, name } => {
                self.lemma_plane_found(plane_id);
                if self.plane(plane_id) is Some {
                    let (w, unique_id) = self.plane(plane_id).unwrap();
                    let s = self.place(w, unique_id);
                    lemma_step_index_range(
                        self.project.workbenches[w],
                        unique_id,
                        self.project.workbenches[w].history.len() as int,
                    );
                    self.lemma_step_replaced(w, s, StepView { name, ..self.step(w, s) });
                }
            },
            OperationView::SetPlane { plane_id, plane } => {
                self.lemma_plane_found(plane_id);
                if self.plane(plane_id) is Some {
                    let (w, unique_id) = self.plane(plane_id).unwrap();
                    let s = self.place(w, unique_id);
                    self.lemma_step_replaced(
                        w,
                        s,
                        StepView {
                            data: StepDataView::Plane { plane: Some(plane) },
                            ..self.step(w, s)
                        },
                    );
                }
            },
            OperationView::SetSketchName { sketch_id, name } => {
                self.lemma_sketch_found(sketch_id);
                if self.sketch(sketch_id) is Some {
                    let (w, unique_id) = self.sketch(sketch_id).unwrap();
                    let s = self.place(w, unique_id);
                    self.lemma_step_replaced(w, s, StepView { name, ..self.step(w, s) });
                }
            },
            OperationView::SetSketchPlane { sketch_id, plane_id } => {
                self.lemma_sketch_found(sketch_id);
                self.lemma_plane_found(plane_id);
                if self.sketch(sketch_id) is Some && self.plane(plane_id) is Some {
                    let (w, unique_id) = self.sketch(sketch_id).unwrap();
                    let (plane_bench, plane_step_id) = self.plane(plane_id).unwrap();
                    if w == plane_bench {
                        let s = self.place(w, unique_id);
                        self.lemma_step_replaced(
                            w,
                            s,
                            StepView {
                                data: StepDataView::Sketch {
                                    plane_description: PlaneDescription::PlaneId(plane_step_id),
                                    sketch: self.step(w, s).data->sketch,
                                },
                                ..self.step(w, s)
                            },
                        );
                    }
                }
            },
            OperationView::AddSketchLine { sketch_id, start, end } => {
                self.lemma_sketch_found(sketch_id);
                if self.sketch(sketch_id) is Some {
                    let (w, unique_id) = self.sketch(sketch_id).unwrap();
                    let s = self.place(w, unique_id);
                    if self.step(w, s).data->sketch.room_for_line() {
                        self.lemma_step_replaced(
                            w,
                            s,
                            StepView {
                                data: StepDataView::Sketch {
                                    plane_description: self.step(w, s).data->plane_description,
                                    sketch: self.step(w, s).data->sketch.with_line_segment(
                                        start.0.value,
                                        start.1.value,
                                        end.0.value,
                                        end.1.value,
                                    ),
                                },
                                ..self.step(w, s)
                            },
                        );
                    }
                }
            },
            _ => {},
        }
    }
}

impl Replay {
    /// Every sketch of the project so far is well-formed, and the tables agree with the
    /// project.
    #[verifier::opaque]
    spec fn wf(&self) -> bool {
        self.project.sketches_wf() && self@.consistent()
    }

    /// The state before the first commit.
    fn start() -> (r: Replay)
        ensures
            r@ == ReplayView::start(),
            r.wf(),
    {
        let r = Replay {
            project: Project::new("Untitled"),
            aliases: Vec::new(),
            workbenches: Vec::new(),
            planes: Vec::new(),
            sketches: Vec::new(),
        };
        proof {
            reveal(Replay::wf);
            assert(r@.aliases =~= Seq::<(Seq<char>, Seq<char>)>::empty());
            assert(r@.workbenches =~= Seq::<(Seq<char>, int)>::empty());
            assert(r@.planes =~= Seq::<(Seq<char>, int, u64)>::empty());
            assert(r@.sketches =~= Seq::<(Seq<char>, int, u64)>::empty());
        }
        r
    }

    /// The identity that `sha` stands for after the aliases recorded so far.
    fn resolve(&self, sha: &Sha) -> (r: Sha)
        ensures
            r@ == resolve(self@.aliases, sha@),
    {
        let mut current = sha.clone();
        let mut k: usize = 0;
        while k < self.aliases.len()
            invariant
                k <= self.aliases@.len(),
                current@ == resolve(alias_views(self.aliases@).subrange(0, k as int), sha@),
            decreases self.aliases@.len() - k,
        {
            let ghost part = alias_views(self.aliases@).subrange(0, k + 1);
            proof {
                assert(part.drop_last() =~= alias_views(self.aliases@).subrange(0, k as int));
                assert(part.last() == alias_views(self.aliases@)[k as int]);
            }
            if current == self.aliases[k].0 {
                current = self.aliases[k].1.clone();
            }
            k = k + 1;
        }
        proof {
            assert(alias_views(self.aliases@).subrange(0, k as int) =~= alias_views(
                self.aliases@,
            ));
        }
        current
    }

    /// The place of the workbench that `sha` names.
    fn bench(&self, sha: &Sha) -> (r: Option<usize>)
        requires
            self.wf(),
        ensures
            match r {
                Some(w) => self@.bench(sha@) == Some(w as int) && w
                    < self.project.workbenches@.len(),
                None => self@.bench(sha@) is None,
            },
    {
        let target = self.resolve(sha);
        proof {
            reveal(Replay::wf);
            self@.lemma_bench_found(sha@);
        }
        let ghost found = self@.bench(sha@);
        let mut k: usize = self.workbenches.len();
        proof {
            assert(bench_views(self.workbenches@).subrange(0, k as int) =~= bench_views(
                self.workbenches@,
            ));
        }
        while k > 0
            invariant
                k <= self.workbenches@.len(),
                target@ == resolve(self@.aliases, sha@),
                found == self@.bench(sha@),
                found matches Some(w) ==> 0 <= w < self.project.workbenches@.len(),
                lookup_bench(bench_views(self.workbenches@), target@) == lookup_bench(
                    bench_views(self.workbenches@).subrange(0, k as int),
                    target@,
                ),
            decreases k,
        {
            let ghost part = bench_views(self.workbenches@).subrange(0, k as int);
            proof {
                assert(part.drop_last() =~= bench_views(self.workbenches@).subrange(0, k - 1));
                assert(part.last() == bench_views(self.workbenches@)[k - 1]);
            }
            if self.workbenches[k - 1].0 == target {
                proof {
                    assert(lookup_bench(part, target@) == Some(self.workbenches@[k - 1].1 as int));
                }
                return Some(self.workbenches[k - 1].1);
            }
            k = k - 1;
        }
        None
    }

    /// The workbench, the place in its history and the id of the step that `sha` names in
    /// the table of sketches, if `sketch` holds, or else in the table of planes.
    fn step_of(&self, sha: &Sha, sketch: bool) -> (r: Option<(usize, usize, u64)>)
        requires
            self.wf(),
        ensures
            match r {
                Some((w, s, unique_id)) => {
                    &&& (if sketch {
                        self@.sketch(sha@)
                    } else {
                        self@.plane(sha@)
                    }) == Some((w as int, unique_id))
                    &&& s as int == self@.place(w as int, unique_id)
                    &&& self.project.has_step(w as int, s as int)
                    &&& self@.step(w as int, s as int).data.is_sketch() == sketch
                    &&& self@.step(w as int, s as int).unique_id == unique_id
                },
                None => (if sketch {
                    self@.sketch(sha@)
                } else {
                    self@.plane(sha@)
                }) is None,
            },
    {
        let target = self.resolve(sha);
        proof {
            reveal(Replay::wf);
            self@.lemma_plane_found(sha@);
            self@.lemma_sketch_found(sha@);
        }
        let found = if sketch {
            find_entry(&self.sketches, &target)
        } else {
            find_entry(&self.planes, &target)
        };
        match found {
            Some((w, unique_id)) => {
                let place = self.project.workbenches[w].step_id_from_unique_id(unique_id);
                Some((w, place.unwrap(), unique_id))
            },
            None => None,
        }
    }

    /// Creates a plane step, or a sketch step, in the workbench that `workbench_id` names
    /// and enters it in its table under `id`.
    fn create_step(&mut self, id: &Sha, workbench_id: &Sha, sketch: bool) -> (r: Result<
        (),
        ReplayError,
    >)
        requires
            old(self).wf(),
        ensures
            final(self).project.sketches_wf(),
            match old(self)@.bench(workbench_id@) {
                Some(w) => if old(self)@.project.workbenches[w].highest_step_id < u64::MAX {
                    r is Ok && final(self)@ == old(self)@.with_new_step(id@, w, sketch)
                } else {
                    r == Err::<(), ReplayError>(ReplayError::IdsExhausted)
                },
                None => r == Err::<(), ReplayError>(ReplayError::UnknownWorkbench),
            },
    {
        proof {
            reveal(Replay::wf);
        }
        match self.bench(workbench_id) {
            Some(w) => {
                if self.project.workbenches[w].highest_step_id < u64::MAX {
                    if sketch {
                        let unique_id = self.project.add_step(w, "Untitled-Sketch", true);
                        self.sketches.push((id.clone(), w, unique_id));
                        proof {
                            assert(self@.sketches =~= old(self)@.sketches.push(
                                (id@, w as int, unique_id),
                            ));
                        }
                    } else {
                        let unique_id = self.project.add_step(w, "Untitled-Plane", false);
                        self.planes.push((id.clone(), w, unique_id));
                        proof {
                            assert(self@.planes =~= old(self)@.planes.push(
                                (id@, w as int, unique_id),
                            ));
                        }
                    }
                    Ok(())
                } else {
                    Err(ReplayError::IdsExhausted)
                }
            },
            None => Err(ReplayError::UnknownWorkbench),
        }
    }

    /// Applies `commit` to the state.
    fn apply(&mut self, commit: &Commit) -> (r: Result<(), ReplayError>)
        requires
            old(self).wf(),
        ensures
            match r {
                Ok(_) => old(self)@.apply(commit@) == Ok::<ReplayView, ReplayError>(final(self)@)
                    && final(self).wf(),
                Err(e) => old(self)@.apply(commit@) == Err::<ReplayView, ReplayError>(e),
            },
    {
        reveal(ReplayView::apply);
        proof {
            reveal(Replay::wf);
            self@.lemma_apply_consistent(commit@);
        }
        match &commit.operation {
            Operation::CreateWorkbench { nonce } => {
                let w = self.project.add_workbench(nonce.as_str());
                self.workbenches.push((commit.id.clone(), w));
                proof {
                    assert(self@.workbenches =~= old(self)@.workbenches.push(
                        (commit@.id, w as int),
                    ));
                }
                Ok(())
            },
            Operation::SetWorkbenchName { workbench_id, name } => {
                match self.bench(workbench_id) {
                    Some(w) => {
                        self.project.rename_workbench(w, name.clone());
                        Ok(())
                    },
                    None => Err(ReplayError::UnknownWorkbench),
                }
            },
            Operation::CreatePlane { workbench_id, .. } => self.create_step(
                &commit.id,
                workbench_id,
                false,
            ),
            Operation::SetPlaneName { plane_id, name } => {
                match self.step_of(plane_id, false) {
                    Some((w, s, _)) => {
                        self.project.rename_step(w, s, name.clone());
                        Ok(())
                    },
                    None => Err(ReplayError::UnknownPlane),
                }
            },
            Operation::SetPlane { plane_id, plane } => {
                match self.step_of(plane_id, false) {
                    Some((w, s, _)) => {
                        self.project.place_plane(w, s, plane.clone());
                        Ok(())
                    },
                    None => Err(ReplayError::UnknownPlane),
                }
            },
            Operation::CreateSketch { workbench_id, .. } => self.create_step(
                &commit.id,
                workbench_id,
                true,
            ),
            Operation::SetSketchName { sketch_id, name } => {
                match self.step_of(sketch_id, true) {
                    Some((w, s, _)) => {
                        self.project.rename_step(w, s, name.clone());
                        Ok(())
                    },
                    None => Err(ReplayError::UnknownSketch),
                }
            },
            Operation::SetSketchPlane { sketch_id, plane_id } => {
                match self.step_of(sketch_id, true) {
                    Some((sketch_bench, s, _)) => {
                        match self.step_of(plane_id, false) {
                            Some((plane_bench, _, plane_step_id)) => {
                                if sketch_bench != plane_bench {
                                    Err(ReplayError::WorkbenchMismatch)
                                } else {
                                    self.project.lay_sketch(plane_bench, s, plane_step_id);
                                    Ok(())
                                }
                            },
                            None => Err(ReplayError::UnknownPlane),
                        }
                    },
                    None => Err(ReplayError::UnknownSketch),
                }
            },
            Operation::AddSketchLine { sketch_id, start, end } => {
                match self.step_of(sketch_id, true) {
                    Some((w, s, _)) => {
                        if !self.project.has_room_for_line(w, s) {
                            Err(ReplayError::IdsExhausted)
                        } else {
                            self.project.draw_line(
                                w,
                                s,
                                start.0.value,
                                start.1.value,
                                end.0.value,
                                end.1.value,
                            );
                            Ok(())
                        }
                    },
                    None => Err(ReplayError::UnknownSketch),
                }
            },
            Operation::Alias { original, new } => {
                self.aliases.push((original.clone(), new.clone()));
                proof {
                    assert(self@.aliases =~= old(self)@.aliases.push((original@, new@)));
                }
                Ok(())
            },
            _ => Ok(()),
        }
    }
}

/// Whether `places` leads from a commit to a root: each place but the last is followed by
/// the place of its parent, and the ancestry of the last is the commit there alone.
spec fn leads_home(log: Seq<CommitView>, places: Seq<usize>) -> bool {
    &&& places.len() > 0
    &&& forall|j: int| 0 <= j < places.len() ==> (#[trigger] places[j]) < log.len()
    &&& forall|j: int|
        0 <= j < places.len() - 1 ==> ancestry(log, (#[trigger] places[j]) as int) == ancestry(
            log,
            places[j + 1] as int,
        ).push(log[places[j] as int])
    &&& ancestry(log, places.last() as int) == seq![log[places.last() as int]]
}

/// Replaying one more commit applies it to the state after the others.
proof fn lemma_run_push(chain: Seq<CommitView>, commit: CommitView)
    ensures
        run(chain.push(commit)) == match run(chain) {
            Ok(state) => state.apply(commit),
            Err(e) => Err(e),
        },
{
    assert(chain.push(commit).drop_last() =~= chain);
}

/// A chain that cannot be replayed cannot be replayed with more commits behind it.
proof fn lemma_error_stays(log: Seq<CommitView>, places: Seq<usize>, k: int, e: ReplayError)
    requires
        leads_home(log, places),
        0 <= k < places.len(),
        run(ancestry(log, places[k] as int)) == Err::<ReplayView, ReplayError>(e),
    ensures
        run(ancestry(log, places[0] as int)) == Err::<ReplayView, ReplayError>(e),
    decreases k,
{
    if k > 0 {
        lemma_run_push(ancestry(log, places[k] as int), log[places[k - 1] as int]);
        lemma_error_stays(log, places, k - 1, e);
    }
}

impl EvolutionLog {
    /// The places of the commit under the cursor and of its ancestors, the youngest first.
    fn lineage(&self) -> (r: Vec<usize>)
        requires
            self.wf(),
        ensures
            leads_home(self.oplog@, r@),
            r@[0] as int == place_of(self.oplog@, self.cursor@),
    {
        let found = self.oplog.find(&self.cursor);
        proof {
            lemma_known_place(self.oplog@, self.cursor@);
            if found is Some {
                lemma_place(self.oplog@, self.cursor@, found->Some_0 as int);
            }
        }
        let mut i: usize = found.unwrap();
        let mut places: Vec<usize> = Vec::new();
        places.push(i);
        loop
            invariant
                places@.len() > 0,
                places@.last() == i,
                i < self.oplog@.len(),
                places@[0] as int == place_of(self.oplog@, self.cursor@),
                forall|j: int|
                    0 <= j < places@.len() ==> (#[trigger] places@[j]) < self.oplog@.len(),
                forall|j: int|
                    0 <= j < places@.len() - 1 ==> ancestry(
                        self.oplog@,
                        (#[trigger] places@[j]) as int,
                    ) == ancestry(self.oplog@, places@[j + 1] as int).push(
                        self.oplog@[places@[j] as int],
                    ),
            ensures
                leads_home(self.oplog@, places@),
            decreases i,
        {
            let commit = self.oplog.get(i);
            if is_empty(&commit.parent) {
                break;
            }
            let parent = self.oplog.find(&commit.parent);
            match parent {
                Some(p) => {
                    proof {
                        lemma_place(self.oplog@, commit@.parent, p as int);
                    }
                    if p < i {
                        let ghost before = places@;
                        places.push(p);
                        proof {
                            assert forall|j: int| 0 <= j < places@.len() - 1 implies ancestry(
                                self.oplog@,
                                (#[trigger] places@[j]) as int,
                            ) == ancestry(self.oplog@, places@[j + 1] as int).push(
                                self.oplog@[places@[j] as int],
                            ) by {
                                if j < before.len() - 1 {
                                    assert(places@[j] == before[j]);
                                    assert(places@[j + 1] == before[j + 1]);
                                }
                            }
                        }
                        i = p;
                    } else {
                        break;
                    }
                },
                None => {
                    break;
                },
            }
        }
        places
    }

    /// Replays the commit under the cursor behind its ancestors, from the root on, into a
    /// project. Returns the first reason why a commit cannot be applied, if there is one.
    /// Every sketch of the project is well-formed: each point id that one of its shapes
    /// names resolves in its point map.
    pub fn replay(&self) -> (r: Result<Project, ReplayError>)
        requires
            self.wf(),
        ensures
            match r {
                Ok(project) => replayed(self.oplog@, self.cursor@) == Ok::<
                    ProjectView,
                    ReplayError,
                >(project@) && project.sketches_wf(),
                Err(e) => replayed(self.oplog@, self.cursor@) == Err::<ProjectView, ReplayError>(
                    e,
                ),
            },
    {
        let places = self.lineage();
        let mut state = Replay::start();
        let mut k: usize = places.len();
        let ghost mut done: Seq<CommitView> = Seq::empty();
        while k > 0
            invariant
                k <= places@.len(),
                leads_home(self.oplog@, places@),
                places@[0] as int == place_of(self.oplog@, self.cursor@),
                state.wf(),
                run(done) == Ok::<ReplayView, ReplayError>(state@),
                k == places@.len() ==> done == Seq::<CommitView>::empty(),
                k < places@.len() ==> done == ancestry(self.oplog@, places@[k as int] as int),
            decreases k,
        {
            let place = places[k - 1];
            let commit = self.oplog.get(place);
            let ghost next = ancestry(self.oplog@, place as int);
            proof {
                assert(next =~= done.push(commit@));
                lemma_run_push(done, commit@);
            }
            match state.apply(commit) {
                Ok(_) => {},
                Err(e) => {
                    proof {
                        lemma_error_stays(self.oplog@, places@, k - 1, e);
                    }
                    return Err(e);
                },
            }
            proof {
                done = next;
            }
            k = k - 1;
        }
        proof {
            reveal(Replay::wf);
        }
        Ok(state.project)
    }

    /// The project that the commit under the cursor and its ancestors replay into. The
    /// chain has to be one that can be replayed.
    pub fn to_project(&self) -> (r: Project)
        requires
            self.wf(),
            replayed(self.oplog@, self.cursor@) is Ok,
        ensures
            replayed(self.oplog@, self.cursor@) == Ok::<ProjectView, ReplayError>(r@),
            r.sketches_wf(),
    {
        let outcome = self.replay();
        outcome.unwrap()
    }
}

} // verus!
