//! The project that a log replays into: workbenches and their histories of steps.

use crate::geometry::{Arc2, Circle2, Line2, Point2, Scalar};
use crate::operation::Plane;
use crate::sketch::{Sketch, SketchView};
use vstd::prelude::*;

verus! {

/// The plane that a sketch lies on: none yet, or the plane step with the given id.
#[derive(Clone, Copy, Debug, PartialEq, Eq, Structural)]
pub enum PlaneDescription {
    Unset,
    PlaneId(u64),
}

/// What a step holds. A plane step starts without a placement and gets one when its
/// plane is set; a sketch step starts with an empty sketch on no plane.
#[derive(Debug)]
pub enum StepData {
    Plane { plane: Option<Plane> },
    Sketch { plane_description: PlaneDescription, sketch: Sketch },
}

/// What the contracts read of a [`StepData`].
pub enum StepDataView {
    Plane { plane: Option<Seq<char>> },
    Sketch { plane_description: PlaneDescription, sketch: SketchView },
}

impl View for StepData {
    type V = StepDataView;

    open spec fn view(&self) -> StepDataView {
        match self {
            StepData::Plane { plane } => StepDataView::Plane {
                plane: match plane {
                    Some(p) => Some(p@),
                    None => None,
                },
            },
            StepData::Sketch { plane_description, sketch } => StepDataView::Sketch {
                plane_description: *plane_description,
                sketch: sketch@,
            },
        }
    }
}

/// One step of a workbench: its name, its id within the workbench, and its data.
#[derive(Debug)]
pub struct Step {
    pub name: String,
    pub unique_id: u64,
    pub data: StepData,
}

/// What the contracts read of a [`Step`].
pub struct StepView {
    pub name: Seq<char>,
    pub unique_id: u64,
    pub data: StepDataView,
}

impl View for Step {
    type V = StepView;

    open spec fn view(&self) -> StepView {
        StepView { name: self.name@, unique_id: self.unique_id, data: self.data@ }
    }
}

/// The views of `steps`, in order.
pub open spec fn step_views(steps: Seq<Step>) -> Seq<StepView> {
    Seq::new(steps.len(), |i: int| steps[i]@)
}

/// An ordered history of steps. Step ids are given out one above the highest so far.
#[derive(Debug)]
pub struct Workbench {
    pub name: String,
    pub history: Vec<Step>,
    pub highest_step_id: u64,
}

/// What the contracts read of a [`Workbench`].
pub struct WorkbenchView {
    pub name: Seq<char>,
    pub history: Seq<StepView>,
    pub highest_step_id: u64,
}

impl View for Workbench {
    type V = WorkbenchView;

    open spec fn view(&self) -> WorkbenchView {
        WorkbenchView {
            name: self.name@,
            history: step_views(self.history@),
            highest_step_id: self.highest_step_id,
        }
    }
}

impl WorkbenchView {
    /// The workbench `name` without steps.
    pub open spec fn blank(name: Seq<char>) -> WorkbenchView {
        WorkbenchView { name, history: Seq::empty(), highest_step_id: 0 }
    }

    /// The workbench with one more step, under the id one above the highest so far.
    pub open spec fn with_step(self, name: Seq<char>, data: StepDataView) -> WorkbenchView {
        let unique_id = (self.highest_step_id + 1) as u64;
        WorkbenchView {
            history: self.history.push(StepView { name, unique_id, data }),
            highest_step_id: unique_id,
            ..self
        }
    }

    /// The place of the first step among the first `n` with the id `unique_id`.
    pub open spec fn step_index_upto(self, unique_id: u64, n: int) -> Option<int>
        decreases n,
    {
        if n <= 0 {
            None
        } else {
            match self.step_index_upto(unique_id, n - 1) {
                Some(i) => Some(i),
                None => if self.history[n - 1].unique_id == unique_id {
                    Some(n - 1)
                } else {
                    None
                },
            }
        }
    }

    /// The place in the history of the first step with the id `unique_id`.
    pub open spec fn step_index(self, unique_id: u64) -> Option<int> {
        self.step_index_upto(unique_id, self.history.len() as int)
    }
}

/// The views of `workbenches`, in order.
pub open spec fn workbench_views(workbenches: Seq<Workbench>) -> Seq<WorkbenchView> {
    Seq::new(workbenches.len(), |i: int| workbenches[i]@)
}

/// A project: a name and its workbenches.
#[derive(Debug)]
pub struct Project {
    pub name: String,
    pub workbenches: Vec<Workbench>,
}

/// What the contracts read of a [`Project`].
pub struct ProjectView {
    pub name: Seq<char>,
    pub workbenches: Seq<WorkbenchView>,
}

impl View for Project {
    type V = ProjectView;

    open spec fn view(&self) -> ProjectView {
        ProjectView { name: self.name@, workbenches: workbench_views(self.workbenches@) }
    }
}

impl ProjectView {
    /// The project `name` without workbenches.
    pub open spec fn blank(name: Seq<char>) -> ProjectView {
        ProjectView { name, workbenches: Seq::empty() }
    }

    /// The project with `bench` in the place of its workbench `w`.
    pub open spec fn with_workbench(self, w: int, bench: WorkbenchView) -> ProjectView {
        ProjectView { workbenches: self.workbenches.update(w, bench), ..self }
    }

    /// The step at place `s` of workbench `w`.
    pub open spec fn step(self, w: int, s: int) -> StepView {
        self.workbenches[w].history[s]
    }

    /// The project with `step` in the place `s` of the history of its workbench `w`.
    pub open spec fn with_step(self, w: int, s: int, step: StepView) -> ProjectView {
        self.with_workbench(
            w,
            WorkbenchView {
                history: self.workbenches[w].history.update(s, step),
                ..self.workbenches[w]
            },
        )
    }
}

impl Step {
    /// Whether the sketch of the step, if it holds one, is well-formed.
    pub open spec fn sketch_wf(&self) -> bool {
        match self.data {
            StepData::Sketch { sketch, .. } => sketch.wf(),
            StepData::Plane { .. } => true,
        }
    }
}

impl Workbench {
    /// Whether every sketch of the history is well-formed.
    pub open spec fn sketches_wf(&self) -> bool {
        forall|i: int| 0 <= i < self.history@.len() ==> (#[trigger] self.history@[i]).sketch_wf()
    }

    /// The workbench `name` without steps.
    pub fn new(name: &str) -> (r: Workbench)
        ensures
            r@ == WorkbenchView::blank(name@),
            r.sketches_wf(),
    {
        let r = Workbench { name: String::from_str(name), history: Vec::new(), highest_step_id: 0 };
        proof {
            assert(r@.history =~= Seq::<StepView>::empty());
        }
        r
    }

    /// Adds the step `name` with `data` under a fresh id and returns the id.
    fn add_step(&mut self, name: &str, data: StepData) -> (id: u64)
        requires
            old(self).highest_step_id < u64::MAX,
            old(self).sketches_wf(),
            data matches StepData::Sketch { sketch, .. } ==> sketch.wf(),
        ensures
            final(self)@ == old(self)@.with_step(name@, data@),
            id == old(self).highest_step_id + 1,
            final(self).sketches_wf(),
    {
        let id: u64 = self.highest_step_id + 1;
        let step = Step { name: String::from_str(name), unique_id: id, data };
        self.history.push(step);
        self.highest_step_id = id;
        proof {
            assert(self@.history =~= old(self)@.history.push(
                StepView { name: name@, unique_id: id, data: data@ },
            ));
            assert forall|i: int| 0 <= i < self.history@.len() implies (
            #[trigger] self.history@[i]).sketch_wf() by {
                if i < old(self).history@.len() {
                    assert(self.history@[i] == old(self).history@[i]);
                }
            }
        }
        id
    }

    /// Adds a plane step `name` that lies on `plane`, or has no placement yet, and returns
    /// its id.
    pub fn add_plane(&mut self, name: &str, plane: Option<Plane>) -> (id: u64)
        requires
            old(self).highest_step_id < u64::MAX,
            old(self).sketches_wf(),
        ensures
            final(self)@ == old(self)@.with_step(
                name@,
                StepDataView::Plane {
                    plane: match plane {
                        Some(p) => Some(p@),
                        None => None,
                    },
                },
            ),
            id == old(self).highest_step_id + 1,
            final(self).sketches_wf(),
    {
        self.add_step(name, StepData::Plane { plane })
    }

    /// Adds a sketch step `name` with an empty sketch on no plane and returns its id.
    pub fn add_blank_sketch(&mut self, name: &str) -> (id: u64)
        requires
            old(self).highest_step_id < u64::MAX,
            old(self).sketches_wf(),
        ensures
            final(self)@ == old(self)@.with_step(
                name@,
                StepDataView::Sketch {
                    plane_description: PlaneDescription::Unset,
                    sketch: SketchView::empty(),
                },
            ),
            id == old(self).highest_step_id + 1,
            final(self).sketches_wf(),
    {
        let sketch = Sketch::new();
        proof {
            assert(sketch@.points =~= Seq::<(u64, Point2)>::empty());
            assert(sketch@.line_segments =~= Seq::<(u64, Line2)>::empty());
            assert(sketch@.circles =~= Seq::<(u64, Circle2)>::empty());
            assert(sketch@.arcs =~= Seq::<(u64, Arc2)>::empty());
        }
        self.add_step(name, StepData::Sketch { plane_description: PlaneDescription::Unset, sketch })
    }

    /// The place in the history of the first step with the id `unique_id`.
    pub fn step_id_from_unique_id(&self, unique_id: u64) -> (r: Option<usize>)
        ensures
            match r {
                Some(i) => self@.step_index(unique_id) == Some(i as int) && i
                    < self.history@.len() && self.history@[i as int].unique_id == unique_id,
                None => self@.step_index(unique_id) is None,
            },
    {
        let mut i: usize = 0;
        while i < self.history.len()
            invariant
                i <= self.history@.len(),
                self@.step_index_upto(unique_id, i as int) is None,
            decreases self.history@.len() - i,
        {
            if self.history[i].unique_id == unique_id {
                proof {
                    lemma_step_index_found(self@, unique_id, i as int, self.history@.len() as int);
                }
                return Some(i);
            }
            i = i + 1;
        }
        None
    }
}

/// Once a step with the id is found at place `i`, looking further finds the same place.
pub proof fn lemma_step_index_found(bench: WorkbenchView, unique_id: u64, i: int, n: int)
    requires
        0 <= i < n <= bench.history.len(),
        bench.step_index_upto(unique_id, i) is None,
        bench.history[i].unique_id == unique_id,
    ensures
        bench.step_index_upto(unique_id, n) == Some(i),
    decreases n,
{
    if n > i + 1 {
        lemma_step_index_found(bench, unique_id, i, n - 1);
    }
}

impl Project {
    /// Whether every sketch of every workbench is well-formed: each point id that a line,
    /// a circle or an arc names resolves in the point map of its sketch.
    pub open spec fn sketches_wf(&self) -> bool {
        forall|i: int|
            0 <= i < self.workbenches@.len() ==> (#[trigger] self.workbenches@[i]).sketches_wf()
    }

    /// The project `name` without workbenches.
    pub fn new(name: &str) -> (r: Project)
        ensures
            r@ == ProjectView::blank(name@),
            r.sketches_wf(),
    {
        let r = Project { name: String::from_str(name), workbenches: Vec::new() };
        proof {
            assert(r@.workbenches =~= Seq::<WorkbenchView>::empty());
        }
        r
    }

    /// The name of the project.
    pub fn name(&self) -> (r: String)
        ensures
            r@ == self@.name,
    {
        self.name.clone()
    }

    /// Gives the project another name.
    pub fn set_name(&mut self, name: String)
        ensures
            final(self)@ == (ProjectView { name: name@, ..old(self)@ }),
            final(self).workbenches == old(self).workbenches,
    {
        self.name = name;
    }
}

impl StepDataView {
    /// Whether the data is that of a plane step.
    pub open spec fn is_plane(self) -> bool {
        self is Plane
    }

    /// Whether the data is that of a sketch step.
    pub open spec fn is_sketch(self) -> bool {
        self is Sketch
    }
}

impl Project {
    /// Whether the project has a workbench `w` with a step at place `s`.
    pub open spec fn has_step(&self, w: int, s: int) -> bool {
        0 <= w < self.workbenches@.len() && 0 <= s < self.workbenches@[w].history@.len()
    }

    /// What changing the step at place `s` of workbench `w` to `step` makes of the views.
    proof fn lemma_step_changed(before: Project, after: Project, w: int, s: int)
        requires
            before.has_step(w, s),
            after.name == before.name,
            after.workbenches@.len() == before.workbenches@.len(),
            forall|i: int|
                0 <= i < before.workbenches@.len() && i != w ==> after.workbenches@[i]
                    == before.workbenches@[i],
            after.workbenches@[w].name == before.workbenches@[w].name,
            after.workbenches@[w].highest_step_id == before.workbenches@[w].highest_step_id,
            after.workbenches@[w].history@.len() == before.workbenches@[w].history@.len(),
            forall|j: int|
                0 <= j < before.workbenches@[w].history@.len() && j != s
                    ==> after.workbenches@[w].history@[j] == before.workbenches@[w].history@[j],
            before.sketches_wf(),
            after.workbenches@[w].history@[s].sketch_wf(),
        ensures
            after@ == before@.with_step(w, s, after.workbenches@[w].history@[s]@),
            after.sketches_wf(),
    {
        let goal = before@.with_step(w, s, after.workbenches@[w].history@[s]@);
        assert(after@.workbenches[w].history =~= goal.workbenches[w].history);
        assert(after@.workbenches =~= goal.workbenches);
        assert forall|i: int| 0 <= i < after.workbenches@.len() implies (
        #[trigger] after.workbenches@[i]).sketches_wf() by {
            if i == w {
                assert forall|j: int| 0 <= j < after.workbenches@[w].history@.len() implies (
                #[trigger] after.workbenches@[w].history@[j]).sketch_wf() by {
                    if j != s {
                        assert(before.workbenches@[w].sketches_wf());
                        assert(before.workbenches@[w].history@[j].sketch_wf());
                    }
                }
            } else {
                assert(before.workbenches@[i].sketches_wf());
            }
        }
    }

    /// Adds the workbench `name` and returns its place.
    pub fn add_workbench(&mut self, name: &str) -> (w: usize)
        requires
            old(self).sketches_wf(),
        ensures
            final(self)@ == (ProjectView {
                workbenches: old(self)@.workbenches.push(WorkbenchView::blank(name@)),
                ..old(self)@
            }),
            w == old(self)@.workbenches.len(),
            final(self).sketches_wf(),
    {
        let bench = Workbench::new(name);
        self.workbenches.push(bench);
        proof {
            assert(self@.workbenches =~= old(self)@.workbenches.push(WorkbenchView::blank(name@)));
            assert forall|i: int| 0 <= i < self.workbenches@.len() implies (
            #[trigger] self.workbenches@[i]).sketches_wf() by {
                if i < old(self).workbenches@.len() {
                    assert(self.workbenches@[i] == old(self).workbenches@[i]);
                }
            }
        }
        self.workbenches.len() - 1
    }

    /// Gives workbench `w` the name `name`.
    pub fn rename_workbench(&mut self, w: usize, name: String)
        requires
            w < old(self)@.workbenches.len(),
            old(self).sketches_wf(),
        ensures
            final(self)@ == old(self)@.with_workbench(
                w as int,
                WorkbenchView { name: name@, ..old(self)@.workbenches[w as int] },
            ),
            final(self).sketches_wf(),
    {
        let bench = &mut self.workbenches[w];
        bench.name = name;
        proof {
            let goal = old(self)@.with_workbench(
                w as int,
                WorkbenchView { name: name@, ..old(self)@.workbenches[w as int] },
            );
            assert(self@.workbenches =~= goal.workbenches);
            assert forall|i: int| 0 <= i < self.workbenches@.len() implies (
            #[trigger] self.workbenches@[i]).sketches_wf() by {
                assert(old(self).workbenches@[i].sketches_wf());
            }
        }
    }

    /// Adds to workbench `w` a plane step without placement, or a blank sketch step, under
    /// the name `name`, and returns the id of the step.
    pub fn add_step(&mut self, w: usize, name: &str, sketch: bool) -> (id: u64)
        requires
            w < old(self)@.workbenches.len(),
            old(self)@.workbenches[w as int].highest_step_id < u64::MAX,
            old(self).sketches_wf(),
        ensures
            final(self)@ == old(self)@.with_workbench(
                w as int,
                old(self)@.workbenches[w as int].with_step(
                    name@,
                    if sketch {
                        StepDataView::Sketch {
                            plane_description: PlaneDescription::Unset,
                            sketch: SketchView::empty(),
                        }
                    } else {
                        StepDataView::Plane { plane: None }
                    },
                ),
            ),
            id == old(self)@.workbenches[w as int].highest_step_id + 1,
            final(self).sketches_wf(),
    {
        proof {
            assert(old(self).workbenches@[w as int].sketches_wf());
        }
        let bench = &mut self.workbenches[w];
        let id = if sketch {
            bench.add_blank_sketch(name)
        } else {
            bench.add_plane(name, None)
        };
        proof {
            assert(self@.workbenches =~= old(self)@.workbenches.update(
                w as int,
                self.workbenches@[w as int]@,
            ));
            assert forall|i: int| 0 <= i < self.workbenches@.len() implies (
            #[trigger] self.workbenches@[i]).sketches_wf() by {
                if i != w {
                    assert(old(self).workbenches@[i].sketches_wf());
                }
            }
        }
        id
    }

    /// Gives the step at place `s` of workbench `w` the name `name`.
    pub fn rename_step(&mut self, w: usize, s: usize, name: String)
        requires
            old(self).has_step(w as int, s as int),
            old(self).sketches_wf(),
        ensures
            final(self)@ == old(self)@.with_step(
                w as int,
                s as int,
                StepView { name: name@, ..old(self)@.workbenches[w as int].history[s as int] },
            ),
            final(self).sketches_wf(),
    {
        proof {
            assert(old(self).workbenches@[w as int].sketches_wf());
            assert(old(self).workbenches@[w as int].history@[s as int].sketch_wf());
        }
        let step = &mut self.workbenches[w].history[s];
        step.name = name;
        proof {
            Project::lemma_step_changed(*old(self), *self, w as int, s as int);
        }
    }

    /// Lays the plane step at place `s` of workbench `w` on `plane`.
    pub fn place_plane(&mut self, w: usize, s: usize, plane: Plane)
        requires
            old(self).has_step(w as int, s as int),
            old(self)@.workbenches[w as int].history[s as int].data.is_plane(),
            old(self).sketches_wf(),
        ensures
            final(self)@ == old(self)@.with_step(
                w as int,
                s as int,
                StepView {
                    data: StepDataView::Plane { plane: Some(plane@) },
                    ..old(self)@.workbenches[w as int].history[s as int]
                },
            ),
            final(self).sketches_wf(),
    {
        let step = &mut self.workbenches[w].history[s];
        step.data = StepData::Plane { plane: Some(plane) };
        proof {
            Project::lemma_step_changed(*old(self), *self, w as int, s as int);
        }
    }

    /// Lays the sketch of the step at place `s` of workbench `w` on the plane step with
    /// the id `plane_id`.
    pub fn lay_sketch(&mut self, w: usize, s: usize, plane_id: u64)
        requires
            old(self).has_step(w as int, s as int),
            old(self)@.workbenches[w as int].history[s as int].data.is_sketch(),
            old(self).sketches_wf(),
        ensures
            final(self)@ == old(self)@.with_step(
                w as int,
                s as int,
                StepView {
                    data: StepDataView::Sketch {
                        plane_description: PlaneDescription::PlaneId(plane_id),
                        sketch: old(self)@.workbenches[w as int].history[s as int].data->sketch,
                    },
                    ..old(self)@.workbenches[w as int].history[s as int]
                },
            ),
            final(self).sketches_wf(),
    {
        proof {
            assert(old(self).workbenches@[w as int].sketches_wf());
            assert(old(self).workbenches@[w as int].history@[s as int].sketch_wf());
        }
        let step = &mut self.workbenches[w].history[s];
        match &mut step.data {
            StepData::Sketch { plane_description, .. } => {
                *plane_description = PlaneDescription::PlaneId(plane_id);
            },
            StepData::Plane { .. } => {},
        }
        proof {
            Project::lemma_step_changed(*old(self), *self, w as int, s as int);
        }
    }

    /// Whether the sketch of the step at place `s` of workbench `w` has ids left for two
    /// points and a segment.
    pub fn has_room_for_line(&self, w: usize, s: usize) -> (r: bool)
        requires
            self.has_step(w as int, s as int),
            self@.workbenches[w as int].history[s as int].data.is_sketch(),
        ensures
            r == self@.workbenches[w as int].history[s as int].data->sketch.room_for_line(),
    {
        match &self.workbenches[w].history[s].data {
            StepData::Sketch { sketch, .. } => sketch.points.highest_id() < u64::MAX - 1
                && sketch.line_segments.highest_id() < u64::MAX,
            StepData::Plane { .. } => false,
        }
    }

    /// Draws the segment from `(x0, y0)` to `(x1, y1)` in the sketch of the step at place
    /// `s` of workbench `w`.
    pub fn draw_line(&mut self, w: usize, s: usize, x0: Scalar, y0: Scalar, x1: Scalar, y1: Scalar)
        requires
            old(self).has_step(w as int, s as int),
            old(self)@.workbenches[w as int].history[s as int].data.is_sketch(),
            old(self)@.workbenches[w as int].history[s as int].data->sketch.room_for_line(),
            old(self).sketches_wf(),
        ensures
            final(self)@ == old(self)@.with_step(
                w as int,
                s as int,
                StepView {
                    data: StepDataView::Sketch {
                        plane_description: old(self)@.step(
                            w as int,
                            s as int,
                        ).data->plane_description,
                        sketch: old(self)@.step(w as int, s as int).data->sketch.with_line_segment(
                            x0,
                            y0,
                            x1,
                            y1,
                        ),
                    },
                    ..old(self)@.step(w as int, s as int)
                },
            ),
            final(self).sketches_wf(),
    {
        proof {
            assert(old(self).workbenches@[w as int].sketches_wf());
            assert(old(self).workbenches@[w as int].history@[s as int].sketch_wf());
        }
        let step = &mut self.workbenches[w].history[s];
        match &mut step.data {
            StepData::Sketch { sketch, .. } => {
                sketch.add_line_segment(x0, y0, x1, y1);
            },
            StepData::Plane { .. } => {},
        }
        proof {
            Project::lemma_step_changed(*old(self), *self, w as int, s as int);
        }
    }
}

impl WorkbenchView {
    /// Whether no step has an id above the highest that the workbench has given out.
    pub open spec fn ids_bounded(self) -> bool {
        forall|s: int|
            0 <= s < self.history.len() ==> (#[trigger] self.history[s]).unique_id
                <= self.highest_step_id
    }

    /// Whether `later` has the steps of this workbench at their places, each under its id
    /// and of its kind, and maybe more behind them.
    pub open spec fn continued_by(self, later: WorkbenchView) -> bool {
        &&& self.history.len() <= later.history.len()
        &&& forall|s: int|
            0 <= s < self.history.len() ==> (#[trigger] later.history[s]).unique_id
                == self.history[s].unique_id && later.history[s].data.is_sketch()
                == self.history[s].data.is_sketch()
    }
}

impl ProjectView {
    /// Whether workbench `w` has a step with the id `unique_id`, and the first such step
    /// is a sketch step, if `sketch` holds, or else a plane step.
    pub open spec fn has_kind(self, w: int, unique_id: u64, sketch: bool) -> bool {
        &&& 0 <= w < self.workbenches.len()
        &&& self.workbenches[w].step_index(unique_id) is Some
        &&& 0 <= self.workbenches[w].step_index(unique_id).unwrap()
            < self.workbenches[w].history.len()
        &&& self.workbenches[w].history[self.workbenches[w].step_index(
            unique_id,
        ).unwrap()].data.is_sketch() == sketch
    }
}

/// A step that is found stands among the steps looked at and has the id looked for.
pub proof fn lemma_step_index_range(bench: WorkbenchView, unique_id: u64, n: int)
    requires
        n <= bench.history.len(),
    ensures
        bench.step_index_upto(unique_id, n) matches Some(s) ==> 0 <= s < n
            && bench.history[s].unique_id == unique_id,
    decreases n,
{
    if n > 0 {
        lemma_step_index_range(bench, unique_id, n - 1);
    }
}

/// A step that is found among the first `n` is the one found among the first `m`.
pub proof fn lemma_step_index_stays(bench: WorkbenchView, unique_id: u64, n: int, m: int)
    requires
        n <= m,
        bench.step_index_upto(unique_id, n) is Some,
    ensures
        bench.step_index_upto(unique_id, m) == bench.step_index_upto(unique_id, n),
    decreases m,
{
    if m > n {
        lemma_step_index_stays(bench, unique_id, n, m - 1);
    }
}

/// Among the steps that a workbench has in common with a later one, both find the same.
pub proof fn lemma_step_index_prefix(
    bench: WorkbenchView,
    later: WorkbenchView,
    unique_id: u64,
    n: int,
)
    requires
        bench.continued_by(later),
        n <= bench.history.len(),
    ensures
        bench.step_index_upto(unique_id, n) == later.step_index_upto(unique_id, n),
    decreases n,
{
    if n > 0 {
        lemma_step_index_prefix(bench, later, unique_id, n - 1);
        assert(later.history[n - 1].unique_id == bench.history[n - 1].unique_id);
    }
}

/// A step of a workbench is found at its place, and is of its kind, in a later one.
pub proof fn lemma_kind_continues(
    before: ProjectView,
    after: ProjectView,
    w: int,
    unique_id: u64,
    sketch: bool,
)
    requires
        before.has_kind(w, unique_id, sketch),
        w < after.workbenches.len(),
        before.workbenches[w].continued_by(after.workbenches[w]),
    ensures
        after.has_kind(w, unique_id, sketch),
        after.workbenches[w].step_index(unique_id) == before.workbenches[w].step_index(unique_id),
{
    let bench = before.workbenches[w];
    let later = after.workbenches[w];
    let n = bench.history.len() as int;
    lemma_step_index_prefix(bench, later, unique_id, n);
    lemma_step_index_stays(later, unique_id, n, later.history.len() as int);
    let s = bench.step_index(unique_id).unwrap();
    assert(later.history[s].data.is_sketch() == bench.history[s].data.is_sketch());
}

/// No step of a workbench has the id that it gives out next.
pub proof fn lemma_next_id_fresh(bench: WorkbenchView, n: int)
    requires
        bench.ids_bounded(),
        bench.highest_step_id < u64::MAX,
        n <= bench.history.len(),
    ensures
        bench.step_index_upto((bench.highest_step_id + 1) as u64, n) is None,
    decreases n,
{
    if n > 0 {
        lemma_next_id_fresh(bench, n - 1);
        assert(bench.history[n - 1].unique_id <= bench.highest_step_id);
    }
}

/// What a new step makes of a workbench: the step is found under its id, the steps
/// before it stay, and the ids stay bounded.
pub proof fn lemma_with_step(bench: WorkbenchView, name: Seq<char>, data: StepDataView)
    requires
        bench.ids_bounded(),
        bench.highest_step_id < u64::MAX,
    ensures
        bench.continued_by(bench.with_step(name, data)),
        bench.with_step(name, data).ids_bounded(),
        bench.with_step(name, data).step_index((bench.highest_step_id + 1) as u64) == Some(
            bench.history.len() as int,
        ),
{
    let next = bench.with_step(name, data);
    let id = (bench.highest_step_id + 1) as u64;
    let n = bench.history.len() as int;
    assert forall|s: int| 0 <= s < n implies (#[trigger] next.history[s]).unique_id
        == bench.history[s].unique_id && next.history[s].data.is_sketch()
        == bench.history[s].data.is_sketch() by {
        assert(next.history[s] == bench.history[s]);
    }
    assert forall|s: int| 0 <= s < next.history.len() implies (
    #[trigger] next.history[s]).unique_id <= next.highest_step_id by {
        if s < n {
            assert(next.history[s] == bench.history[s]);
            assert(bench.history[s].unique_id <= bench.highest_step_id);
        }
    }
    lemma_next_id_fresh(bench, n);
    lemma_step_index_prefix(bench, next, id, n);
    assert(next.history[n].unique_id == id);
}

} // verus!
