//! Running the work from one test of a pair to the next.
//!
//! Only a step that tests a pair needs the numeric kernel. Every other step is taken
//! here, one after the other, until the work halts: for the kernel, for good, or for want
//! of ids.

use crate::incrementing_map::IncrementingMap;
use crate::intersections::{Collision, Contact, Shape};
use crate::sketch::Sketch;
use crate::soundness::{
    law_sound_is_ready, law_start_is_sound, law_step_keeps_sound, lemma_live_collisions_len,
};
use crate::splitter::{split_view, Phase, SplitView};
use std::collections::VecDeque;
use vstd::prelude::*;

verus! {

/// Why the work halts.
#[derive(Clone, Copy, Debug, PartialEq, Eq, Structural)]
pub enum Halt {
    /// The pair of these two keys is to be tested next: the kernel has to look at it.
    Test(u64, u64),
    /// Nothing is left to do.
    Done,
    /// A collision waits, and the ids for a point and four shapes are not left.
    Exhausted,
}

impl SplitView {
    /// Whether the work halts in this state: a pair is to be tested, nothing is left to do,
    /// or a collision waits and ids are not left.
    pub open spec fn halted(self) -> bool {
        match self.phase() {
            Phase::Detect | Phase::Idle => true,
            Phase::Materialize => !self.roomy(),
            _ => false,
        }
    }

    /// The state after `n` steps that test no pair.
    pub open spec fn stepped(self, n: nat) -> SplitView
        decreases n,
    {
        if n == 0 {
            self
        } else {
            self.stepped((n - 1) as nat).step(Contact::Apart)
        }
    }

    /// Whether `later` is the first state after this one in which the work halts.
    pub open spec fn halts_in(self, later: SplitView) -> bool {
        exists|n: nat|
            {
                &&& later == #[trigger] self.stepped(n)
                &&& later.halted()
                &&& forall|m: nat| m < n ==> !(#[trigger] self.stepped(m)).halted()
            }
    }
}

impl Sketch {
    /// Whether the sketch can be split: it is well-formed, its shapes can be numbered, and
    /// it has lines only, or circles and arcs only.
    pub open spec fn splittable(&self) -> bool {
        &&& self.wf()
        &&& self@.line_segments.len() + self@.circles.len() + self@.arcs.len() < u64::MAX
        &&& (self@.line_segments.len() == 0 || (self@.circles.len() == 0 && self@.arcs.len()
            == 0))
    }

    /// Whether the sketch can be split.
    pub fn is_splittable(&self) -> (r: bool)
        ensures
            r == self.splittable(),
    {
        let lines = self.line_segments.len();
        let circles = self.circles.len();
        let arcs = self.arcs.len();
        let count: u128 = lines as u128 + circles as u128 + arcs as u128;
        self.is_wf() && count < u64::MAX as u128 && (lines == 0 || (circles == 0 && arcs == 0))
    }

    /// The parts that the work on this sketch starts from: the working sketch, the pool of
    /// shapes, and the queue of all pairs. The state that they make up is sound.
    pub fn begin_split(&self) -> (r: (Sketch, IncrementingMap<Shape>, VecDeque<(u64, u64)>))
        requires
            self.splittable(),
        ensures
            r.0@ == self@,
            r.0.wf(),
            r.1.wf(),
            r.0.holds_all(r.1.entries()),
            split_view(
                &r.0,
                &r.1,
                r.2@,
                Seq::empty(),
                Seq::empty(),
                Seq::empty(),
                Seq::empty(),
            ) == SplitView::start(self@),
            SplitView::start(self@).sound(),
    {
        let temp_sketch = self.duplicate();
        let all_shapes = temp_sketch.shape_pool();
        let pairs_to_check = Sketch::pairs_of(&all_shapes);
        proof {
            law_start_is_sound(self@);
        }
        (temp_sketch, all_shapes, pairs_to_check)
    }

    /// Takes every step that tests no pair, until the work halts, and says why it halts.
    ///
    /// The state has to be sound, as it is at the start of the work and after every step.
    /// It is sound afterwards, and it is the first state from the given one on in which a
    /// pair is to be tested, nothing is left to do, or ids are not left for a split.
    pub fn advance(
        &self,
        temp_sketch: &mut Sketch,
        all_shapes: &mut IncrementingMap<Shape>,
        pairs_to_check: &mut VecDeque<(u64, u64)>,
        collisions: &mut VecDeque<Collision>,
        possible_shape_collisions: &mut Vec<u64>,
        new_shapes: &mut Vec<u64>,
        recently_deleted: &mut Vec<u64>,
    ) -> (r: Halt)
        requires
            old(temp_sketch).wf(),
            old(all_shapes).wf(),
            old(temp_sketch).holds_all(old(all_shapes).entries()),
            split_view(
                old(temp_sketch),
                old(all_shapes),
                old(pairs_to_check)@,
                old(collisions)@,
                old(possible_shape_collisions)@,
                old(new_shapes)@,
                old(recently_deleted)@,
            ).sound(),
        ensures
            final(temp_sketch).wf(),
            final(all_shapes).wf(),
            final(temp_sketch).holds_all(final(all_shapes).entries()),
            split_view(
                final(temp_sketch),
                final(all_shapes),
                final(pairs_to_check)@,
                final(collisions)@,
                final(possible_shape_collisions)@,
                final(new_shapes)@,
                final(recently_deleted)@,
            ).sound(),
            split_view(
                old(temp_sketch),
                old(all_shapes),
                old(pairs_to_check)@,
                old(collisions)@,
                old(possible_shape_collisions)@,
                old(new_shapes)@,
                old(recently_deleted)@,
            ).halts_in(
                split_view(
                    final(temp_sketch),
                    final(all_shapes),
                    final(pairs_to_check)@,
                    final(collisions)@,
                    final(possible_shape_collisions)@,
                    final(new_shapes)@,
                    final(recently_deleted)@,
                ),
            ),
            match r {
                Halt::Test(a, b) => {
                    let state = split_view(
                        final(temp_sketch),
                        final(all_shapes),
                        final(pairs_to_check)@,
                        final(collisions)@,
                        final(possible_shape_collisions)@,
                        final(new_shapes)@,
                        final(recently_deleted)@,
                    );
                    state.phase() == Phase::Detect && state.pairs[0] == (a, b) && state.ready()
                },
                Halt::Done => split_view(
                    final(temp_sketch),
                    final(all_shapes),
                    final(pairs_to_check)@,
                    final(collisions)@,
                    final(possible_shape_collisions)@,
                    final(new_shapes)@,
                    final(recently_deleted)@,
                ).phase() == Phase::Idle,
                Halt::Exhausted => split_view(
                    final(temp_sketch),
                    final(all_shapes),
                    final(pairs_to_check)@,
                    final(collisions)@,
                    final(possible_shape_collisions)@,
                    final(new_shapes)@,
                    final(recently_deleted)@,
                ).phase() == Phase::Materialize,
            },
    {
        let ghost start = split_view(
            temp_sketch,
            all_shapes,
            pairs_to_check@,
            collisions@,
            possible_shape_collisions@,
            new_shapes@,
            recently_deleted@,
        );
        let ghost mut taken: nat = 0;
        loop
            invariant
                start == split_view(
                    old(temp_sketch),
                    old(all_shapes),
                    old(pairs_to_check)@,
                    old(collisions)@,
                    old(possible_shape_collisions)@,
                    old(new_shapes)@,
                    old(recently_deleted)@,
                ),
                temp_sketch.wf(),
                all_shapes.wf(),
                temp_sketch.holds_all(all_shapes.entries()),
                split_view(
                    temp_sketch,
                    all_shapes,
                    pairs_to_check@,
                    collisions@,
                    possible_shape_collisions@,
                    new_shapes@,
                    recently_deleted@,
                ) == start.stepped(taken),
                start.stepped(taken).sound(),
                forall|m: nat| m < taken ==> !(#[trigger] start.stepped(m)).halted(),
            decreases
                    collisions@.len(),
                    recently_deleted@.len(),
                    possible_shape_collisions@.len() + new_shapes@.len(),
        {
            let ghost now = start.stepped(taken);
            if recently_deleted.len() == 0 && possible_shape_collisions.len() == 0
                && new_shapes.len() == 0 {
                if collisions.len() > 0 {
                    if !(temp_sketch.points.highest_id() < u64::MAX && all_shapes.highest_id()
                        <= u64::MAX - 4) {
                        proof {
                            assert(now.halted());
                            assert(start.halts_in(now));
                        }
                        return Halt::Exhausted;
                    }
                } else if pairs_to_check.len() > 0 {
                    proof {
                        law_sound_is_ready(now);
                        assert(now.halted());
                        assert(start.halts_in(now));
                    }
                    let pair = pairs_to_check[0];
                    return Halt::Test(pair.0, pair.1);
                } else {
                    proof {
                        assert(now.halted());
                        assert(start.halts_in(now));
                    }
                    return Halt::Done;
                }
            }
            proof {
                assert(!now.halted());
                law_sound_is_ready(now);
                law_step_keeps_sound(now, Contact::Apart);
                lemma_live_collisions_len(now.collisions, now.deleted);
                if now.collisions.len() > 0 {
                    assert(now.collisions.drop_first().len() == now.collisions.len() - 1);
                }
            }
            self.step_process(
                temp_sketch,
                all_shapes,
                pairs_to_check,
                collisions,
                possible_shape_collisions,
                new_shapes,
                recently_deleted,
                &Contact::Apart,
            );
            proof {
                assert(start.stepped(taken + 1) == now.step(Contact::Apart));
                taken = taken + 1;
            }
        }
    }

    /// Tests the pair that the work halted for on `contact`, what the kernel found of its
    /// two shapes, and takes every step after that until the work halts again.
    pub fn resume(
        &self,
        temp_sketch: &mut Sketch,
        all_shapes: &mut IncrementingMap<Shape>,
        pairs_to_check: &mut VecDeque<(u64, u64)>,
        collisions: &mut VecDeque<Collision>,
        possible_shape_collisions: &mut Vec<u64>,
        new_shapes: &mut Vec<u64>,
        recently_deleted: &mut Vec<u64>,
        contact: &Contact,
    ) -> (r: Halt)
        requires
            old(temp_sketch).wf(),
            old(all_shapes).wf(),
            old(temp_sketch).holds_all(old(all_shapes).entries()),
            split_view(
                old(temp_sketch),
                old(all_shapes),
                old(pairs_to_check)@,
                old(collisions)@,
                old(possible_shape_collisions)@,
                old(new_shapes)@,
                old(recently_deleted)@,
            ).sound(),
            split_view(
                old(temp_sketch),
                old(all_shapes),
                old(pairs_to_check)@,
                old(collisions)@,
                old(possible_shape_collisions)@,
                old(new_shapes)@,
                old(recently_deleted)@,
            ).phase() == Phase::Detect,
        ensures
            final(temp_sketch).wf(),
            final(all_shapes).wf(),
            final(temp_sketch).holds_all(final(all_shapes).entries()),
            split_view(
                final(temp_sketch),
                final(all_shapes),
                final(pairs_to_check)@,
                final(collisions)@,
                final(possible_shape_collisions)@,
                final(new_shapes)@,
                final(recently_deleted)@,
            ).sound(),
            split_view(
                old(temp_sketch),
                old(all_shapes),
                old(pairs_to_check)@,
                old(collisions)@,
                old(possible_shape_collisions)@,
                old(new_shapes)@,
                old(recently_deleted)@,
            ).detected(*contact).halts_in(
                split_view(
                    final(temp_sketch),
                    final(all_shapes),
                    final(pairs_to_check)@,
                    final(collisions)@,
                    final(possible_shape_collisions)@,
                    final(new_shapes)@,
                    final(recently_deleted)@,
                ),
            ),
            match r {
                Halt::Test(a, b) => {
                    let state = split_view(
                        final(temp_sketch),
                        final(all_shapes),
                        final(pairs_to_check)@,
                        final(collisions)@,
                        final(possible_shape_collisions)@,
                        final(new_shapes)@,
                        final(recently_deleted)@,
                    );
                    state.phase() == Phase::Detect && state.pairs[0] == (a, b)
                },
                Halt::Done => split_view(
                    final(temp_sketch),
                    final(all_shapes),
                    final(pairs_to_check)@,
                    final(collisions)@,
                    final(possible_shape_collisions)@,
                    final(new_shapes)@,
                    final(recently_deleted)@,
                ).phase() == Phase::Idle,
                Halt::Exhausted => split_view(
                    final(temp_sketch),
                    final(all_shapes),
                    final(pairs_to_check)@,
                    final(collisions)@,
                    final(possible_shape_collisions)@,
                    final(new_shapes)@,
                    final(recently_deleted)@,
                ).phase() == Phase::Materialize,
            },
    {
        proof {
            let state = split_view(
                temp_sketch,
                all_shapes,
                pairs_to_check@,
                collisions@,
                possible_shape_collisions@,
                new_shapes@,
                recently_deleted@,
            );
            law_sound_is_ready(state);
            law_step_keeps_sound(state, *contact);
        }
        self.step_process(
            temp_sketch,
            all_shapes,
            pairs_to_check,
            collisions,
            possible_shape_collisions,
            new_shapes,
            recently_deleted,
            contact,
        );
        self.advance(
            temp_sketch,
            all_shapes,
            pairs_to_check,
            collisions,
            possible_shape_collisions,
            new_shapes,
            recently_deleted,
        )
    }
}

} // verus!
