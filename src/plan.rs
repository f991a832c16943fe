use vstd::prelude::*;

use crate::world::{World, WorldView};

verus! {

/// The stages of one fixed step, in the order they run. Gravity and springs
/// only append forces to their own body and may run side by side; every other
/// stage reads what the one before it wrote.
#[derive(Clone, Copy, Debug, PartialEq, Eq, Structural)]
pub enum Stage {
    /// Empty the force list of every Dynamic body.
    ClearForces,
    /// Queue a downward force of 9.8 times the mass on every Dynamic body.
    Gravity,
    /// Queue the force of every spring on its owner.
    Springs,
    /// Resolve every contact of a Dynamic body, in pair order.
    Collisions,
    /// Turn each Dynamic body's queued forces into a change of velocity.
    IntegrateForces,
    /// Move each Dynamic body by its velocity.
    IntegratePositions,
}

/// The place of a stage in the step.
pub open spec fn stage_rank(s: Stage) -> nat {
    match s {
        Stage::ClearForces => 0,
        Stage::Gravity => 1,
        Stage::Springs => 2,
        Stage::Collisions => 3,
        Stage::IntegrateForces => 4,
        Stage::IntegratePositions => 5,
    }
}

impl Stage {
    pub fn first() -> (r: Stage)
        ensures
            stage_rank(r) == 0,
    {
        Stage::ClearForces
    }

    /// The stage that runs after this one, or `None` after the last.
    pub fn next(self) -> (r: Option<Stage>)
        ensures
            r is Some <==> stage_rank(self) < 5,
            r is Some ==> stage_rank(r->Some_0) == stage_rank(self) + 1,
    {
        match self {
            Stage::ClearForces => Some(Stage::Gravity),
            Stage::Gravity => Some(Stage::Springs),
            Stage::Springs => Some(Stage::Collisions),
            Stage::Collisions => Some(Stage::IntegrateForces),
            Stage::IntegrateForces => Some(Stage::IntegratePositions),
            Stage::IntegratePositions => None,
        }
    }
}

/// The work one spring does in a step: `spring` is its place in the spring
/// list, `owner` the slot of the body that receives the force, `other` the
/// slot of the body it measures from.
#[derive(Clone, Copy, Debug, PartialEq, Eq, Structural)]
pub struct SpringTask {
    pub spring: usize,
    pub owner: usize,
    pub other: usize,
}

impl<B, S> WorldView<B, S> {
    /// The slots below `n` that hold a Dynamic body, in increasing order.
    pub open spec fn dynamic_upto(self, n: int) -> Seq<usize>
        decreases n,
    {
        if n <= 0 {
            seq![]
        } else if self.dynamic_at(n - 1) {
            self.dynamic_upto(n - 1).push((n - 1) as usize)
        } else {
            self.dynamic_upto(n - 1)
        }
    }

    /// Every Dynamic body, by slot: the bodies that are cleared, receive
    /// gravity, integrate forces and move.
    pub open spec fn dynamic_slots(self) -> Seq<usize> {
        self.dynamic_upto(self.slots.len() as int)
    }

    /// The pairs `(i, j)` for the occupied slots `j < m` other than `i`.
    pub open spec fn contacts_upto(self, i: int, m: int) -> Seq<(usize, usize)>
        decreases m,
    {
        if m <= 0 {
            seq![]
        } else if m - 1 != i && self.occupied(m - 1) {
            self.contacts_upto(i, m - 1).push((i as usize, (m - 1) as usize))
        } else {
            self.contacts_upto(i, m - 1)
        }
    }

    /// The collision pairs whose first body sits in a slot below `n`.
    pub open spec fn pairs_upto(self, n: int) -> Seq<(usize, usize)>
        decreases n,
    {
        if n <= 0 {
            seq![]
        } else if self.dynamic_at(n - 1) {
            self.pairs_upto(n - 1) + self.contacts_upto(n - 1, self.slots.len() as int)
        } else {
            self.pairs_upto(n - 1)
        }
    }

    /// Every ordered pair of distinct bodies whose first body is Dynamic, in
    /// increasing order of the first slot and then of the second. The first
    /// body of a pair is the one that collision response moves.
    pub open spec fn collision_pairs(self) -> Seq<(usize, usize)> {
        self.pairs_upto(self.slots.len() as int)
    }

    /// A spring acts in a step when both ends are alive and its owner is
    /// Dynamic.
    pub open spec fn spring_acts(self, k: int) -> bool {
        &&& self.live(self.springs[k].owner)
        &&& self.live(self.springs[k].other)
        &&& self.dynamic_at(self.springs[k].owner.index as int)
    }

    /// The tasks of the springs below `n` that act, in spring order.
    pub open spec fn spring_tasks_upto(self, n: int) -> Seq<SpringTask>
        decreases n,
    {
        if n <= 0 {
            seq![]
        } else if self.spring_acts(n - 1) {
            self.spring_tasks_upto(n - 1).push(
                SpringTask {
                    spring: (n - 1) as usize,
                    owner: self.springs[n - 1].owner.index,
                    other: self.springs[n - 1].other.index,
                },
            )
        } else {
            self.spring_tasks_upto(n - 1)
        }
    }

    pub open spec fn spring_tasks(self) -> Seq<SpringTask> {
        self.spring_tasks_upto(self.springs.len() as int)
    }
}

impl<B, S> World<B, S> {
    /// The slots of all Dynamic bodies, in increasing order.
    pub fn dynamic_bodies(&self) -> (r: Vec<usize>)
        ensures
            r@ == self@.dynamic_slots(),
    {
        let n = self.slot_count();
        let mut r: Vec<usize> = Vec::new();
        let mut i: usize = 0;
        while i < n
            invariant
                n == self@.slots.len(),
                i <= n,
                r@ == self@.dynamic_upto(i as int),
            decreases n - i,
        {
            match self.kind_at(i) {
                Some(k) => {
                    if k.is_dynamic() {
                        r.push(i);
                    }
                },
                None => {},
            }
            i += 1;
        }
        r
    }

    /// The collision pairs of this world: see `WorldView::collision_pairs`.
    pub fn collision_pairs(&self) -> (r: Vec<(usize, usize)>)
        ensures
            r@ == self@.collision_pairs(),
    {
        let n = self.slot_count();
        let mut r: Vec<(usize, usize)> = Vec::new();
        let mut i: usize = 0;
        while i < n
            invariant
                n == self@.slots.len(),
                i <= n,
                r@ == self@.pairs_upto(i as int),
            decreases n - i,
        {
            let dynamic = match self.kind_at(i) {
                Some(k) => k.is_dynamic(),
                None => false,
            };
            if dynamic {
                let ghost before = r@;
                let mut j: usize = 0;
                while j < n
                    invariant
                        n == self@.slots.len(),
                        i < n,
                        j <= n,
                        r@ == before + self@.contacts_upto(i as int, j as int),
                    decreases n - j,
                {
                    if j != i && self.kind_at(j).is_some() {
                        r.push((i, j));
                        proof {
                            assert(r@ =~= before + self@.contacts_upto(i as int, j + 1));
                        }
                    }
                    j += 1;
                }
            }
            i += 1;
        }
        r
    }

    /// The springs that act in a step, in spring order.
    pub fn spring_tasks(&self) -> (r: Vec<SpringTask>)
        ensures
            r@ == self@.spring_tasks(),
    {
        let n = self.spring_count();
        let mut r: Vec<SpringTask> = Vec::new();
        let mut k: usize = 0;
        while k < n
            invariant
                n == self@.springs.len(),
                k <= n,
                r@ == self@.spring_tasks_upto(k as int),
            decreases n - k,
        {
            let spring = self.spring_at(k);
            match (self.resolve(spring.owner), self.resolve(spring.other)) {
                (Some(owner), Some(other)) => {
                    let dynamic = match self.kind_at(owner) {
                        Some(kind) => kind.is_dynamic(),
                        None => false,
                    };
                    if dynamic {
                        r.push(SpringTask { spring: k, owner, other });
                    }
                },
                _ => {},
            }
            k += 1;
        }
        r
    }
}

proof fn lemma_dynamic_upto<B, S>(w: WorldView<B, S>, n: int)
    requires
        n <= usize::MAX + 1,
    ensures
        forall|k: int|
            0 <= k < w.dynamic_upto(n).len() ==> w.dynamic_at(#[trigger] w.dynamic_upto(n)[k] as int),
    decreases n,
{
    if n > 0 {
        lemma_dynamic_upto(w, n - 1);
        let prev = w.dynamic_upto(n - 1);
        assert forall|k: int| 0 <= k < w.dynamic_upto(n).len() implies w.dynamic_at(
            #[trigger] w.dynamic_upto(n)[k] as int,
        ) by {
            if k < prev.len() {
                assert(w.dynamic_upto(n)[k] == prev[k]);
            }
        }
    }
}

proof fn lemma_contacts_upto<B, S>(w: WorldView<B, S>, i: int, m: int)
    requires
        0 <= i <= usize::MAX,
    ensures
        forall|k: int|
            0 <= k < w.contacts_upto(i, m).len() ==> (#[trigger] w.contacts_upto(i, m)[k]).0
                == i as usize,
    decreases m,
{
    if m > 0 {
        lemma_contacts_upto(w, i, m - 1);
        let prev = w.contacts_upto(i, m - 1);
        assert forall|k: int| 0 <= k < w.contacts_upto(i, m).len() implies (
        #[trigger] w.contacts_upto(i, m)[k]).0 == i as usize by {
            if k < prev.len() {
                assert(w.contacts_upto(i, m)[k] == prev[k]);
            }
        }
    }
}

proof fn lemma_pairs_upto<B, S>(w: WorldView<B, S>, n: int)
    requires
        n <= usize::MAX + 1,
    ensures
        forall|k: int|
            0 <= k < w.pairs_upto(n).len() ==> w.dynamic_at(
                (#[trigger] w.pairs_upto(n)[k]).0 as int,
            ),
    decreases n,
{
    if n > 0 {
        lemma_pairs_upto(w, n - 1);
        if w.dynamic_at(n - 1) {
            let prev = w.pairs_upto(n - 1);
            let row = w.contacts_upto(n - 1, w.slots.len() as int);
            lemma_contacts_upto(w, n - 1, w.slots.len() as int);
            assert forall|k: int| 0 <= k < w.pairs_upto(n).len() implies w.dynamic_at(
                (#[trigger] w.pairs_upto(n)[k]).0 as int,
            ) by {
                if k >= prev.len() {
                    assert(w.pairs_upto(n)[k] == row[k - prev.len()]);
                } else {
                    assert(w.pairs_upto(n)[k] == prev[k]);
                }
            }
        } else {
            assert(w.pairs_upto(n) == w.pairs_upto(n - 1));
        }
    }
}

proof fn lemma_spring_tasks_upto<B, S>(w: WorldView<B, S>, n: int)
    ensures
        forall|k: int|
            0 <= k < w.spring_tasks_upto(n).len() ==> w.dynamic_at(
                (#[trigger] w.spring_tasks_upto(n)[k]).owner as int,
            ),
    decreases n,
{
    if n > 0 {
        lemma_spring_tasks_upto(w, n - 1);
        let prev = w.spring_tasks_upto(n - 1);
        assert forall|k: int| 0 <= k < w.spring_tasks_upto(n).len() implies w.dynamic_at(
            (#[trigger] w.spring_tasks_upto(n)[k]).owner as int,
        ) by {
            if k < prev.len() {
                assert(w.spring_tasks_upto(n)[k] == prev[k]);
            }
        }
    }
}

/// A body that is not Dynamic receives no work in a step: it is not among the
/// bodies whose forces are cleared, that receive gravity, integrate forces or
/// move; it is never the first body of a collision pair, the one whose
/// velocity, forces and position the response changes; and no spring pushes
/// it. With `World::set_state_at`, which refuses such a body, its velocity and
/// position stay as they were spawned, step after step.
pub proof fn static_bodies_receive_no_work<B, S>(w: WorldView<B, S>, i: usize)
    requires
        w.slots.len() <= usize::MAX,
        !w.dynamic_at(i as int),
    ensures
        !w.dynamic_slots().contains(i),
        forall|k: int|
            0 <= k < w.collision_pairs().len() ==> (#[trigger] w.collision_pairs()[k]).0 != i,
        forall|k: int|
            0 <= k < w.spring_tasks().len() ==> (#[trigger] w.spring_tasks()[k]).owner != i,
{
    lemma_dynamic_upto(w, w.slots.len() as int);
    lemma_pairs_upto(w, w.slots.len() as int);
    lemma_spring_tasks_upto(w, w.springs.len() as int);
    if w.dynamic_slots().contains(i) {
        let k = choose|k: int| 0 <= k < w.dynamic_slots().len() && w.dynamic_slots()[k] == i;
        assert(w.dynamic_at(w.dynamic_slots()[k] as int));
    }
}

} // verus!
