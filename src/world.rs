use vstd::prelude::*;

use crate::body::{Body, BodyHandle, BodyKind, Spring};

verus! {

/// One place of the arena. `body` is `None` while the place is free; a free
/// place whose generation reached `u64::MAX` is retired and never reused.
#[derive(Debug)]
pub struct Slot<B> {
    pub generation: u64,
    pub body: Option<Body<B>>,
}

/// What a world holds, as mathematical sequences.
pub struct WorldView<B, S> {
    pub slots: Seq<Slot<B>>,
    pub springs: Seq<Spring<S>>,
}

/// Why a spring could not be attached.
#[derive(Clone, Copy, Debug, PartialEq, Eq, Structural)]
pub enum WorldError {
    /// The owner handle does not name a live body.
    DanglingOwner,
    /// The other handle does not name a live body.
    DanglingOther,
}

impl<B, S> WorldView<B, S> {
    /// Slot `i` holds a body.
    pub open spec fn occupied(self, i: int) -> bool {
        0 <= i < self.slots.len() && self.slots[i].body is Some
    }

    /// The body in slot `i`, meaningful where `occupied(i)`.
    pub open spec fn body_at(self, i: int) -> Body<B> {
        self.slots[i].body->Some_0
    }

    pub open spec fn dynamic_at(self, i: int) -> bool {
        self.occupied(i) && self.body_at(i).kind == BodyKind::Dynamic
    }

    /// `h` names the body that lives in its slot now.
    pub open spec fn live(self, h: BodyHandle) -> bool {
        self.occupied(h.index as int) && self.slots[h.index as int].generation == h.generation
    }

    /// `h` names a body that was removed: its slot has moved to a later
    /// generation, or was retired empty at the last one. No later spawn or
    /// removal makes such a handle live again.
    pub open spec fn stale(self, h: BodyHandle) -> bool {
        &&& h.index < self.slots.len()
        &&& {
            ||| h.generation < self.slots[h.index as int].generation
            ||| (self.slots[h.index as int].generation == u64::MAX
                && self.slots[h.index as int].body is None)
        }
    }

    /// Every handle that is stale in `self` is stale in `next`.
    pub open spec fn stale_kept(self, next: Self) -> bool {
        forall|h: BodyHandle| #[trigger] self.stale(h) ==> next.stale(h)
    }

    /// Slot `i` can take a new body.
    pub open spec fn reusable(self, i: int) -> bool {
        0 <= i < self.slots.len() && self.slots[i].body is None && self.slots[i].generation
            < u64::MAX
    }

    /// The handles of the bodies in the slots below `n`, in slot order.
    pub open spec fn handles_upto(self, n: int) -> Seq<BodyHandle>
        decreases n,
    {
        if n <= 0 {
            seq![]
        } else if self.occupied(n - 1) {
            self.handles_upto(n - 1).push(
                BodyHandle { index: (n - 1) as usize, generation: self.slots[n - 1].generation },
            )
        } else {
            self.handles_upto(n - 1)
        }
    }

    /// Every spring joins two live bodies.
    pub open spec fn wf(self) -> bool {
        forall|k: int|
            0 <= k < self.springs.len() ==> #[trigger] self.live(self.springs[k].owner)
                && self.live(self.springs[k].other)
    }

    /// No slot is lost and no generation goes back from `self` to `next`.
    pub open spec fn generations_kept(self, next: Self) -> bool {
        &&& self.slots.len() <= next.slots.len()
        &&& forall|i: int|
            0 <= i < self.slots.len() ==> self.slots[i].generation
                <= #[trigger] next.slots[i].generation
    }

    /// Slots other than `i` are the same in `self` and `next`.
    pub open spec fn same_slots_except(self, next: Self, i: int) -> bool {
        forall|j: int|
            0 <= j < self.slots.len() && j != i ==> #[trigger] next.slots[j] == self.slots[j]
    }
}

/// The springs of `s` that touch neither end at `h`, in their order.
pub open spec fn springs_without<S>(s: Seq<Spring<S>>, h: BodyHandle) -> Seq<Spring<S>>
    decreases s.len(),
{
    if s.len() == 0 {
        s
    } else {
        let rest = springs_without(s.subrange(1, s.len() as int), h);
        if s[0].owner == h || s[0].other == h {
            rest
        } else {
            seq![s[0]] + rest
        }
    }
}

proof fn lemma_springs_without<S>(s: Seq<Spring<S>>, h: BodyHandle)
    ensures
        forall|x: Spring<S>|
            #[trigger] springs_without(s, h).contains(x) ==> s.contains(x) && x.owner != h
                && x.other != h,
    decreases s.len(),
{
    if s.len() > 0 {
        let tail = s.subrange(1, s.len() as int);
        lemma_springs_without(tail, h);
        assert forall|x: Spring<S>| #[trigger]
            springs_without(s, h).contains(x) implies s.contains(x) && x.owner != h && x.other
            != h by {
            let r = springs_without(s, h);
            let j = choose|j: int| 0 <= j < r.len() && r[j] == x;
            if !(s[0].owner == h || s[0].other == h) && j == 0 {
                assert(s[0] == x);
            } else {
                let jt = if s[0].owner == h || s[0].other == h { j } else { j - 1 };
                assert(springs_without(tail, h)[jt] == x);
                assert(springs_without(tail, h).contains(x));
                let i = choose|i: int| 0 <= i < tail.len() && tail[i] == x;
                assert(s[i + 1] == x);
            }
        }
    }
}

/// A handle whose body was removed resolves to nothing: together with
/// `stale_kept` in the contract of every method that changes a world, a
/// reference to a removed body is detected instead of reaching whatever body
/// takes its slot later.
pub proof fn stale_handles_do_not_resolve<B, S>(w: WorldView<B, S>, h: BodyHandle)
    requires
        w.stale(h),
    ensures
        !w.live(h),
{
}

/// The generation a slot moves to when its body is removed; `u64::MAX` stays,
/// and such a slot is never reused.
pub open spec fn next_generation(g: u64) -> u64 {
    if g < u64::MAX {
        (g + 1) as u64
    } else {
        g
    }
}

/// The bodies and springs of one simulation, owned by the step driver.
pub struct World<B, S> {
    slots: Vec<Slot<B>>,
    springs: Vec<Spring<S>>,
}

impl<B, S> View for World<B, S> {
    type V = WorldView<B, S>;

    closed spec fn view(&self) -> WorldView<B, S> {
        WorldView { slots: self.slots@, springs: self.springs@ }
    }
}

impl<B, S> World<B, S> {
    pub fn new() -> (r: Self)
        ensures
            r@.slots.len() == 0,
            r@.springs.len() == 0,
    {
        World { slots: Vec::new(), springs: Vec::new() }
    }

    pub fn slot_count(&self) -> (r: usize)
        ensures
            r == self@.slots.len(),
    {
        self.slots.len()
    }

    pub fn spring_count(&self) -> (r: usize)
        ensures
            r == self@.springs.len(),
    {
        self.springs.len()
    }

    /// The kind of the body in slot `i`, if one lives there.
    pub fn kind_at(&self, i: usize) -> (r: Option<BodyKind>)
        ensures
            r == (if self@.occupied(i as int) {
                Some(self@.body_at(i as int).kind)
            } else {
                None
            }),
    {
        if i < self.slots.len() {
            match &self.slots[i].body {
                Some(b) => Some(b.kind),
                None => None,
            }
        } else {
            None
        }
    }

    /// The handle of the body in slot `i`, if one lives there.
    pub fn handle_at(&self, i: usize) -> (r: Option<BodyHandle>)
        ensures
            r == (if self@.occupied(i as int) {
                Some(BodyHandle { index: i, generation: self@.slots[i as int].generation })
            } else {
                None
            }),
    {
        if i < self.slots.len() && self.slots[i].body.is_some() {
            Some(BodyHandle { index: i, generation: self.slots[i].generation })
        } else {
            None
        }
    }

    /// The handles of all live bodies, in slot order.
    pub fn live_bodies(&self) -> (r: Vec<BodyHandle>)
        ensures
            r@ == self@.handles_upto(self@.slots.len() as int),
    {
        let n = self.slots.len();
        let mut r: Vec<BodyHandle> = Vec::new();
        let mut i: usize = 0;
        while i < n
            invariant
                n == self@.slots.len(),
                i <= n,
                r@ == self@.handles_upto(i as int),
            decreases n - i,
        {
            match self.handle_at(i) {
                Some(h) => r.push(h),
                None => {},
            }
            i += 1;
        }
        r
    }

    /// The slot of the body that `h` names, if it is still alive.
    pub fn resolve(&self, h: BodyHandle) -> (r: Option<usize>)
        ensures
            r == (if self@.live(h) {
                Some(h.index)
            } else {
                None
            }),
    {
        if h.index < self.slots.len() && self.slots[h.index].generation == h.generation
            && self.slots[h.index].body.is_some() {
            Some(h.index)
        } else {
            None
        }
    }

    /// The body in slot `i`, if one lives there.
    pub fn body_at(&self, i: usize) -> (r: Option<&Body<B>>)
        ensures
            r is Some == self@.occupied(i as int),
            r is Some ==> *r->Some_0 == self@.body_at(i as int),
    {
        if i < self.slots.len() {
            match &self.slots[i].body {
                Some(b) => Some(b),
                None => None,
            }
        } else {
            None
        }
    }

    /// The body that `h` names, if it is still alive.
    pub fn get(&self, h: BodyHandle) -> (r: Option<&Body<B>>)
        ensures
            r is Some == self@.live(h),
            r is Some ==> *r->Some_0 == self@.body_at(h.index as int),
    {
        match self.resolve(h) {
            Some(i) => self.body_at(i),
            None => None,
        }
    }

    /// The spring at position `k` of the spring list.
    pub fn spring_at(&self, k: usize) -> (r: &Spring<S>)
        requires
            k < self@.springs.len(),
        ensures
            *r == self@.springs[k as int],
    {
        &self.springs[k]
    }

    /// Replaces the state of the body in slot `i`, which succeeds exactly when
    /// that body is Dynamic: a Static body keeps the state it was spawned with.
    pub fn set_state_at(&mut self, i: usize, state: B) -> (r: bool)
        ensures
            r == old(self)@.dynamic_at(i as int),
            final(self)@.springs == old(self)@.springs,
            final(self)@.slots.len() == old(self)@.slots.len(),
            old(self)@.same_slots_except(final(self)@, i as int),
            old(self)@.stale_kept(final(self)@),
            r ==> final(self)@.slots[i as int] == (Slot {
                generation: old(self)@.slots[i as int].generation,
                body: Some(Body { kind: BodyKind::Dynamic, state }),
            }),
            !r ==> final(self)@ == old(self)@,
    {
        let dynamic = match self.kind_at(i) {
            Some(k) => k.is_dynamic(),
            None => false,
        };
        if dynamic {
            let generation = self.slots[i].generation;
            self.slots.set(i, Slot { generation, body: Some(Body { kind: BodyKind::Dynamic, state }) });
            proof {
                assert(self@.springs == old(self)@.springs);
            }
        }
        dynamic
    }

    /// Adds a body in the first reusable slot, or in a new slot after the
    /// last one, and returns its handle.
    pub fn spawn(&mut self, kind: BodyKind, state: B) -> (h: BodyHandle)
        requires
            old(self)@.slots.len() < usize::MAX,
        ensures
            old(self)@.wf() ==> final(self)@.wf(),
            !old(self)@.live(h),
            final(self)@.live(h),
            final(self)@.body_at(h.index as int) == (Body { kind, state }),
            h.index <= old(self)@.slots.len(),
            forall|j: int| 0 <= j < h.index ==> !old(self)@.reusable(j),
            h.index < old(self)@.slots.len() ==> old(self)@.reusable(h.index as int)
                && h.generation == old(self)@.slots[h.index as int].generation
                && final(self)@.slots.len() == old(self)@.slots.len(),
            h.index == old(self)@.slots.len() ==> h.generation == 0 && final(self)@.slots.len()
                == old(self)@.slots.len() + 1,
            old(self)@.same_slots_except(final(self)@, h.index as int),
            forall|h2: BodyHandle| #[trigger]
                old(self)@.live(h2) ==> final(self)@.live(h2) && final(self)@.body_at(
                    h2.index as int,
                ) == old(self)@.body_at(h2.index as int),
            final(self)@.springs == old(self)@.springs,
            old(self)@.generations_kept(final(self)@),
            old(self)@.stale_kept(final(self)@),
    {
        let n = self.slots.len();
        let mut i: usize = 0;
        while i < n
            invariant
                n == self.slots.len(),
                self@ == old(self)@,
                i <= n,
                forall|j: int| 0 <= j < i ==> !old(self)@.reusable(j),
            ensures
                n == self.slots.len(),
                self@ == old(self)@,
                i <= n,
                forall|j: int| 0 <= j < i ==> !old(self)@.reusable(j),
                i < n ==> old(self)@.reusable(i as int),
            decreases n - i,
        {
            if self.slots[i].body.is_none() && self.slots[i].generation < u64::MAX {
                break;
            }
            i += 1;
        }
        let body = Body { kind, state };
        let h = if i < n {
            let generation = self.slots[i].generation;
            self.slots.set(i, Slot { generation, body: Some(body) });
            BodyHandle { index: i, generation }
        } else {
            self.slots.push(Slot { generation: 0, body: Some(body) });
            BodyHandle { index: n, generation: 0 }
        };
        proof {
            assert(self@.springs == old(self)@.springs);
            assert(self@.slots == self.slots@);
            assert forall|h2: BodyHandle| #[trigger]
                old(self)@.live(h2) implies self@.live(h2) && self@.body_at(h2.index as int)
                == old(self)@.body_at(h2.index as int) by {
                assert(h2.index != h.index);
            }
            if old(self)@.wf() {
                assert forall|k: int| 0 <= k < self@.springs.len() implies #[trigger] self@.live(
                    self@.springs[k].owner,
                ) && self@.live(self@.springs[k].other) by {
                    assert(old(self)@.live(old(self)@.springs[k].owner));
                    assert(old(self)@.live(old(self)@.springs[k].other));
                }
            }
        }
        h
    }

    /// Removes the body that `h` names, with every spring that touches it,
    /// and moves its slot to the next generation; a slot already at the last
    /// generation is retired instead. Returns whether `h` named a live body;
    /// if not, nothing changes.
    pub fn despawn(&mut self, h: BodyHandle) -> (r: bool)
        ensures
            old(self)@.wf() ==> final(self)@.wf(),
            r == old(self)@.live(h),
            !r ==> final(self)@ == old(self)@,
            r ==> final(self)@.slots == old(self)@.slots.update(
                h.index as int,
                Slot { generation: next_generation(h.generation), body: None },
            ),
            r ==> final(self)@.springs == springs_without(old(self)@.springs, h),
            old(self)@.generations_kept(final(self)@),
            old(self)@.stale_kept(final(self)@),
            r ==> final(self)@.stale(h),
    {
        if self.resolve(h).is_none() {
            return false;
        }
        let generation = if h.generation < u64::MAX {
            h.generation + 1
        } else {
            h.generation
        };
        self.slots.set(h.index, Slot { generation, body: None });
        let ghost old_springs = self.springs@;
        let ghost n = old_springs.len();
        let ghost slots = self.slots@;
        let mut k: usize = self.springs.len();
        while k > 0
            invariant
                k <= n,
                n == old_springs.len(),
                self.slots@ == slots,
                old_springs == old(self)@.springs,
                self.springs@ == old_springs.subrange(0, k as int) + springs_without(
                    old_springs.subrange(k as int, n as int),
                    h,
                ),
            decreases k,
        {
            k -= 1;
            let ghost tail = old_springs.subrange(k as int, n as int);
            proof {
                assert(tail.subrange(1, tail.len() as int) =~= old_springs.subrange(
                    k + 1,
                    n as int,
                ));
                assert(tail[0] == old_springs[k as int]);
                assert(old_springs.subrange(0, k + 1) =~= old_springs.subrange(0, k as int).push(
                    old_springs[k as int],
                ));
            }
            if self.springs[k].owner == h || self.springs[k].other == h {
                self.springs.remove(k);
                proof {
                    assert(self.springs@ =~= old_springs.subrange(0, k as int) + springs_without(
                        tail,
                        h,
                    ));
                }
            } else {
                proof {
                    assert(self.springs@ =~= old_springs.subrange(0, k as int) + springs_without(
                        tail,
                        h,
                    ));
                }
            }
        }
        proof {
            assert(old_springs.subrange(0, 0) + springs_without(
                old_springs.subrange(0, n as int),
                h,
            ) =~= springs_without(old_springs, h)) by {
                assert(old_springs.subrange(0, n as int) =~= old_springs);
            }
            lemma_springs_without(old_springs, h);
            let w = self@;
            if old(self)@.wf() {
                assert forall|m: int| 0 <= m < w.springs.len() implies #[trigger] w.live(
                    w.springs[m].owner,
                ) && w.live(w.springs[m].other) by {
                    let x = w.springs[m];
                    assert(springs_without(old_springs, h).contains(x));
                    let j = choose|j: int| 0 <= j < old_springs.len() && old_springs[j] == x;
                    assert(old(self)@.live(old(self)@.springs[j].owner));
                    assert(old(self)@.live(old(self)@.springs[j].other));
                }
            }
        }
        true
    }

    /// Attaches a spring from `owner` to `other`. Both must be live.
    pub fn add_spring(&mut self, owner: BodyHandle, other: BodyHandle, params: S) -> (r: Result<
        (),
        WorldError,
    >)
        ensures
            old(self)@.wf() ==> final(self)@.wf(),
            final(self)@.slots == old(self)@.slots,
            r == (if !old(self)@.live(owner) {
                Err(WorldError::DanglingOwner)
            } else if !old(self)@.live(other) {
                Err(WorldError::DanglingOther)
            } else {
                Ok(())
            }),
            r is Ok ==> final(self)@.springs == old(self)@.springs.push(
                Spring { owner, other, params },
            ),
            r is Err ==> final(self)@.springs == old(self)@.springs,
    {
        if self.resolve(owner).is_none() {
            return Err(WorldError::DanglingOwner);
        }
        if self.resolve(other).is_none() {
            return Err(WorldError::DanglingOther);
        }
        self.springs.push(Spring { owner, other, params });
        proof {
            let w = self@;
            if old(self)@.wf() {
                assert forall|k: int| 0 <= k < w.springs.len() implies #[trigger] w.live(
                    w.springs[k].owner,
                ) && w.live(w.springs[k].other) by {
                    if k < old(self)@.springs.len() {
                        assert(old(self)@.live(old(self)@.springs[k].owner));
                        assert(old(self)@.live(old(self)@.springs[k].other));
                    }
                }
            }
        }
        Ok(())
    }

    /// Spawns two Dynamic bodies joined by a spring in each direction: first
    /// the one from `a` to `b` with `params_a`, then the one from `b` to `a`
    /// with `params_b`.
    pub fn spawn_spring_pair(&mut self, state_a: B, state_b: B, params_a: S, params_b: S) -> (r: (
        BodyHandle,
        BodyHandle,
    ))
        requires
            old(self)@.slots.len() < usize::MAX - 1,
        ensures
            old(self)@.wf() ==> final(self)@.wf(),
            r.0 != r.1,
            !old(self)@.live(r.0),
            !old(self)@.live(r.1),
            final(self)@.live(r.0),
            final(self)@.live(r.1),
            final(self)@.body_at(r.0.index as int) == (Body {
                kind: BodyKind::Dynamic,
                state: state_a,
            }),
            final(self)@.body_at(r.1.index as int) == (Body {
                kind: BodyKind::Dynamic,
                state: state_b,
            }),
            forall|h2: BodyHandle| #[trigger]
                old(self)@.live(h2) ==> final(self)@.live(h2) && final(self)@.body_at(
                    h2.index as int,
                ) == old(self)@.body_at(h2.index as int),
            final(self)@.springs == old(self)@.springs.push(
                Spring { owner: r.0, other: r.1, params: params_a },
            ).push(Spring { owner: r.1, other: r.0, params: params_b }),
            old(self)@.generations_kept(final(self)@),
            old(self)@.stale_kept(final(self)@),
    {
        let ghost w0 = self@;
        let a = self.spawn(BodyKind::Dynamic, state_a);
        let ghost w1 = self@;
        let b = self.spawn(BodyKind::Dynamic, state_b);
        let ghost w2 = self@;
        proof {
            assert(w1.live(a));
            assert(w2.live(a));
            assert(a.index != b.index);
        }
        let linked_ab = self.add_spring(a, b, params_a);
        let linked_ba = self.add_spring(b, a, params_b);
        proof {
            assert(linked_ab is Ok && linked_ba is Ok);
        }
        proof {
            assert forall|i: int| 0 <= i < w0.slots.len() implies w0.slots[i].generation
                <= #[trigger] self@.slots[i].generation by {
                assert(w1.slots[i].generation <= w2.slots[i].generation);
            }
            assert forall|h2: BodyHandle| #[trigger]
                w0.live(h2) implies self@.live(h2) && self@.body_at(h2.index as int)
                == w0.body_at(h2.index as int) by {
                assert(w1.live(h2));
                assert(w2.live(h2));
            }
        }
        (a, b)
    }
}

} // verus!
