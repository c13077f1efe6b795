//! Which identity the next request goes out under, and which ones are cooling.

use std::time::Duration;

use vstd::prelude::*;

use crate::time::{duration_nanos, MAX_DURATION_NANOS};

verus! {

/// Where a pool of identities stands: the instant until which each one cools, in nanoseconds on
/// the clock of the pool, and the identity that the next request starts from.
#[verifier::ext_equal]
pub struct RotationState {
    pub until: Seq<Option<u128>>,
    pub active: int,
}

impl RotationState {
    /// The number of identities in the pool.
    pub open spec fn len(self) -> int {
        self.until.len() as int
    }

    /// The starting point is an identity of the pool.
    pub open spec fn wf(self) -> bool {
        0 <= self.active < self.len()
    }

    /// Identity `i` is out of rotation at `now`.
    pub open spec fn cooling(self, i: int, now: nat) -> bool {
        self.until[i] matches Some(until) && until > now
    }

    /// Every identity is out of rotation at `now`.
    pub open spec fn all_cooling(self, now: nat) -> bool {
        forall|i: int| 0 <= i < self.len() ==> self.cooling(i, now)
    }

    /// The identity `offset` places after the starting point, going round.
    pub open spec fn place(self, offset: int) -> int {
        (self.active + offset) % self.len()
    }

    /// The first identity in rotation, looking from `offset` places after the starting point on.
    pub open spec fn ready_from(self, offset: int, now: nat) -> Option<int>
        decreases self.len() - offset,
    {
        if offset < 0 || offset >= self.len() {
            None
        } else if !self.cooling(self.place(offset), now) {
            Some(self.place(offset))
        } else {
            self.ready_from(offset + 1, now)
        }
    }

    /// The identity that the next request goes out under: the first one, round-robin from the
    /// starting point, that is not cooling.
    pub open spec fn next_ready(self, now: nat) -> Option<int> {
        self.ready_from(0, now)
    }

    /// `soonest` is the first instant at which a cooling identity comes back.
    pub open spec fn is_soonest(self, soonest: u128) -> bool {
        &&& exists|i: int| 0 <= i < self.len() && #[trigger] self.until[i] == Some(soonest)
        &&& forall|i: int|
            0 <= i < self.len() ==> (#[trigger] self.until[i] matches Some(until) ==> soonest
                <= until)
    }

    /// The state once identity `i` was chosen: it is not cooling any more and stays the starting
    /// point.
    pub open spec fn taken(self, i: int) -> RotationState {
        RotationState { until: self.until.update(i, None), active: i }
    }

    /// The state once identity `i` was put out of rotation: the one after it is the starting point.
    pub open spec fn cooled(self, i: int, until: u128) -> RotationState {
        RotationState { until: self.until.update(i, Some(until)), active: (i + 1) % self.len() }
    }
}

/// The mutable part of a client: which identities are cooling and where the next request starts.
pub struct Rotation {
    cooling_until: Vec<Option<u128>>,
    active: usize,
}

impl View for Rotation {
    type V = RotationState;

    closed spec fn view(&self) -> RotationState {
        RotationState { until: self.cooling_until@, active: self.active as int }
    }
}

impl Rotation {
    /// A pool of `count` identities with none of them cooling, starting from the first.
    pub fn new(count: usize) -> (rotation: Rotation)
        ensures
            rotation@.active == 0,
            rotation@.until =~= Seq::new(count as nat, |i: int| None::<u128>),
    {
        let mut cooling_until: Vec<Option<u128>> = Vec::new();
        while cooling_until.len() < count
            invariant
                cooling_until.len() <= count,
                forall|i: int| 0 <= i < cooling_until.len() ==> cooling_until@[i] == None::<u128>,
            decreases count - cooling_until.len(),
        {
            cooling_until.push(None);
        }
        Rotation { cooling_until, active: 0 }
    }

    /// Round-robin from the starting point: the first identity that is not cooling, which becomes
    /// the starting point. `Err` carries the soonest reset when all are cooling.
    pub fn next_ready(&mut self, now: Duration) -> (picked: Result<usize, u128>)
        requires
            old(self)@.wf(),
        ensures
            final(self)@.wf(),
            match picked {
                Ok(i) => {
                    &&& old(self)@.next_ready(duration_nanos(now)) == Some(i as int)
                    &&& i < old(self)@.len()
                    &&& final(self)@ == old(self)@.taken(i as int)
                    &&& final(self)@.active == i
                    &&& final(self)@.until =~= old(self)@.until.update(i as int, None)
                    &&& !(old(self)@.until[i as int] matches Some(until) && until > duration_nanos(
                        now,
                    ))
                },
                Err(soonest) => {
                    &&& old(self)@.next_ready(duration_nanos(now)) is None
                    &&& old(self)@.all_cooling(duration_nanos(now))
                    &&& old(self)@.is_soonest(soonest)
                    &&& soonest > duration_nanos(now)
                    &&& final(self)@ == old(self)@
                    &&& exists|i: int|
                        0 <= i < old(self)@.until.len() && #[trigger] old(self)@.until[i] == Some(
                            soonest,
                        )
                    &&& forall|i: int|
                        0 <= i < old(self)@.until.len() ==> (
                        #[trigger] old(self)@.until[i] matches Some(reset) && soonest <= reset)
                },
            },
    {
        let instant: u128 = now.as_nanos();
        let count: usize = self.cooling_until.len();
        let start: usize = self.active;
        let mut soonest: u128 = 0;
        let mut offset: usize = 0;
        let ghost state = self@;
        while offset < count
            invariant
                self@ == state,
                state == old(self)@,
                state.wf(),
                state.len() == count,
                state.active == start,
                instant == duration_nanos(now),
                offset <= count,
                state.next_ready(instant as nat) == state.ready_from(offset as int, instant as nat),
                forall|o: int|
                    0 <= o < offset ==> state.cooling(#[trigger] state.place(o), instant as nat),
                offset > 0 ==> soonest > instant,
                offset > 0 ==> exists|o: int|
                    0 <= o < offset && state.until[#[trigger] state.place(o)] == Some(soonest),
                forall|o: int|
                    0 <= o < offset ==> (state.until[#[trigger] state.place(o)] matches Some(until)
                        ==> soonest <= until),
            decreases count - offset,
        {
            let left: usize = count - start;
            let i: usize = if offset < left {
                start + offset
            } else {
                offset - left
            };
            proof {
                lemma_place(state, offset as int);
            }
            match self.cooling_until[i] {
                Some(until) if until > instant => {
                    if offset == 0 || until < soonest {
                        soonest = until;
                        assert(state.until[state.place(offset as int)] == Some(soonest));
                    }
                },
                _ => {
                    self.cooling_until.set(i, None);
                    self.active = i;
                    return Ok(i);
                },
            }
            offset = offset + 1;
        }
        proof {
            assert forall|i: int| 0 <= i < state.len() implies state.cooling(i, instant as nat) by {
                let o = lemma_every_place(state, i);
            }
            assert forall|i: int| 0 <= i < state.len() implies (#[trigger] state.until[i] matches Some(
                until,
            ) ==> soonest <= until) by {
                let o = lemma_every_place(state, i);
            }
            let o = choose|o: int|
                0 <= o < offset && state.until[#[trigger] state.place(o)] == Some(soonest);
            lemma_place(state, o);
            assert(state.until[state.place(o)] == Some(soonest));
            assert(state.is_soonest(soonest));
            assert(state.all_cooling(instant as nat));
            assert(state.next_ready(instant as nat) is None);
            assert forall|i: int| 0 <= i < state.until.len() implies (
            #[trigger] state.until[i] matches Some(reset) && soonest <= reset) by {
                assert(state.cooling(i, instant as nat));
            }
        }
        Err(soonest)
    }

    /// Take an identity out of rotation for `wait` from `now` on, and move the starting point
    /// past it.
    pub fn cool(&mut self, identity: usize, wait: Duration, now: Duration)
        requires
            old(self)@.wf(),
            identity < old(self)@.len(),
        ensures
            final(self)@.wf(),
            final(self)@ == old(self)@.cooled(
                identity as int,
                (duration_nanos(now) + duration_nanos(wait)) as u128,
            ),
            final(self)@.until =~= old(self)@.until.update(
                identity as int,
                Some((duration_nanos(now) + duration_nanos(wait)) as u128),
            ),
            final(self)@.active == if identity + 1 < old(self)@.until.len() {
                identity + 1
            } else {
                0
            },
            duration_nanos(now) + duration_nanos(wait) <= 2 * MAX_DURATION_NANOS,
    {
        let until: u128 = now.as_nanos() + wait.as_nanos();
        self.cooling_until.set(identity, Some(until));
        self.active = if identity < self.cooling_until.len() - 1 {
            identity + 1
        } else {
            0
        };
        proof {
            if identity + 1 < old(self)@.len() {
                vstd::arithmetic::div_mod::lemma_small_mod(
                    (identity + 1) as nat,
                    old(self)@.len() as nat,
                );
            } else {
                vstd::arithmetic::div_mod::lemma_mod_self_0(old(self)@.len());
            }
            assert(self@ == old(self)@.cooled(identity as int, until));
        }
    }
}

/// Choosing an identity or cooling one keeps the pool as large as it is, with the starting point
/// in it.
pub proof fn law_rotation_stays_sound(state: RotationState, i: int, until: u128)
    requires
        state.wf(),
        0 <= i < state.len(),
    ensures
        state.taken(i).wf(),
        state.taken(i).len() == state.len(),
        state.cooled(i, until).wf(),
        state.cooled(i, until).len() == state.len(),
{
    vstd::arithmetic::div_mod::lemma_mod_bound(i + 1, state.len());
}

/// The next identity is the first one whose reset is not still to come, going round from the
/// starting point: those that are passed on the way all have a reset that is. There is none only if
/// all have.
pub proof fn law_next_is_the_first_one_ready(state: RotationState, now: nat)
    requires
        0 <= state.active < state.until.len(),
    ensures
        match state.next_ready(now) {
            None => forall|j: int|
                0 <= j < state.until.len() ==> (#[trigger] state.until[j] matches Some(reset)
                    && reset > now),
            Some(i) => {
                &&& 0 <= i < state.until.len()
                &&& !(state.until[i] matches Some(reset) && reset > now)
                &&& forall|j: int|
                    0 <= j < state.until.len() && (if state.active <= i {
                        state.active <= j < i
                    } else {
                        state.active <= j || j < i
                    }) ==> (#[trigger] state.until[j] matches Some(reset) && reset > now)
            },
        },
{
    law_next_ready_is_round_robin(state, now);
    match state.next_ready(now) {
        None => {
            assert forall|j: int| 0 <= j < state.until.len() implies (
            #[trigger] state.until[j] matches Some(reset) && reset > now) by {
                assert(state.cooling(j, now));
            }
        },
        Some(i) => {
            assert(!state.cooling(i, now));
            let offset = choose|offset: int|
                {
                    &&& 0 <= offset < state.len()
                    &&& #[trigger] state.place(offset) == i
                    &&& forall|o: int| 0 <= o < offset ==> state.cooling(#[trigger] state.place(o), now)
                };
            lemma_place(state, offset);
            assert forall|j: int|
                0 <= j < state.until.len() && (if state.active <= i {
                    state.active <= j < i
                } else {
                    state.active <= j || j < i
                }) implies (#[trigger] state.until[j] matches Some(reset) && reset > now) by {
                let o = lemma_every_place(state, j);
                lemma_place(state, o);
                assert(o < offset);
                assert(state.cooling(state.place(o), now));
            }
        },
    }
}

/// Choosing an identity clears its reset and makes it the starting point; exhausting one sets its
/// reset and makes the one after it the starting point, or the first one after the last. The resets
/// of all others stay as they were.
pub proof fn law_only_one_reset_changes(state: RotationState, i: int, reset: u128)
    requires
        0 <= i < state.until.len(),
    ensures
        state.taken(i).until.len() == state.until.len(),
        state.taken(i).until[i] is None,
        state.taken(i).active == i,
        state.cooled(i, reset).until.len() == state.until.len(),
        state.cooled(i, reset).until[i] == Some(reset),
        state.cooled(i, reset).active == if i + 1 < state.until.len() {
            i + 1
        } else {
            0
        },
        forall|j: int|
            0 <= j < state.until.len() && j != i ==> #[trigger] state.taken(i).until[j]
                == state.until[j],
        forall|j: int|
            0 <= j < state.until.len() && j != i ==> #[trigger] state.cooled(i, reset).until[j]
                == state.until[j],
{
    if i + 1 < state.len() {
        vstd::arithmetic::div_mod::lemma_small_mod((i + 1) as nat, state.len() as nat);
    } else {
        vstd::arithmetic::div_mod::lemma_mod_self_0(state.len());
    }
}

/// Identities rotate round-robin: the next one is not cooling, and all that come before it on the
/// way round from the starting point are. There is a next one unless all are cooling.
pub proof fn law_next_ready_is_round_robin(state: RotationState, now: nat)
    requires
        state.wf(),
    ensures
        state.next_ready(now) is None <==> state.all_cooling(now),
        state.next_ready(now) matches Some(i) ==> {
            &&& 0 <= i < state.len()
            &&& !state.cooling(i, now)
            &&& exists|offset: int|
                {
                    &&& 0 <= offset < state.len()
                    &&& #[trigger] state.place(offset) == i
                    &&& forall|o: int| 0 <= o < offset ==> state.cooling(#[trigger] state.place(o), now)
                }
        },
{
    lemma_ready_from(state, 0, now);
    if state.next_ready(now) is None {
        assert forall|i: int| 0 <= i < state.len() implies state.cooling(i, now) by {
            let o = lemma_every_place(state, i);
        }
    }
}

/// What is found from a place on, when everything before it is cooling.
proof fn lemma_ready_from(state: RotationState, from: int, now: nat)
    requires
        state.wf(),
        0 <= from <= state.len(),
        forall|o: int| 0 <= o < from ==> state.cooling(#[trigger] state.place(o), now),
    ensures
        match state.ready_from(from, now) {
            None => forall|o: int|
                0 <= o < state.len() ==> state.cooling(#[trigger] state.place(o), now),
            Some(i) => {
                &&& 0 <= i < state.len()
                &&& !state.cooling(i, now)
                &&& exists|offset: int|
                    {
                        &&& 0 <= offset < state.len()
                        &&& #[trigger] state.place(offset) == i
                        &&& forall|o: int|
                            0 <= o < offset ==> state.cooling(#[trigger] state.place(o), now)
                    }
            },
        },
    decreases state.len() - from,
{
    if from < state.len() {
        lemma_place(state, from);
        if state.cooling(state.place(from), now) {
            lemma_ready_from(state, from + 1, now);
        }
    }
}

/// An exhausted identity stays out of rotation until its reset.
pub proof fn law_cooled_identity_rests(state: RotationState, i: int, until: u128, now: nat)
    requires
        state.wf(),
        0 <= i < state.len(),
        now < until,
    ensures
        state.cooled(i, until).next_ready(now) != Some(i),
{
    law_rotation_stays_sound(state, i, until);
    law_next_ready_is_round_robin(state.cooled(i, until), now);
}

/// An exhausted identity is back in rotation from its reset on.
pub proof fn law_cooldown_readmits(state: RotationState, i: int, until: u128, now: nat)
    requires
        state.wf(),
        0 <= i < state.len(),
        until <= now,
    ensures
        !state.cooled(i, until).cooling(i, now),
        state.cooled(i, until).next_ready(now) is Some,
{
    law_rotation_stays_sound(state, i, until);
    law_next_ready_is_round_robin(state.cooled(i, until), now);
    assert(!state.cooled(i, until).cooling(i, now));
}

/// Rotation is immediate: once an identity was exhausted, another one takes over at once if there is
/// one that is not cooling, however short the time to the reset is.
pub proof fn law_rotation_is_immediate(
    state: RotationState,
    i: int,
    until: u128,
    other: int,
    now: nat,
)
    requires
        state.wf(),
        0 <= i < state.len(),
        0 <= other < state.len(),
        other != i,
        !state.cooling(other, now),
    ensures
        state.cooled(i, until).next_ready(now) matches Some(next) && next != i,
{
    law_rotation_stays_sound(state, i, until);
    let after = state.cooled(i, until);
    law_next_ready_is_round_robin(after, now);
    assert(!after.cooling(other, now));
    let last = state.len() - 1;
    let o = lemma_every_place(after, other);
    lemma_place(after, last);
    if i + 1 < state.len() {
        vstd::arithmetic::div_mod::lemma_small_mod((i + 1) as nat, state.len() as nat);
    } else {
        vstd::arithmetic::div_mod::lemma_mod_self_0(state.len());
    }
    assert(after.place(last) == i);
    let next = after.next_ready(now)->0;
    let offset = choose|offset: int|
        {
            &&& 0 <= offset < after.len()
            &&& #[trigger] after.place(offset) == next
            &&& forall|o: int| 0 <= o < offset ==> after.cooling(#[trigger] after.place(o), now)
        };
    assert(offset <= o) by {
        if o < offset {
            assert(after.cooling(after.place(o), now));
        }
    }
    lemma_place(after, offset);
}

/// The identity after an exhausted one is the next, unless it is cooling itself.
pub proof fn law_next_in_order_takes_over(state: RotationState, i: int, until: u128, now: nat)
    requires
        state.wf(),
        0 <= i < state.len(),
        state.len() > 1,
        !state.cooling((i + 1) % state.len(), now),
    ensures
        state.cooled(i, until).next_ready(now) == Some((i + 1) % state.len()),
{
    law_rotation_stays_sound(state, i, until);
    let after = state.cooled(i, until);
    lemma_place(after, 0);
    if i + 1 < state.len() {
        vstd::arithmetic::div_mod::lemma_small_mod((i + 1) as nat, state.len() as nat);
    } else {
        vstd::arithmetic::div_mod::lemma_mod_self_0(state.len());
    }
    assert(!after.cooling(after.place(0), now));
}

/// The client stays on the identity that it rotated to, until that one is cooled.
pub proof fn law_stays_rotated(state: RotationState, i: int, now: nat)
    requires
        state.wf(),
        0 <= i < state.len(),
    ensures
        state.taken(i).next_ready(now) == Some(i),
{
    lemma_place(state.taken(i), 0);
}

/// When every identity is cooling, one is back at the soonest reset, and none before.
pub proof fn law_soonest_reset_ends_the_wait(
    state: RotationState,
    soonest: u128,
    now: nat,
    later: nat,
)
    requires
        state.wf(),
        state.all_cooling(now),
        state.is_soonest(soonest),
    ensures
        now < soonest,
        state.next_ready(later) is Some <==> later >= soonest,
{
    law_next_ready_is_round_robin(state, later);
    let i = choose|i: int| 0 <= i < state.len() && #[trigger] state.until[i] == Some(soonest);
    assert(state.cooling(i, now));
    if later < soonest {
        assert forall|j: int| 0 <= j < state.len() implies state.cooling(j, later) by {
            assert(state.cooling(j, now));
            assert(state.until[j] is Some);
        }
    } else {
        assert(!state.cooling(i, later));
    }
}

/// There is one soonest reset only.
pub proof fn law_soonest_reset_is_unique(state: RotationState, a: u128, b: u128)
    requires
        state.is_soonest(a),
        state.is_soonest(b),
    ensures
        a == b,
{
    let i = choose|i: int| 0 <= i < state.len() && #[trigger] state.until[i] == Some(a);
    let j = choose|j: int| 0 <= j < state.len() && #[trigger] state.until[j] == Some(b);
    assert(state.until[i] == Some(a) && state.until[j] == Some(b));
}

/// Going round from the starting point is one addition, less the length of the pool if it leads
/// past the end.
proof fn lemma_place(state: RotationState, offset: int)
    requires
        state.wf(),
        0 <= offset < state.len(),
    ensures
        state.place(offset) == if state.active + offset < state.len() {
            state.active + offset
        } else {
            state.active + offset - state.len()
        },
        0 <= state.place(offset) < state.len(),
{
    let n = state.len();
    if state.active + offset < n {
        vstd::arithmetic::div_mod::lemma_small_mod((state.active + offset) as nat, n as nat);
    } else {
        vstd::arithmetic::div_mod::lemma_mod_sub_multiples_vanish(state.active + offset, n);
        vstd::arithmetic::div_mod::lemma_small_mod((state.active + offset - n) as nat, n as nat);
    }
}

/// Going once round reaches every identity.
proof fn lemma_every_place(state: RotationState, i: int) -> (offset: int)
    requires
        state.wf(),
        0 <= i < state.len(),
    ensures
        0 <= offset < state.len(),
        state.place(offset) == i,
{
    let offset = if i >= state.active {
        i - state.active
    } else {
        i - state.active + state.len()
    };
    lemma_place(state, offset);
    offset
}

/// The soonest reset is one of those that are set, and none that is set comes before it.
pub proof fn law_soonest_reset_is_the_first(state: RotationState, soonest: u128)
    requires
        state.is_soonest(soonest),
    ensures
        exists|i: int| 0 <= i < state.until.len() && #[trigger] state.until[i] == Some(soonest),
        forall|i: int|
            0 <= i < state.until.len() ==> (#[trigger] state.until[i] matches Some(reset) ==> soonest
                <= reset),
{
}

/// An identity is out of rotation exactly while its reset is still to come, and all are if every one
/// is.
pub proof fn law_cooling_ends_at_the_reset(state: RotationState, i: int, now: nat)
    ensures
        state.cooling(i, now) <==> state.until[i] is Some && state.until[i]->0 > now,
        state.all_cooling(now) <==> forall|j: int|
            0 <= j < state.until.len() ==> (#[trigger] state.until[j] matches Some(reset) && reset
                > now),
{
    if state.all_cooling(now) {
        assert forall|j: int| 0 <= j < state.until.len() implies (
        #[trigger] state.until[j] matches Some(reset) && reset > now) by {
            assert(state.cooling(j, now));
        }
    }
}

} // verus!
