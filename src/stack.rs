//! The ordered stack of timers, its rotation and the scheduling of rotations.
use crate::timer::{
    rotation_delay_secs, rotation_delay_spec, seconds_left_spec, Timer, TimerView,
};
use std::collections::VecDeque;
use vstd::prelude::*;

verus! {

/// The stack as a value: its timers in display order (the head is the major
/// one), whether rotation was ever armed, and the next id to hand out.
pub struct StackView {
    pub timers: Seq<TimerView>,
    pub rotation_started: bool,
    pub counter: usize,
}

/// No two timers share an id.
pub open spec fn ids_unique(s: Seq<TimerView>) -> bool {
    forall|i: int, j: int| 0 <= i < j < s.len() ==> s[i].id != s[j].id
}

/// Every timer's id was handed out before `counter`.
pub open spec fn ids_below(s: Seq<TimerView>, counter: usize) -> bool {
    forall|i: int| 0 <= i < s.len() ==> s[i].id < counter
}

impl StackView {
    pub open spec fn wf(self) -> bool {
        ids_unique(self.timers) && ids_below(self.timers, self.counter)
    }
}

/// The stack at application start.
pub open spec fn empty_stack() -> StackView {
    StackView { timers: Seq::empty(), rotation_started: false, counter: 0 }
}

/// `s` after a timer named `name` of `length_secs` seconds was added at the
/// tail, under the next id.
pub open spec fn with_timer(s: StackView, name: Seq<char>, length_secs: u64) -> StackView {
    StackView {
        timers: s.timers.push(TimerView { name, length_secs, id: s.counter }),
        rotation_started: true,
        counter: (s.counter + 1) as usize,
    }
}

/// `s` without the timers whose id is `id`, the others in their order.
pub open spec fn without_id(s: Seq<TimerView>, id: usize) -> Seq<TimerView>
    decreases s.len(),
{
    if s.len() == 0 {
        s
    } else {
        let rest = without_id(s.drop_last(), id);
        if s.last().id == id {
            rest
        } else {
            rest.push(s.last())
        }
    }
}

/// `s` with its head moved to the tail; an empty sequence stays as it is.
pub open spec fn rotated(s: Seq<TimerView>) -> Seq<TimerView> {
    if s.len() == 0 {
        s
    } else {
        s.subrange(1, s.len() as int).push(s[0])
    }
}

/// The rotation delay for the timers `s` when the head timer has run for
/// `elapsed_nanos` nanoseconds.
pub open spec fn delay_after(s: Seq<TimerView>, elapsed_nanos: nat) -> u64 {
    if s.len() == 0 {
        rotation_delay_spec(None)
    } else {
        rotation_delay_spec(Some(seconds_left_spec(s[0].length_secs as int, elapsed_nanos as int)))
    }
}

/// `d` is the rotation delay for the timers `s` at some moment.
pub open spec fn is_rotation_delay(s: Seq<TimerView>, d: u64) -> bool {
    exists|e: nat| #[trigger] delay_after(s, e) == d
}

/// Removing an id keeps only timers of `s`, in their order, and none with
/// that id.
pub proof fn lemma_without_id(s: Seq<TimerView>, id: usize, counter: usize)
    ensures
        without_id(s, id).len() <= s.len(),
        forall|k: int| 0 <= k < without_id(s, id).len() ==> #[trigger] without_id(s, id)[k].id != id,
        forall|k: int|
            0 <= k < without_id(s, id).len() ==> s.contains(#[trigger] without_id(s, id)[k]),
        ids_unique(s) ==> ids_unique(without_id(s, id)),
        ids_below(s, counter) ==> ids_below(without_id(s, id), counter),
    decreases s.len(),
{
    if s.len() > 0 {
        let p = s.drop_last();
        lemma_without_id(p, id, counter);
        let rest = without_id(p, id);
        assert forall|k: int| 0 <= k < rest.len() implies s.contains(#[trigger] rest[k]) by {
            let j = choose|j: int| 0 <= j < p.len() && p[j] == rest[k];
            assert(s[j] == rest[k]);
        }
        if ids_unique(s) {
            assert forall|k: int| 0 <= k < rest.len() implies #[trigger] rest[k].id != s.last().id by {
                let j = choose|j: int| 0 <= j < p.len() && p[j] == rest[k];
                assert(s[j] == p[j]);
            }
        }
        if s.last().id != id {
            let r = rest.push(s.last());
            assert forall|k: int| 0 <= k < r.len() implies s.contains(#[trigger] r[k]) by {
                if k < rest.len() {
                    assert(r[k] == rest[k]);
                } else {
                    assert(s[s.len() - 1] == r[k]);
                }
            }
            assert forall|k: int| 0 <= k < r.len() implies #[trigger] r[k].id != id by {
                if k < rest.len() {
                    assert(r[k] == rest[k]);
                }
            }
            if ids_below(s, counter) {
                assert forall|k: int| 0 <= k < r.len() implies #[trigger] r[k].id < counter by {
                    if k < rest.len() {
                        assert(r[k] == rest[k]);
                        let j = choose|j: int| 0 <= j < s.len() && s[j] == r[k];
                    } else {
                        assert(r[k] == s[s.len() - 1]);
                    }
                }
            }
            if ids_unique(s) {
                assert(ids_unique(p));
                assert forall|i: int, j: int| 0 <= i < j < r.len() implies r[i].id != r[j].id by {
                    if j < rest.len() {
                        assert(r[i] == rest[i] && r[j] == rest[j]);
                    } else {
                        assert(r[i] == rest[i]);
                    }
                }
            }
        } else {
            if ids_below(s, counter) {
                assert forall|k: int| 0 <= k < rest.len() implies #[trigger] rest[k].id < counter by {
                    let j = choose|j: int| 0 <= j < s.len() && s[j] == rest[k];
                }
            }
            if ids_unique(s) {
                assert(ids_unique(p));
            }
        }
    }
}

/// Removing an id that no timer has leaves the timers as they are.
pub proof fn lemma_remove_absent(s: Seq<TimerView>, id: usize)
    requires
        forall|k: int| 0 <= k < s.len() ==> #[trigger] s[k].id != id,
    ensures
        without_id(s, id) == s,
    decreases s.len(),
{
    if s.len() > 0 {
        lemma_remove_absent(s.drop_last(), id);
        assert(s.drop_last().push(s.last()) =~= s);
    }
}

/// Removing the id of one timer takes out that timer alone and keeps the
/// others in their order.
pub proof fn lemma_remove_keeps_order(s: Seq<TimerView>, i: int)
    requires
        ids_unique(s),
        0 <= i < s.len(),
    ensures
        without_id(s, s[i].id) == s.remove(i),
    decreases s.len(),
{
    let p = s.drop_last();
    let id = s[i].id;
    if i == s.len() - 1 {
        assert forall|k: int| 0 <= k < p.len() implies #[trigger] p[k].id != id by {
            assert(p[k] == s[k]);
        }
        lemma_remove_absent(p, id);
        assert(p =~= s.remove(i));
    } else {
        assert(ids_unique(p));
        assert(p[i] == s[i]);
        lemma_remove_keeps_order(p, i);
        assert(s.last().id != id);
        assert(p.remove(i).push(s.last()) =~= s.remove(i));
    }
}

/// The stack after adding timers named and sized by `items`, one after another.
pub open spec fn add_all(s: StackView, items: Seq<(Seq<char>, u64)>) -> StackView
    decreases items.len(),
{
    if items.len() == 0 {
        s
    } else {
        let prev = add_all(s, items.drop_last());
        with_timer(prev, items.last().0, items.last().1)
    }
}

/// How many of those additions arm rotation.
pub open spec fn arms_during(s: StackView, items: Seq<(Seq<char>, u64)>) -> nat
    decreases items.len(),
{
    if items.len() == 0 {
        0
    } else {
        let prev = add_all(s, items.drop_last());
        arms_during(s, items.drop_last()) + if prev.rotation_started {
            0nat
        } else {
            1nat
        }
    }
}

/// Adding any number of timers to a fresh stack, one call of `add_timer`
/// after another, arms rotation exactly once, at the first addition; later
/// additions never arm it again. The stack then holds one timer per addition,
/// and the counter has moved on by as many. (`add_timer` asks that the counter
/// stay below `usize::MAX`, so at most that many timers can be added.)
pub proof fn lemma_rotation_armed_once(items: Seq<(Seq<char>, u64)>)
    requires
        items.len() >= 1,
        items.len() <= usize::MAX,
    ensures
        arms_during(empty_stack(), items) == 1,
        add_all(empty_stack(), items).rotation_started,
        add_all(empty_stack(), items).timers.len() == items.len(),
        add_all(empty_stack(), items).counter == items.len(),
    decreases items.len(),
{
    if items.len() > 1 {
        lemma_rotation_armed_once(items.drop_last());
    } else {
        assert(items.drop_last().len() == 0);
        assert(arms_during(empty_stack(), items.drop_last()) == 0);
        assert(add_all(empty_stack(), items.drop_last()) == empty_stack());
    }
}

/// Ids are never reused: after any removal, the next timer added gets the
/// counter's value, which differs from the id of every timer the stack held.
pub proof fn lemma_ids_not_reused(s: StackView, id: usize, name: Seq<char>, length_secs: u64)
    requires
        s.wf(),
        s.counter < usize::MAX,
    ensures
        ({
            let after = with_timer(
                StackView { timers: without_id(s.timers, id), ..s },
                name,
                length_secs,
            );
            &&& after.timers.last().id == s.counter
            &&& forall|k: int| 0 <= k < s.timers.len() ==> #[trigger] s.timers[k].id != after.timers.last().id
            &&& after.wf()
        }),
{
    lemma_without_id(s.timers, id, s.counter);
    let r = without_id(s.timers, id);
    let t = r.push(TimerView { name, length_secs, id: s.counter });
    assert forall|k: int| 0 <= k < t.len() implies #[trigger] t[k].id < s.counter + 1 by {
        if k < r.len() {
            assert(t[k] == r[k]);
        }
    }
    assert forall|i: int, j: int| 0 <= i < j < t.len() implies t[i].id != t[j].id by {
        assert(t[i] == r[i]);
        if j < r.len() {
            assert(t[j] == r[j]);
        }
    }
}

/// What the stack is asked to do.
#[derive(Debug, Clone, PartialEq, Eq)]
pub enum TimerMessage {
    /// Add a timer with this name and length in seconds.
    NewTimer(String, u64),
    /// Remove the timer with this id.
    DeleteTimer(usize),
    /// The scheduled rotation is due.
    Rotate,
}

/// The timers on screen, in display order, with the rotation state.
#[derive(Debug, PartialEq, Eq)]
pub struct TimerStack {
    timers: VecDeque<Timer>,
    rotation_started: bool,
    /// The id of the next timer; ids are never handed out twice.
    counter: usize,
}

impl View for TimerStack {
    type V = StackView;

    closed spec fn view(&self) -> StackView {
        StackView {
            timers: self.timers@.map_values(|t: Timer| t@),
            rotation_started: self.rotation_started,
            counter: self.counter,
        }
    }
}

impl TimerStack {
    pub open spec fn wf(&self) -> bool {
        self@.wf()
    }

    /// An empty stack whose rotation is not armed.
    pub fn new() -> (r: TimerStack)
        ensures
            r@ == empty_stack(),
            r.wf(),
    {
        let r = TimerStack { timers: VecDeque::new(), rotation_started: false, counter: 0 };
        assert(r@.timers =~= Seq::<TimerView>::empty());
        r
    }

    /// Whether rotation was ever armed.
    pub fn rotation_started(&self) -> (r: bool)
        ensures
            r == self@.rotation_started,
    {
        self.rotation_started
    }

    /// The id that the next timer will get.
    pub fn next_id(&self) -> (r: usize)
        ensures
            r == self@.counter,
    {
        self.counter
    }

    /// How many timers are on the stack.
    pub fn len(&self) -> (r: usize)
        ensures
            r == self@.timers.len(),
    {
        self.timers.len()
    }

    /// The delay in seconds before the next rotation, from the head timer's
    /// time left now (or for an empty stack).
    pub fn tick_secs(&self) -> (r: u64)
        ensures
            is_rotation_delay(self@.timers, r),
    {
        if self.timers.len() == 0 {
            let r = rotation_delay_secs(None);
            assert(delay_after(self@.timers, 0) == r);
            r
        } else {
            let head = &self.timers[0];
            let (secs, e) = head.seconds_left();
            let r = rotation_delay_secs(Some(secs));
            assert(self@.timers[0] == head@);
            assert(delay_after(self@.timers, e as nat) == r);
            r
        }
    }

    /// Adds a timer that starts now at the tail, under the next id. The first
    /// addition ever arms rotation: it returns the delay to arm it with, which
    /// comes from the stack as it was before; later additions return `None`.
    pub fn add_timer(&mut self, name: String, length_secs: u64) -> (arm: Option<u64>)
        requires
            old(self).wf(),
            old(self)@.counter < usize::MAX,
        ensures
            final(self).wf(),
            final(self)@ == with_timer(old(self)@, name@, length_secs),
            arm.is_some() <==> !old(self)@.rotation_started,
            arm.is_some() ==> is_rotation_delay(old(self)@.timers, arm.unwrap()),
    {
        let arm = if !self.rotation_started {
            let d = self.tick_secs();
            self.rotation_started = true;
            Some(d)
        } else {
            None
        };
        let ghost name_view = name@;
        let timer = Timer::new(name, length_secs, self.counter);
        self.counter = self.counter + 1;
        self.timers.push_back(timer);
        assert(self@.timers =~= old(self)@.timers.push(
            TimerView { name: name_view, length_secs, id: old(self)@.counter },
        ));
        arm
    }

    /// Moves the head timer to the tail. Rotation re-arms on every call, also
    /// on an empty stack: it returns the delay to re-arm with, which comes from
    /// the stack as it was before the move.
    pub fn rotate(&mut self) -> (delay: u64)
        requires
            old(self).wf(),
        ensures
            final(self).wf(),
            final(self)@ == (StackView { timers: rotated(old(self)@.timers), ..old(self)@ }),
            is_rotation_delay(old(self)@.timers, delay),
    {
        let delay = self.tick_secs();
        let ghost s = old(self)@.timers;
        if self.timers.len() > 0 {
            let head = self.timers.pop_front();
            match head {
                Some(t) => {
                    self.timers.push_back(t);
                },
                None => {},
            }
            assert(self@.timers =~= rotated(s));
            proof {
                let r = rotated(s);
                let n = s.len();
                assert forall|i: int, j: int| 0 <= i < j < r.len() implies r[i].id != r[j].id by {
                    if j < n - 1 {
                        assert(r[i] == s[i + 1] && r[j] == s[j + 1]);
                    } else {
                        assert(r[i] == s[i + 1] && r[j] == s[0]);
                    }
                }
                assert forall|i: int| 0 <= i < r.len() implies r[i].id < self@.counter by {
                    if i < n - 1 {
                        assert(r[i] == s[i + 1]);
                    } else {
                        assert(r[i] == s[0]);
                    }
                }
            }
        }
        assert(self@ == (StackView { timers: rotated(old(self)@.timers), ..old(self)@ }));
        delay
    }

    /// Removes the timer with id `id`, wherever it stands; does nothing when
    /// there is none. Rotation is left as it is.
    pub fn remove_timer(&mut self, id: usize)
        requires
            old(self).wf(),
        ensures
            final(self).wf(),
            final(self)@ == (StackView { timers: without_id(old(self)@.timers, id), ..old(self)@ }),
    {
        let ghost s = old(self)@.timers;
        let n = self.timers.len();
        let mut kept: VecDeque<Timer> = VecDeque::new();
        let mut i: usize = 0;
        while i < n
            invariant
                s == old(self)@.timers,
                n == s.len(),
                i <= n,
                self.rotation_started == old(self).rotation_started,
                self.counter == old(self).counter,
                self.timers@.map_values(|t: Timer| t@) == s.subrange(i as int, n as int),
                kept@.map_values(|t: Timer| t@) == without_id(s.take(i as int), id),
            decreases n - i,
        {
            let ghost before = self.timers@;
            let ghost kept_before = kept@;
            assert(before.map_values(|t: Timer| t@).len() == before.len());
            assert(before.len() == n - i);
            let next = self.timers.pop_front();
            match next {
                Some(t) => {
                    assert(t@ == before.map_values(|t: Timer| t@)[0]);
                    assert(t@ == s[i as int]);
                    assert(s.take(i + 1).drop_last() =~= s.take(i as int));
                    if t.id() != id {
                        kept.push_back(t);
                        assert(kept@.map_values(|t: Timer| t@) =~= kept_before.map_values(
                            |t: Timer| t@,
                        ).push(s[i as int]));
                    }
                    assert forall|k: int| 0 <= k < self.timers@.len() implies (#[trigger] self.timers@[k])@
                        == s[i + 1 + k] by {
                        assert(self.timers@[k] == before[k + 1]);
                        assert(before.map_values(|t: Timer| t@)[k + 1] == s.subrange(
                            i as int,
                            n as int,
                        )[k + 1]);
                    }
                    assert(self.timers@.map_values(|t: Timer| t@) =~= s.subrange(
                        i + 1,
                        n as int,
                    ));
                },
                None => {},
            }
            i = i + 1;
        }
        self.timers = kept;
        assert(s.take(n as int) =~= s);
        proof {
            lemma_without_id(s, id, self.counter);
        }
    }

    /// Applies one message. Returns the delay in seconds with which to arm
    /// the rotation timer, or `None` when nothing is to be armed.
    pub fn update(&mut self, msg: TimerMessage) -> (arm: Option<u64>)
        requires
            old(self).wf(),
            msg is NewTimer ==> old(self)@.counter < usize::MAX,
        ensures
            final(self).wf(),
            match msg {
                TimerMessage::NewTimer(name, length_secs) => {
                    &&& final(self)@ == with_timer(old(self)@, name@, length_secs)
                    &&& (arm.is_some() <==> !old(self)@.rotation_started)
                    &&& arm.is_some() ==> is_rotation_delay(old(self)@.timers, arm.unwrap())
                },
                TimerMessage::DeleteTimer(id) => {
                    &&& final(self)@ == (StackView {
                        timers: without_id(old(self)@.timers, id),
                        ..old(self)@
                    })
                    &&& arm.is_none()
                },
                TimerMessage::Rotate => {
                    &&& final(self)@ == (StackView {
                        timers: rotated(old(self)@.timers),
                        ..old(self)@
                    })
                    &&& arm.is_some()
                    &&& is_rotation_delay(old(self)@.timers, arm.unwrap())
                },
            },
    {
        match msg {
            TimerMessage::NewTimer(name, length_secs) => self.add_timer(name, length_secs),
            TimerMessage::DeleteTimer(id) => {
                self.remove_timer(id);
                None
            },
            TimerMessage::Rotate => Some(self.rotate()),
        }
    }

    /// The head timer, shown as the major one, and the rest in stack order,
    /// shown as minor ones.
    pub fn render_slots(&self) -> (r: (Option<&Timer>, Vec<&Timer>))
        ensures
            r.0.is_some() <==> self@.timers.len() > 0,
            r.0.is_some() ==> r.0.unwrap()@ == self@.timers[0],
            r.1@.len() == if self@.timers.len() > 0 {
                self@.timers.len() - 1
            } else {
                0
            },
            forall|k: int| 0 <= k < r.1@.len() ==> (#[trigger] r.1@[k])@ == self@.timers[k + 1],
    {
        let n = self.timers.len();
        if n == 0 {
            return (None, Vec::new());
        }
        let mut minors: Vec<&Timer> = Vec::new();
        let mut i: usize = 1;
        while i < n
            invariant
                n == self@.timers.len(),
                1 <= i <= n,
                minors@.len() == i - 1,
                forall|k: int| 0 <= k < minors@.len() ==> (#[trigger] minors@[k])@ == self@.timers[k + 1],
            decreases n - i,
        {
            minors.push(&self.timers[i]);
            i = i + 1;
        }
        (Some(&self.timers[0]), minors)
    }
}

} // verus!
