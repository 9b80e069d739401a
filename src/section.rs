//! The constructor section and the walk over it.
//!
//! The link step leaves every registration slot of the program in one
//! contiguous region of memory, `[start, end)`, one pointer-sized slot after
//! another. Invoking the constructors means visiting the slots from `start`
//! upwards, one pointer size at a time, calling the function whose address
//! each slot holds, and stopping at `end`. The walk is a small state machine:
//! [`SectionWalker::step`] names the next slot to call, or says that the
//! section is exhausted. Reading a slot and calling through it is left to the
//! caller, one call per [`WalkStep::Call`].

use vstd::prelude::*;
use vstd::arithmetic::div_mod::{lemma_div_by_multiple, lemma_fundamental_div_mod, lemma_mod_multiples_basic};
use vstd::layout::{layout_of_primitives, size_of};

verus! {

/// The size in bytes of one registration slot: one pointer.
pub open spec fn slot_size() -> int {
    size_of::<usize>() as int
}

/// A slot is a pointer: four or eight bytes.
pub proof fn lemma_slot_size()
    ensures
        slot_size() == 4 || slot_size() == 8,
{
    broadcast use layout_of_primitives;

    assert(usize::BITS == 32 || usize::BITS == 64);
}

/// The addresses of the slots that fill `[from, to)`, in ascending order.
pub open spec fn slots_between(from: int, to: int) -> Seq<int> {
    Seq::new(((to - from) / slot_size()) as nat, |i: int| from + i * slot_size())
}

/// `[from, to)` is a whole number of slots.
pub open spec fn whole_slots(from: int, to: int) -> bool {
    from <= to && (to - from) % slot_size() == 0
}

/// How many times `a` occurs in `trace`.
pub open spec fn count_of(trace: Seq<int>, a: int) -> nat
    decreases trace.len(),
{
    if trace.len() == 0 {
        0
    } else {
        count_of(trace.drop_last(), a) + if trace.last() == a { 1nat } else { 0nat }
    }
}

/// A non-empty run of whole slots starts with the slot at `from`, followed by
/// the run that starts one slot later.
proof fn lemma_slots_first(from: int, to: int)
    requires
        whole_slots(from, to),
        from < to,
    ensures
        from + slot_size() <= to,
        whole_slots(from + slot_size(), to),
        slots_between(from, to) == seq![from] + slots_between(from + slot_size(), to),
{
    let w = slot_size();
    lemma_slot_size();
    lemma_fundamental_div_mod(to - from, w);
    let q = (to - from) / w;
    assert(q >= 1) by (nonlinear_arith)
        requires
            to - from == w * q,
            to - from > 0,
            w > 0,
    ;
    assert(to - (from + w) == (q - 1) * w) by (nonlinear_arith)
        requires
            to - from == w * q,
    ;
    lemma_mod_multiples_basic(q - 1, w);
    lemma_div_by_multiple(q - 1, w);
    let rest = slots_between(from + w, to);
    assert forall|i: int| 0 <= i < rest.len() implies rest[i] == from + (i + 1) * w by {
        assert(from + w + i * w == from + (i + 1) * w) by (nonlinear_arith);
    }
    assert(slots_between(from, to) =~= seq![from] + rest);
}

/// Two adjacent runs of whole slots make one run, in that order.
pub proof fn lemma_slots_concat(a: int, m: int, b: int)
    requires
        whole_slots(a, m),
        whole_slots(m, b),
    ensures
        whole_slots(a, b),
        slots_between(a, b) == slots_between(a, m) + slots_between(m, b),
    decreases m - a,
{
    let w = slot_size();
    lemma_slot_size();
    if a == m {
        assert(slots_between(a, m) =~= Seq::<int>::empty());
        assert(slots_between(a, b) =~= slots_between(a, m) + slots_between(m, b));
    } else {
        lemma_slots_first(a, m);
        lemma_slots_concat(a + w, m, b);
        lemma_slots_first(a, b);
        assert(slots_between(a, b) =~= slots_between(a, m) + slots_between(m, b));
    }
}

/// The constructor section: the address of its first byte and the address
/// one past its last, as the link step fixes them.
#[derive(Clone, Copy, Debug, PartialEq, Eq, Structural)]
pub struct CtorSection {
    pub start: usize,
    pub end: usize,
}

/// What the walk does next.
#[derive(Clone, Copy, Debug, PartialEq, Eq, Structural)]
pub enum WalkStep {
    /// Call the constructor whose address the slot at this address holds.
    Call(usize),
    /// Every slot has been visited.
    Done,
}

/// A walk in progress: the slots from `cursor` up to `end` are still to be
/// visited.
#[derive(Clone, Copy, Debug, PartialEq, Eq, Structural)]
pub struct SectionWalker {
    pub cursor: usize,
    pub end: usize,
}

impl CtorSection {
    /// The section spans a whole number of slots.
    pub open spec fn wf(self) -> bool {
        whole_slots(self.start as int, self.end as int)
    }

    /// The slot addresses, in section order.
    pub open spec fn slots(self) -> Seq<int> {
        slots_between(self.start as int, self.end as int)
    }

    /// The addresses of the slots whose constructors one walk of the section
    /// calls, in the order of the calls.
    pub open spec fn calls(self) -> Seq<int> {
        self.walker_spec().remaining()
    }

    /// A walk that has not started yet.
    pub open spec fn walker_spec(self) -> SectionWalker {
        SectionWalker { cursor: self.start, end: self.end }
    }

    /// The section between the two bounds, where they span a whole number of
    /// slots; `None` where `end` lies below `start` or cuts a slot in two.
    pub fn from_bounds(start: usize, end: usize) -> (r: Option<CtorSection>)
        ensures
            r is Some <==> whole_slots(start as int, end as int),
            r matches Some(s) ==> s.start == start && s.end == end,
    {
        let w = core::mem::size_of::<usize>();
        proof {
            lemma_slot_size();
        }
        if start <= end && (end - start) % w == 0 {
            Some(CtorSection { start, end })
        } else {
            None
        }
    }

    /// The number of slots.
    pub fn len(&self) -> (r: usize)
        requires
            self.wf(),
        ensures
            r == self.slots().len(),
    {
        let w = core::mem::size_of::<usize>();
        proof {
            lemma_slot_size();
        }
        (self.end - self.start) / w
    }

    /// A walk over the whole section, from its first slot.
    pub fn walker(&self) -> (r: SectionWalker)
        requires
            self.wf(),
        ensures
            r == self.walker_spec(),
            r.wf(),
            r.remaining() == self.slots(),
    {
        SectionWalker { cursor: self.start, end: self.end }
    }

    /// The slots whose constructors one invocation calls, in the order of the
    /// calls: each step of a fresh walk, until it is done.
    pub fn walk(&self) -> (r: Vec<usize>)
        requires
            self.wf(),
        ensures
            r@.map_values(|a: usize| a as int) == self.calls(),
    {
        let mut walker = self.walker();
        let mut r: Vec<usize> = Vec::new();
        loop
            invariant
                walker.wf(),
                r@.map_values(|a: usize| a as int) + walker.remaining() == self.calls(),
            decreases walker.end - walker.cursor,
        {
            let prev = walker;
            match walker.step() {
                WalkStep::Done => {
                    assert(r@.map_values(|a: usize| a as int) =~= self.calls());
                    return r;
                },
                WalkStep::Call(a) => {
                    let ghost before = r@.map_values(|a: usize| a as int);
                    r.push(a);
                    assert(r@.map_values(|a: usize| a as int) =~= before.push(a as int));
                    assert(before.push(a as int) + walker.remaining() =~= before + (seq![a as int]
                        + walker.remaining()));
                    proof {
                        lemma_slot_size();
                    }
                    assert(walker.end - walker.cursor < prev.end - prev.cursor);
                },
            }
        }
    }
}

impl SectionWalker {
    /// What is left spans a whole number of slots.
    pub open spec fn wf(self) -> bool {
        whole_slots(self.cursor as int, self.end as int)
    }

    /// The slots still to be visited, in order.
    pub open spec fn remaining(self) -> Seq<int> {
        slots_between(self.cursor as int, self.end as int)
    }

    /// Takes the next slot off the walk: `Call` with its address, after which
    /// the walk resumes one slot further, or `Done`, leaving the walk as it
    /// is, once the cursor has reached the end.
    pub fn step(&mut self) -> (r: WalkStep)
        requires
            old(self).wf(),
        ensures
            final(self).wf(),
            final(self).end == old(self).end,
            r is Done <==> old(self).remaining().len() == 0,
            r is Done ==> *final(self) == *old(self),
            r matches WalkStep::Call(a) ==> a == old(self).cursor
                && final(self).cursor == old(self).cursor + slot_size()
                && old(self).remaining() == seq![a as int] + final(self).remaining(),
    {
        proof {
            lemma_slot_size();
        }
        if self.cursor == self.end {
            assert(self.remaining() =~= Seq::<int>::empty());
            WalkStep::Done
        } else {
            proof {
                lemma_slots_first(self.cursor as int, self.end as int);
            }
            let a = self.cursor;
            self.cursor = self.cursor + core::mem::size_of::<usize>();
            WalkStep::Call(a)
        }
    }
}

/// Counting over two traces adds up.
pub proof fn lemma_count_concat(s: Seq<int>, t: Seq<int>, a: int)
    ensures
        count_of(s + t, a) == count_of(s, a) + count_of(t, a),
    decreases t.len(),
{
    if t.len() == 0 {
        assert(s + t =~= s);
    } else {
        lemma_count_concat(s, t.drop_last(), a);
        assert((s + t).drop_last() =~= s + t.drop_last());
    }
}

/// In a strictly ascending trace each address occurs at most once.
proof fn lemma_count_ascending(s: Seq<int>, a: int)
    requires
        forall|i: int, j: int| 0 <= i < j < s.len() ==> s[i] < s[j],
    ensures
        s.contains(a) ==> count_of(s, a) == 1,
        !s.contains(a) ==> count_of(s, a) == 0,
    decreases s.len(),
{
    if s.len() > 0 {
        let p = s.drop_last();
        lemma_count_ascending(p, a);
        if s.last() == a {
            assert(!p.contains(a)) by {
                if p.contains(a) {
                    let k = choose|k: int| 0 <= k < p.len() && p[k] == a;
                    assert(s[k] < s[s.len() - 1]);
                }
            }
        } else {
            assert(s.contains(a) ==> p.contains(a)) by {
                if s.contains(a) {
                    let k = choose|k: int| 0 <= k < s.len() && s[k] == a;
                    assert(p[k] == a);
                }
            }
        }
    }
}

/// The slots of a section ascend strictly.
proof fn lemma_slots_ascending(from: int, to: int)
    ensures
        forall|i: int, j: int|
            0 <= i < j < slots_between(from, to).len() ==> slots_between(from, to)[i]
                < slots_between(from, to)[j],
{
    let w = slot_size();
    lemma_slot_size();
    assert forall|i: int, j: int| 0 <= i < j < slots_between(from, to).len() implies slots_between(
        from,
        to,
    )[i] < slots_between(from, to)[j] by {
        assert(i * w < j * w) by (nonlinear_arith)
            requires
                i < j,
                w > 0,
        ;
    }
}

/// One invocation calls the slots in section order, each exactly once, and
/// nothing else: every address it calls is a slot of the section.
pub proof fn lemma_invocation_calls_each_slot_once(s: CtorSection)
    requires
        s.wf(),
    ensures
        s.calls() == s.slots(),
        forall|i: int| 0 <= i < s.slots().len() ==> count_of(s.calls(), #[trigger] s.slots()[i]) == 1,
        forall|a: int| count_of(s.calls(), a) > 0 ==> s.slots().contains(a),
{
    lemma_slots_ascending(s.start as int, s.end as int);
    assert forall|i: int| 0 <= i < s.slots().len() implies count_of(
        s.calls(),
        #[trigger] s.slots()[i],
    ) == 1 by {
        assert(s.slots().contains(s.slots()[i]));
        lemma_count_ascending(s.slots(), s.slots()[i]);
    }
    assert forall|a: int| count_of(s.calls(), a) > 0 implies s.slots().contains(a) by {
        lemma_count_ascending(s.slots(), a);
    }
}

/// With no constructor registered the section is empty, and an invocation
/// calls nothing.
pub proof fn lemma_empty_section_calls_nothing(s: CtorSection)
    requires
        s.start == s.end,
    ensures
        s.wf(),
        s.calls().len() == 0,
{
    lemma_slot_size();
    assert(s.calls() =~= Seq::<int>::empty());
}

/// Invoking twice calls every constructor twice: a second invocation walks the
/// section again from its start.
pub proof fn lemma_two_invocations_call_each_slot_twice(s: CtorSection)
    requires
        s.wf(),
    ensures
        forall|i: int|
            0 <= i < s.slots().len() ==> count_of(s.calls() + s.calls(), #[trigger] s.slots()[i]) == 2,
{
    lemma_invocation_calls_each_slot_once(s);
    assert forall|i: int| 0 <= i < s.slots().len() implies count_of(
        s.calls() + s.calls(),
        #[trigger] s.slots()[i],
    ) == 2 by {
        lemma_count_concat(s.calls(), s.calls(), s.slots()[i]);
    }
}

/// The section the link step makes of two modules' adjacent sections: one
/// invocation of it calls the first module's slots, then the second's, each
/// exactly once.
pub proof fn lemma_linked_modules_each_called_once(a: CtorSection, b: CtorSection)
    requires
        a.wf(),
        b.wf(),
        a.end == b.start,
    ensures
        (CtorSection { start: a.start, end: b.end }).wf(),
        (CtorSection { start: a.start, end: b.end }).calls() == a.calls() + b.calls(),
        forall|i: int|
            0 <= i < a.slots().len() ==> count_of(
                (CtorSection { start: a.start, end: b.end }).calls(),
                #[trigger] a.slots()[i],
            ) == 1,
        forall|i: int|
            0 <= i < b.slots().len() ==> count_of(
                (CtorSection { start: a.start, end: b.end }).calls(),
                #[trigger] b.slots()[i],
            ) == 1,
{
    let linked = CtorSection { start: a.start, end: b.end };
    lemma_slots_concat(a.start as int, a.end as int, b.end as int);
    lemma_invocation_calls_each_slot_once(linked);
    assert forall|i: int| 0 <= i < a.slots().len() implies count_of(
        linked.calls(),
        #[trigger] a.slots()[i],
    ) == 1 by {
        assert(linked.slots()[i] == a.slots()[i]);
    }
    assert forall|i: int| 0 <= i < b.slots().len() implies count_of(
        linked.calls(),
        #[trigger] b.slots()[i],
    ) == 1 by {
        assert(linked.slots()[a.slots().len() + i] == b.slots()[i]);
    }
}

/// The constructors one invocation runs, in order, where slot `i` of the
/// section holds the address `held[i]`.
pub open spec fn constructors_run(s: CtorSection, held: Seq<int>) -> Seq<int> {
    s.calls().map_values(|a: int| held[(a - s.start) / slot_size()])
}

/// One invocation runs the constructors that the slots hold, in slot order.
pub proof fn lemma_runs_what_slots_hold(s: CtorSection, held: Seq<int>)
    requires
        s.wf(),
        held.len() == s.slots().len(),
    ensures
        constructors_run(s, held) == held,
{
    let w = slot_size();
    lemma_slot_size();
    assert forall|i: int| 0 <= i < held.len() implies constructors_run(s, held)[i] == held[i] by {
        assert((s.start + i * w - s.start) == i * w);
        lemma_div_by_multiple(i, w);
    }
    assert(constructors_run(s, held) =~= held);
}

/// Two links that place the same constructors in their sections, in whatever
/// order, run the same constructors the same number of times.
pub proof fn lemma_same_constructors_run_alike(s1: CtorSection, held1: Seq<int>, s2: CtorSection, held2: Seq<int>)
    requires
        s1.wf(),
        s2.wf(),
        held1.len() == s1.slots().len(),
        held2.len() == s2.slots().len(),
        held1.to_multiset() == held2.to_multiset(),
    ensures
        constructors_run(s1, held1).to_multiset() == constructors_run(s2, held2).to_multiset(),
{
    lemma_runs_what_slots_hold(s1, held1);
    lemma_runs_what_slots_hold(s2, held2);
}

} // verus!
