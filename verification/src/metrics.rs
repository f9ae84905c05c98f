//! Named counters.
use vstd::prelude::*;

use crate::health::wrapped;
use crate::text::{copy, same};

verus! {

/// Something that counts what happens.
pub trait Metrics: Send + Sync {
    /// Counts one more of `name`. By default nothing is counted.
    fn inc_counter(&mut self, name: &str) {
    }
}

/// A name and how often it was counted.
pub type Count = (Seq<char>, u64);

/// How often `name` was counted.
pub open spec fn count_of(counts: Seq<Count>, name: Seq<char>) -> u64
    decreases counts.len(),
{
    if counts.len() == 0 {
        0
    } else if counts[0].0 == name {
        counts[0].1
    } else {
        count_of(counts.skip(1), name)
    }
}

/// The counts with one more of `name`.
pub open spec fn bumped(counts: Seq<Count>, name: Seq<char>) -> Seq<Count>
    decreases counts.len(),
{
    if counts.len() == 0 {
        seq![(name, 1u64)]
    } else if counts[0].0 == name {
        seq![(name, wrapped(counts[0].1, 1))] + counts.skip(1)
    } else {
        seq![counts[0]] + bumped(counts.skip(1), name)
    }
}

/// Counters in memory. They wrap.
#[derive(Debug)]
pub struct InMemoryMetrics {
    counters: Vec<(String, u64)>,
}

impl View for InMemoryMetrics {
    type V = Seq<Count>;

    closed spec fn view(&self) -> Seq<Count> {
        self.counters@.map_values(|c: (String, u64)| (c.0@, c.1))
    }
}

impl Default for InMemoryMetrics {
    fn default() -> (m: InMemoryMetrics)
        ensures
            m@ == Seq::<Count>::empty(),
    {
        let m = InMemoryMetrics { counters: Vec::new() };
        assert(m@ =~= Seq::<Count>::empty());
        m
    }
}

impl InMemoryMetrics {
    /// How often `name` was counted.
    pub fn counter(&self, name: &str) -> (n: u64)
        ensures
            n == count_of(self@, name@),
    {
        let mut i: usize = 0;
        assert(self@.skip(0) =~= self@);
        while i < self.counters.len()
            invariant
                i <= self.counters.len(),
                count_of(self@, name@) == count_of(self@.skip(i as int), name@),
            decreases self.counters.len() - i,
        {
            let ghost rest = self@.skip(i as int);
            assert(rest[0] == (self.counters@[i as int].0@, self.counters@[i as int].1));
            assert(rest.skip(1) =~= self@.skip(i + 1));
            if same(self.counters[i].0.as_str(), name) {
                return self.counters[i].1;
            }
            i = i + 1;
        }
        0
    }
}

impl Metrics for InMemoryMetrics {
    fn inc_counter(&mut self, name: &str)
        ensures
            final(self)@ == bumped(old(self)@, name@),
    {
        let ghost before = self@;
        let mut i: usize = 0;
        assert(before.skip(0) =~= before);
        assert(before.take(0) + bumped(before, name@) =~= bumped(before, name@));
        while i < self.counters.len()
            invariant
                i <= self.counters.len(),
                before == self@,
                before == old(self)@,
                bumped(before, name@) == before.take(i as int) + bumped(
                    before.skip(i as int),
                    name@,
                ),
            decreases self.counters.len() - i,
        {
            let ghost rest = before.skip(i as int);
            assert(rest[0] == (self.counters@[i as int].0@, self.counters@[i as int].1));
            if same(self.counters[i].0.as_str(), name) {
                let n: u64 = self.counters[i].1.wrapping_add(1);
                self.counters.set(i, (copy(name), n));
                assert(self@ =~= before.take(i as int) + (seq![(name@, n)] + rest.skip(1)));
                return;
            }
            proof {
                assert(rest.skip(1) =~= before.skip(i + 1));
                assert(before.take(i as int) + (seq![rest[0]] + bumped(rest.skip(1), name@))
                    =~= before.take(i + 1) + bumped(rest.skip(1), name@));
            }
            i = i + 1;
        }
        self.counters.push((copy(name), 1));
        assert(before.skip(i as int) =~= Seq::empty());
        assert(self@ =~= before.take(i as int) + seq![(name@, 1u64)]);
    }
}

/// Counting a name raises its count by one, and no other.
pub proof fn law_only_the_named_counter_moves(
    counts: Seq<Count>,
    name: Seq<char>,
    other: Seq<char>,
)
    ensures
        count_of(bumped(counts, name), name) == wrapped(count_of(counts, name), 1),
        other != name ==> count_of(bumped(counts, name), other) == count_of(counts, other),
    decreases counts.len(),
{
    let after = bumped(counts, name);
    if counts.len() == 0 {
        assert(after.skip(1) =~= counts);
    } else if counts[0].0 == name {
        assert(after.skip(1) =~= counts.skip(1));
    } else {
        law_only_the_named_counter_moves(counts.skip(1), name, other);
        assert(after.skip(1) =~= bumped(counts.skip(1), name));
    }
}

} // verus!
