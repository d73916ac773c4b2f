//! Identity tagging: dense small-integer ids, assigned per named group in
//! registration order, for use as wire type markers.

use vstd::prelude::*;

verus! {

/// Data type used to represent unique IDs.
pub type Id = u8;

/// Data type used to represent component kind IDs.
pub type CompId = u8;

/// Used to provide a unique ID number per registered type.
pub trait UniqId {
    fn id() -> Id;
}

/// Used to provide every component kind a unique ID number.
pub trait UniqCompId {
    fn id() -> CompId;
}

/// The most registrations one group can hold; the id that would reach this
/// bound is never assigned.
pub const GROUP_LIMIT: u8 = 255;

/// Append-only counters keyed by group name. The first registration in a
/// group gets id 0, the next 1, and so on; ids are never reused and distinct
/// groups count independently.
pub struct IdRegistry {
    groups: Vec<(String, u8)>,
}

impl IdRegistry {
    /// The registered (group name, next id) pairs.
    closed spec fn pairs(&self) -> Seq<(String, u8)> {
        self.groups@
    }

    /// Internal invariant: one counter per group name.
    pub closed spec fn wf(&self) -> bool {
        forall|k1: int, k2: int|
            0 <= k1 < k2 < self.pairs().len() ==> (#[trigger] self.pairs()[k1]).0@ != (
            #[trigger] self.pairs()[k2]).0@
    }

    /// How many ids have been assigned in `group` so far (0 for a group
    /// never seen); this is also the id the next registration would get.
    pub closed spec fn spec_count(&self, group: Seq<char>) -> int {
        if exists|k: int| 0 <= k < self.pairs().len() && (#[trigger] self.pairs()[k]).0@ == group {
            let k = choose|k: int|
                0 <= k < self.pairs().len() && (#[trigger] self.pairs()[k]).0@ == group;
            self.pairs()[k].1 as int
        } else {
            0
        }
    }

    pub fn new() -> (r: Self)
        ensures
            r.wf(),
            forall|g: Seq<char>| r.spec_count(g) == 0,
    {
        Self { groups: Vec::new() }
    }

    /// How many ids have been assigned in `group` so far.
    pub fn group_count(&self, group: &String) -> (r: u8)
        requires
            self.wf(),
        ensures
            r as int == self.spec_count(group@),
    {
        let n = self.groups.len();
        for i in 0..n
            invariant
                self.wf(),
                n == self.pairs().len(),
                forall|k: int| 0 <= k < i ==> (#[trigger] self.pairs()[k]).0@ != group@,
        {
            if self.groups[i].0 == *group {
                proof {
                    lemma_count_at(self, group@, i as int);
                }
                return self.groups[i].1;
            }
        }
        0
    }

    /// Assigns the next id in `group`: the count of earlier registrations in
    /// that group. Counters of all other groups are untouched. The group must
    /// not have exhausted its id space (`GROUP_LIMIT`); a caller that cannot
    /// know this checks `group_count` first.
    pub fn assign(&mut self, group: &String) -> (r: u8)
        requires
            old(self).wf(),
            old(self).spec_count(group@) < GROUP_LIMIT,
        ensures
            final(self).wf(),
            r as int == old(self).spec_count(group@),
            final(self).spec_count(group@) == old(self).spec_count(group@) + 1,
            forall|g: Seq<char>|
                g != group@ ==> final(self).spec_count(g) == old(self).spec_count(g),
    {
        let n = self.groups.len();
        for i in 0..n
            invariant
                self.wf(),
                *self == *old(self),
                old(self).spec_count(group@) < GROUP_LIMIT,
                n == self.pairs().len(),
                forall|k: int| 0 <= k < i ==> (#[trigger] self.pairs()[k]).0@ != group@,
        {
            if self.groups[i].0 == *group {
                proof {
                    lemma_count_at(self, group@, i as int);
                }
                let c = self.groups[i].1;
                let name = self.groups[i].0.clone();
                self.groups[i] = (name, c + 1);
                proof {
                    lemma_count_at(self, group@, i as int);
                    assert forall|g: Seq<char>| g != group@ implies self.spec_count(g) == old(
                        self,
                    ).spec_count(g) by {
                        lemma_count_elsewhere(old(self), self, g, i as int);
                    }
                }
                return c;
            }
        }
        self.groups.push((group.clone(), 1));
        proof {
            let m = self.pairs().len() - 1;
            assert(self.pairs()[m].0@ == group@);
            assert forall|k1: int, k2: int|
                0 <= k1 < k2 < self.pairs().len() implies (#[trigger] self.pairs()[k1]).0@ != (
            #[trigger] self.pairs()[k2]).0@ by {
                if k2 == m {
                    assert(old(self).pairs()[k1] == self.pairs()[k1]);
                } else {
                    assert(old(self).pairs()[k1] == self.pairs()[k1]);
                    assert(old(self).pairs()[k2] == self.pairs()[k2]);
                }
            }
            lemma_count_at(self, group@, m);
            assert forall|g: Seq<char>| g != group@ implies self.spec_count(g) == old(
                self,
            ).spec_count(g) by {
                lemma_count_elsewhere(old(self), self, g, m);
            }
        }
        0
    }
}

/// The counter at a position with a matching name is the group's count.
proof fn lemma_count_at(r: &IdRegistry, group: Seq<char>, i: int)
    requires
        r.wf(),
        0 <= i < r.pairs().len(),
        r.pairs()[i].0@ == group,
    ensures
        r.spec_count(group) == r.pairs()[i].1 as int,
{
    assert(r.pairs()[i].0@ == group);
    let k = choose|k: int| 0 <= k < r.pairs().len() && (#[trigger] r.pairs()[k]).0@ == group;
    if k < i {
        assert(r.pairs()[k].0@ != r.pairs()[i].0@);
    } else if i < k {
        assert(r.pairs()[i].0@ != r.pairs()[k].0@);
    }
    assert(k == i);
}

/// A change confined to position `i` leaves every other group's count alone.
proof fn lemma_count_elsewhere(before: &IdRegistry, after: &IdRegistry, g: Seq<char>, i: int)
    requires
        before.wf(),
        after.wf(),
        before.pairs().len() <= after.pairs().len(),
        0 <= i < after.pairs().len(),
        after.pairs().len() <= before.pairs().len() + 1,
        after.pairs().len() == before.pairs().len() || i == before.pairs().len(),
        forall|k: int|
            0 <= k < before.pairs().len() && k != i ==> #[trigger] after.pairs()[k] == before.pairs()[k],
        g != before.pairs()[i].0@ || i >= before.pairs().len(),
        g != after.pairs()[i].0@,
    ensures
        after.spec_count(g) == before.spec_count(g),
{
    if exists|k: int| 0 <= k < before.pairs().len() && (#[trigger] before.pairs()[k]).0@ == g {
        let k = choose|k: int|
            0 <= k < before.pairs().len() && (#[trigger] before.pairs()[k]).0@ == g;
        assert(k != i);
        assert(after.pairs()[k].0@ == g);
        let k2 = choose|k2: int|
            0 <= k2 < after.pairs().len() && (#[trigger] after.pairs()[k2]).0@ == g;
        if k2 < k {
            assert(after.pairs()[k2].0@ != after.pairs()[k].0@);
        } else if k < k2 {
            assert(after.pairs()[k].0@ != after.pairs()[k2].0@);
        }
        assert(k2 == k);
    } else {
        if exists|k: int| 0 <= k < after.pairs().len() && (#[trigger] after.pairs()[k]).0@ == g {
            let k = choose|k: int|
                0 <= k < after.pairs().len() && (#[trigger] after.pairs()[k]).0@ == g;
            assert(k != i);
            assert(before.pairs()[k].0@ == g);
        }
    }
}

} // verus!
