//! Milestone signing-key ranges and the query surface over them.
//!
//! A key range authorizes one public key for a closed interval of milestone
//! indexes. The authority holds an immutable snapshot of ranges ordered by
//! start index alone — an explicit comparator, deliberately not the full
//! tuple, so ranges sharing a start but differing in end or key are all
//! retained. Replacing the key set means building a whole new snapshot.

use vstd::prelude::*;

verus! {

/// The position of a milestone in the sequence of issued milestones.
#[derive(Clone, Copy, Debug, PartialEq, Eq, Structural)]
pub struct MilestoneIndex(pub u32);

/// The mathematical content of a key range.
pub struct MilestoneKeyRangeView {
    /// The public key, as characters.
    pub public_key: Seq<char>,
    /// Inclusive start index.
    pub start: u32,
    /// Inclusive end index.
    pub end: u32,
}

/// A milestone public key valid for a closed interval of milestone indexes.
#[derive(Debug)]
pub struct MilestoneKeyRange {
    public_key: String,
    start: MilestoneIndex,
    end: MilestoneIndex,
}

impl View for MilestoneKeyRange {
    type V = MilestoneKeyRangeView;

    closed spec fn view(&self) -> MilestoneKeyRangeView {
        MilestoneKeyRangeView {
            public_key: self.public_key@,
            start: self.start.0,
            end: self.end.0,
        }
    }
}

impl Clone for MilestoneKeyRange {
    /// An equal, independent copy.
    fn clone(&self) -> (r: Self)
        ensures
            r == *self,
    {
        MilestoneKeyRange {
            public_key: self.public_key.clone(),
            start: self.start,
            end: self.end,
        }
    }
}

impl MilestoneKeyRange {
    /// Creates a new key range with inclusive bounds.
    pub fn new(public_key: String, start: MilestoneIndex, end: MilestoneIndex) -> (r:
        MilestoneKeyRange)
        ensures
            r@ == (MilestoneKeyRangeView { public_key: public_key@, start: start.0, end: end.0 }),
    {
        MilestoneKeyRange { public_key, start, end }
    }

    /// The public key of the range.
    pub fn public_key(&self) -> (r: &String)
        ensures
            r@ == self@.public_key,
    {
        &self.public_key
    }

    /// The inclusive start index of the range.
    pub fn start(&self) -> (r: MilestoneIndex)
        ensures
            r.0 == self@.start,
    {
        self.start
    }

    /// The inclusive end index of the range.
    pub fn end(&self) -> (r: MilestoneIndex)
        ensures
            r.0 == self@.end,
    {
        self.end
    }
}

/// Whether a range's closed interval contains a milestone index.
pub open spec fn covers(kr: MilestoneKeyRange, index: u32) -> bool {
    kr@.start <= index <= kr@.end
}

/// Whether ranges are ordered by start index alone.
pub open spec fn sorted_by_start(s: Seq<MilestoneKeyRange>) -> bool {
    forall|i: int, j: int|
        0 <= i < j < s.len() ==> (#[trigger] s[i])@.start <= (#[trigger] s[j])@.start
}

/// The subsequence of ranges whose interval contains the index, in stored
/// order.
pub open spec fn active_ranges(s: Seq<MilestoneKeyRange>, index: u32) -> Seq<MilestoneKeyRange> {
    s.filter(|kr: MilestoneKeyRange| covers(kr, index))
}

/// Extending a scan by one range extends its active set by that range
/// exactly when the range covers the index.
proof fn lemma_active_take_step(s: Seq<MilestoneKeyRange>, index: u32, i: int)
    requires
        0 <= i < s.len(),
    ensures
        active_ranges(s.take(i + 1), index) == active_ranges(s.take(i), index) + (if covers(
            s[i],
            index,
        ) {
            seq![s[i]]
        } else {
            Seq::<MilestoneKeyRange>::empty()
        }),
{
    reveal(Seq::filter);
    assert(s.take(i + 1).drop_last() =~= s.take(i));
    assert(s.take(i + 1).last() == s[i]);
    if covers(s[i], index) {
        assert(active_ranges(s.take(i + 1), index) =~= active_ranges(s.take(i), index) + seq![
            s[i],
        ]);
    } else {
        assert(active_ranges(s.take(i + 1), index) =~= active_ranges(s.take(i), index)
            + Seq::<MilestoneKeyRange>::empty());
    }
}

/// When no range at or past a position covers the index, scanning the
/// prefix already yields the whole active set.
proof fn lemma_active_no_match(s: Seq<MilestoneKeyRange>, index: u32, i: int)
    requires
        0 <= i <= s.len(),
        forall|k: int| i <= k < s.len() ==> !covers(#[trigger] s[k], index),
    ensures
        active_ranges(s, index) == active_ranges(s.take(i), index),
    decreases s.len() - i,
{
    if i == s.len() {
        assert(s.take(i) =~= s);
    } else {
        lemma_active_no_match(s, index, i + 1);
        lemma_active_take_step(s, index, i);
        assert(active_ranges(s.take(i + 1), index) =~= active_ranges(s.take(i), index));
    }
}

/// The configured signing-key ranges, held as an immutable snapshot ordered
/// by start index; populated once from configuration and only queried
/// thereafter. Replacing the key set means constructing a new authority.
pub struct KeyRangeAuthority {
    ranges: Vec<MilestoneKeyRange>,
}

/// Inserts a range before the first stored range with a greater start,
/// keeping the snapshot ordered by start index.
fn sorted_insert(ranges: &mut Vec<MilestoneKeyRange>, item: MilestoneKeyRange)
    requires
        sorted_by_start(old(ranges)@),
    ensures
        sorted_by_start(final(ranges)@),
        final(ranges)@.to_multiset() == old(ranges)@.to_multiset().insert(item),
{
    let n = ranges.len();
    let mut i: usize = 0;
    while i < n && ranges[i].start.0 <= item.start.0
        invariant
            i <= n,
            n == ranges@.len(),
            ranges@ == old(ranges)@,
            forall|j: int| 0 <= j < i ==> (#[trigger] ranges@[j])@.start <= item@.start,
        decreases n - i,
    {
        i = i + 1;
    }
    proof {
        old(ranges)@.insert_ensures(i as int, item);
        vstd::seq_lib::to_multiset_insert(old(ranges)@, i as int, item);
    }
    ranges.insert(i, item);
    proof {
        let s = ranges@;
        assert forall|a: int, b: int| 0 <= a < b < s.len() implies (#[trigger] s[a])@.start <= (
        #[trigger] s[b])@.start by {
            if a < i && b == i {
                assert(s[a] == old(ranges)@[a]);
            } else if a == i && b > i {
                assert(s[b] == old(ranges)@[b - 1]);
                assert(old(ranges)@[i as int]@.start <= old(ranges)@[b - 1]@.start);
            }
        }
    }
}

impl KeyRangeAuthority {
    /// The stored ranges, in their sorted order.
    pub closed spec fn ranges_seq(&self) -> Seq<MilestoneKeyRange> {
        self.ranges@
    }

    /// The snapshot's invariant: ranges ordered by start index.
    pub open spec fn well_formed(&self) -> bool {
        sorted_by_start(self.ranges_seq())
    }

    /// Builds the authority from configured ranges, ordering them by start
    /// index; every supplied range is retained, including ranges that share
    /// a start.
    pub fn new(ranges: Vec<MilestoneKeyRange>) -> (r: KeyRangeAuthority)
        ensures
            r.well_formed(),
            r.ranges_seq().to_multiset() == ranges@.to_multiset(),
    {
        let n = ranges.len();
        let mut stored: Vec<MilestoneKeyRange> = Vec::new();
        proof {
            assert(ranges@.take(0) =~= Seq::<MilestoneKeyRange>::empty());
        }
        let mut i: usize = 0;
        while i < n
            invariant
                i <= n,
                n == ranges@.len(),
                sorted_by_start(stored@),
                stored@.to_multiset() == ranges@.take(i as int).to_multiset(),
            decreases n - i,
        {
            let item = ranges[i].clone();
            sorted_insert(&mut stored, item);
            proof {
                assert(ranges@.take(i + 1) =~= ranges@.take(i as int).push(ranges@[i as int]));
                vstd::seq_lib::to_multiset_build(ranges@.take(i as int), ranges@[i as int]);
            }
            i = i + 1;
        }
        proof {
            assert(ranges@.take(n as int) =~= ranges@);
        }
        KeyRangeAuthority { ranges: stored }
    }

    /// Number of configured ranges.
    pub fn len(&self) -> (r: usize)
        ensures
            r == self.ranges_seq().len(),
    {
        self.ranges.len()
    }

    /// The range at a position in the sorted order.
    pub fn get(&self, index: usize) -> (r: &MilestoneKeyRange)
        requires
            index < self.ranges_seq().len(),
        ensures
            *r == self.ranges_seq()[index as int],
    {
        &self.ranges[index]
    }

    /// Returns every configured range whose closed interval contains the
    /// index, in stored order. Ordering is by start alone, so each
    /// candidate's end is checked individually; the scan stops once a start
    /// lies past the index. An empty result is the normal state when no key
    /// covers the index.
    pub fn lookup_active_keys(&self, index: MilestoneIndex) -> (r: Vec<MilestoneKeyRange>)
        requires
            self.well_formed(),
        ensures
            r@ == active_ranges(self.ranges_seq(), index.0),
    {
        let mut result: Vec<MilestoneKeyRange> = Vec::new();
        let n = self.ranges.len();
        let mut i: usize = 0;
        while i < n && self.ranges[i].start.0 <= index.0
            invariant
                i <= n,
                n == self.ranges_seq().len(),
                self.well_formed(),
                result@ == active_ranges(self.ranges_seq().take(i as int), index.0),
            decreases n - i,
        {
            let kr = &self.ranges[i];
            if kr.end.0 >= index.0 {
                result.push(kr.clone());
            }
            proof {
                lemma_active_take_step(self.ranges_seq(), index.0, i as int);
            }
            i = i + 1;
        }
        proof {
            if i < n {
                assert(self.ranges_seq()[i as int]@.start > index.0);
                assert forall|k: int| i <= k < n implies !covers(
                    #[trigger] self.ranges_seq()[k],
                    index.0,
                ) by {
                    if k > i {
                        assert(self.ranges_seq()[i as int]@.start <= self.ranges_seq()[k]@.start);
                    }
                }
                lemma_active_no_match(self.ranges_seq(), index.0, i as int);
            } else {
                assert(self.ranges_seq().take(n as int) =~= self.ranges_seq());
            }
        }
        result
    }
}

} // verus!
