//! A weighted spawn table: random selection of what populates a location.

use vstd::prelude::*;
use vstd::string::StringExecFns;

use crate::rng::Rng;

verus! {

/// An entry in a [`RngTable`]: a name and its relative weight.
#[derive(Debug, Clone)]
pub struct RngTableEntry {
    pub name: String,
    pub weight: i32,
}

impl RngTableEntry {
    /// A new entry with the given name and weight.
    pub fn new(name: &str, weight: i32) -> (r: RngTableEntry)
        ensures
            r.name@ == name@,
            r.weight == weight,
    {
        RngTableEntry { name: String::from_str(name), weight }
    }
}

/// The sum of the weights of the first `n` entries.
pub open spec fn weights_sum(entries: Seq<RngTableEntry>, n: int) -> int
    decreases n,
{
    if n <= 0 {
        0
    } else {
        weights_sum(entries, n - 1) + entries[n - 1].weight
    }
}

/// The index of the entry a drawn value in `[1, total]` falls on: walk the
/// entries in insertion order, subtracting each weight, until the remainder
/// falls within an entry's span.
pub open spec fn spec_pick(entries: Seq<RngTableEntry>, draw: int, k: int) -> int
    decreases entries.len() - k,
{
    if k >= entries.len() {
        k
    } else if draw <= entries[k].weight {
        k
    } else {
        spec_pick(entries, draw - entries[k].weight, k + 1)
    }
}

/// A weighted table of named entries for random selection.
#[derive(Debug)]
pub struct RngTable {
    pub entries: Vec<RngTableEntry>,
    pub total_weight: i32,
}

impl RngTable {
    /// Weights are nonnegative and the cached total is their exact sum.
    pub open spec fn wf(self) -> bool {
        &&& forall|k: int| 0 <= k < self.entries@.len() ==> (#[trigger] self.entries@[k]).weight >= 0
        &&& self.total_weight == weights_sum(self.entries@, self.entries@.len() as int)
    }

    /// An empty table; rolling it yields no spawn.
    pub fn new() -> (r: RngTable)
        ensures
            r.wf(),
            r.entries@.len() == 0,
            r.total_weight == 0,
    {
        RngTable { entries: Vec::new(), total_weight: 0 }
    }

    /// Add an entry, builder style.
    pub fn add(self, name: &str, weight: i32) -> (r: RngTable)
        requires
            self.wf(),
            0 <= weight,
            self.total_weight + weight <= i32::MAX,
        ensures
            r.wf(),
            r.entries@.len() == self.entries@.len() + 1,
            r.entries@.last().name@ == name@,
            r.entries@.last().weight == weight,
            forall|k: int|
                0 <= k < self.entries@.len() ==> r.entries@[k] == self.entries@[k],
            r.total_weight == self.total_weight + weight,
    {
        let mut this = self;
        this.add_entry(RngTableEntry::new(name, weight));
        this
    }

    /// Add an entry in place.
    pub fn add_entry(&mut self, entry: RngTableEntry)
        requires
            old(self).wf(),
            0 <= entry.weight,
            old(self).total_weight + entry.weight <= i32::MAX,
        ensures
            final(self).wf(),
            final(self).entries@ == old(self).entries@.push(entry),
            final(self).total_weight == old(self).total_weight + entry.weight,
    {
        self.total_weight = self.total_weight + entry.weight;
        self.entries.push(entry);
        proof {
            assert(final(self).entries@.drop_last() =~= old(self).entries@);
            lemma_weights_sum_frame(old(self).entries@, final(self).entries@, old(
                self,
            ).entries@.len() as int);
        }
    }

    /// The entry a drawn value selects: walk the entries in insertion
    /// order, subtracting each entry's weight, until the remainder falls
    /// within an entry's span.
    pub fn pick(&self, draw: i32) -> (r: &str)
        requires
            self.wf(),
            1 <= draw <= self.total_weight,
        ensures
            ({
                let k = spec_pick(self.entries@, draw as int, 0);
                &&& 0 <= k < self.entries@.len()
                &&& r@ == self.entries@[k].name@
                &&& self.entries@[k].weight > 0
            }),
    {
        proof {
            lemma_weights_sum_nonneg(self.entries@, self.entries@.len() as int);
        }
        let mut roll = draw;
        let mut index: usize = 0;
        while index < self.entries.len()
            invariant
                self.wf(),
                index <= self.entries@.len(),
                1 <= roll,
                roll <= self.total_weight - weights_sum(self.entries@, index as int),
                spec_pick(self.entries@, draw as int, 0) == spec_pick(
                    self.entries@,
                    roll as int,
                    index as int,
                ),
            decreases self.entries@.len() - index,
        {
            let w = self.entries[index].weight;
            if roll <= w {
                return self.entries[index].name.as_str();
            }
            proof {
                lemma_weights_sum_split(
                    self.entries@,
                    index + 1,
                    self.entries@.len() as int,
                );
            }
            roll = roll - w;
            index = index + 1;
        }
        proof {
            assert(roll <= 0);
            assert(false);
        }
        ""
    }

    /// Roll the table: draw a uniform value in `[1, total_weight]` and
    /// return the entry it picks (see [`Self::pick`]). An empty table or
    /// zero total weight yields no spawn.
    pub fn roll<'a>(&'a self, rng: &mut Rng) -> (r: Option<&'a str>)
        requires
            self.wf(),
            self.total_weight < i32::MAX,
        ensures
            (r is Some) == (self.total_weight > 0),
            match r {
                Some(nm) => exists|draw: int|
                    {
                        let k = #[trigger] spec_pick(self.entries@, draw, 0);
                        &&& 1 <= draw <= self.total_weight
                        &&& 0 <= k < self.entries@.len()
                        &&& nm@ == self.entries@[k].name@
                        &&& self.entries@[k].weight > 0
                    },
                None => true,
            },
    {
        if self.total_weight == 0 {
            return None;
        }
        proof {
            lemma_weights_sum_nonneg(self.entries@, self.entries@.len() as int);
        }
        let draw = rng.roll_dice(1, self.total_weight);
        Some(self.pick(draw))
    }
}

/// Prefix sums agree on a shared prefix.
proof fn lemma_weights_sum_frame(e1: Seq<RngTableEntry>, e2: Seq<RngTableEntry>, n: int)
    requires
        n <= e1.len(),
        n <= e2.len(),
        forall|k: int| 0 <= k < n ==> e1[k] == e2[k],
    ensures
        weights_sum(e1, n) == weights_sum(e2, n),
    decreases n,
{
    if n > 0 {
        lemma_weights_sum_frame(e1, e2, n - 1);
    }
}

/// A sum of nonnegative weights is nonnegative and prefix-monotone.
proof fn lemma_weights_sum_nonneg(entries: Seq<RngTableEntry>, n: int)
    requires
        forall|k: int| 0 <= k < entries.len() ==> (#[trigger] entries[k]).weight >= 0,
        n <= entries.len(),
    ensures
        weights_sum(entries, n) >= 0,
    decreases n,
{
    if n > 0 {
        lemma_weights_sum_nonneg(entries, n - 1);
    }
}

/// The remaining weight past `n` entries is the suffix sum.
proof fn lemma_weights_sum_split(entries: Seq<RngTableEntry>, a: int, b: int)
    requires
        0 <= a <= b <= entries.len(),
        forall|k: int| 0 <= k < entries.len() ==> (#[trigger] entries[k]).weight >= 0,
    ensures
        weights_sum(entries, a) <= weights_sum(entries, b),
    decreases b - a,
{
    if a < b {
        lemma_weights_sum_split(entries, a + 1, b);
    }
}

} // verus!
