//! Sums of a ledger's amounts, month by month.

use vstd::prelude::*;

verus! {

/// One of the entries is for `month`.
pub open spec fn holds(entries: Seq<(String, i32)>, month: Seq<char>) -> bool {
    exists|i: int| 0 <= i < entries.len() && (#[trigger] entries[i]).0@ == month
}

/// No two of the entries are for the same month.
pub open spec fn distinct(entries: Seq<(String, i32)>) -> bool {
    forall|i: int, j: int|
        0 <= i < j < entries.len() ==> (#[trigger] entries[i]).0@ != (#[trigger] entries[j]).0@
}

/// The position of an entry for `month`, where there is one.
pub open spec fn position(entries: Seq<(String, i32)>, month: Seq<char>) -> int {
    choose|i: int| 0 <= i < entries.len() && (#[trigger] entries[i]).0@ == month
}

/// The sum noted under `month`: zero where no entry is for `month`.
pub open spec fn noted(entries: Seq<(String, i32)>, month: Seq<char>) -> int {
    if holds(entries, month) {
        entries[position(entries, month)].1 as int
    } else {
        0
    }
}

/// Among entries of which no two are for the same month, an entry is the one
/// that is found under its month.
pub proof fn lemma_position(entries: Seq<(String, i32)>, i: int)
    requires
        distinct(entries),
        0 <= i < entries.len(),
    ensures
        holds(entries, entries[i].0@),
        position(entries, entries[i].0@) == i,
        noted(entries, entries[i].0@) == entries[i].1,
{
    let j = position(entries, entries[i].0@);
    if j < i {
        assert(entries[j].0@ != entries[i].0@);
    } else if i < j {
        assert(entries[i].0@ != entries[j].0@);
    }
}

/// The sums of a ledger's amounts for each month, in the order in which the
/// months first came up.
///
/// The sums stand in a vector and not in a hash map, because a report goes
/// through all of them: `vstd::hash_map::StringHashMap`, the map with string
/// keys that can be reasoned about here, hands out a value for a key and has
/// no way to walk its entries. What a map would give, that no month is noted
/// twice, is `well_formed`.
pub struct MonthlyTotals {
    entries: Vec<(String, i32)>,
}

impl MonthlyTotals {
    /// The months with their sums, in the order in which the months first
    /// came up.
    pub closed spec fn entries(&self) -> Seq<(String, i32)> {
        self.entries@
    }

    /// No month is noted twice.
    pub open spec fn well_formed(&self) -> bool {
        distinct(self.entries())
    }

    /// The sum of the amounts of `month`: zero for a month that never came up.
    pub open spec fn total(&self, month: Seq<char>) -> int {
        noted(self.entries(), month)
    }

    /// Totals in which no month has come up.
    pub fn new() -> (totals: MonthlyTotals)
        ensures
            totals.well_formed(),
            totals.entries().len() == 0,
    {
        MonthlyTotals { entries: Vec::new() }
    }

    /// The months with their sums.
    pub fn as_entries(&self) -> (entries: &Vec<(String, i32)>)
        ensures
            entries@ == self.entries(),
    {
        &self.entries
    }

    /// Adds `amount` to the sum of `month` and returns the new sum. A month
    /// that comes up for the first time is noted behind the others. Where the
    /// new sum does not fit into 32 bits, nothing changes and `None` is
    /// returned.
    pub fn add(&mut self, month: &str, amount: i32) -> (sum: Option<i32>)
        requires
            old(self).well_formed(),
        ensures
            final(self).well_formed(),
            match sum {
                Some(new_sum) => {
                    &&& new_sum == old(self).total(month@) + amount
                    &&& final(self).total(month@) == new_sum
                    &&& forall|other: Seq<char>|
                        other != month@ ==> #[trigger] final(self).total(other) == old(self).total(
                            other,
                        )
                    &&& if holds(old(self).entries(), month@) {
                        final(self).entries().len() == old(self).entries().len()
                    } else {
                        final(self).entries().len() == old(self).entries().len() + 1
                            && final(self).entries().last().0@ == month@
                    }
                },
                None => {
                    &&& !(i32::MIN <= old(self).total(month@) + amount <= i32::MAX)
                    &&& final(self).entries() == old(self).entries()
                },
            },
    {
        let key = month.to_owned();
        let ghost before = self.entries@;
        let mut i: usize = 0;
        while i < self.entries.len()
            invariant
                i <= self.entries.len(),
                self.entries@ == before,
                before == old(self).entries(),
                distinct(before),
                key@ == month@,
                forall|k: int| 0 <= k < i ==> (#[trigger] before[k]).0@ != month@,
            decreases self.entries.len() - i,
        {
            if self.entries[i].0 == key {
                let current = self.entries[i].1;
                proof {
                    lemma_position(before, i as int);
                }
                match current.checked_add(amount) {
                    Some(new_sum) => {
                        self.entries[i].1 = new_sum;
                        proof {
                            lemma_updated(before, self.entries@, i as int);
                        }
                        return Some(new_sum);
                    },
                    None => {
                        return None;
                    },
                }
            }
            i += 1;
        }
        self.entries.push((key, amount));
        proof {
            lemma_pushed(before, (key, amount));
        }
        Some(amount)
    }
}

/// Changing the sum of one entry changes what is noted under its month, and
/// nothing else.
pub proof fn lemma_updated(before: Seq<(String, i32)>, after: Seq<(String, i32)>, i: int)
    requires
        distinct(before),
        0 <= i < before.len(),
        after.len() == before.len(),
        after[i].0@ == before[i].0@,
        forall|k: int| 0 <= k < before.len() && k != i ==> #[trigger] after[k] == before[k],
    ensures
        distinct(after),
        noted(after, before[i].0@) == after[i].1,
        forall|other: Seq<char>|
            other != before[i].0@ ==> #[trigger] noted(after, other) == noted(before, other),
{
    assert forall|a: int, b: int| 0 <= a < b < after.len() implies (#[trigger] after[a]).0@ != (
    #[trigger] after[b]).0@ by {
        assert(after[a].0@ == before[a].0@ && after[b].0@ == before[b].0@);
    }
    lemma_position(after, i);
    assert forall|other: Seq<char>| other != before[i].0@ implies #[trigger] noted(after, other)
        == noted(before, other) by {
        if holds(before, other) {
            let j = position(before, other);
            assert(after[j] == before[j]);
            lemma_position(before, j);
            lemma_position(after, j);
        } else if holds(after, other) {
            let j = position(after, other);
            assert(after[j].0@ == before[j].0@);
        }
    }
}

/// An entry for a new month that is put behind the others is what is noted
/// under its month, and changes nothing under the other months.
pub proof fn lemma_pushed(before: Seq<(String, i32)>, entry: (String, i32))
    requires
        distinct(before),
        forall|k: int| 0 <= k < before.len() ==> (#[trigger] before[k]).0@ != entry.0@,
    ensures
        !holds(before, entry.0@),
        noted(before, entry.0@) == 0,
        distinct(before.push(entry)),
        noted(before.push(entry), entry.0@) == entry.1,
        forall|other: Seq<char>|
            other != entry.0@ ==> #[trigger] noted(before.push(entry), other) == noted(
                before,
                other,
            ),
{
    let after = before.push(entry);
    assert forall|a: int, b: int| 0 <= a < b < after.len() implies (#[trigger] after[a]).0@ != (
    #[trigger] after[b]).0@ by {
        assert(after[a] == before[a]);
        if b < before.len() {
            assert(after[b] == before[b]);
        }
    }
    assert(after[before.len() as int] == entry);
    lemma_position(after, before.len() as int);
    assert forall|other: Seq<char>| other != entry.0@ implies #[trigger] noted(after, other)
        == noted(before, other) by {
        if holds(before, other) {
            let j = position(before, other);
            assert(after[j] == before[j]);
            lemma_position(before, j);
            lemma_position(after, j);
        } else if holds(after, other) {
            let j = position(after, other);
            assert(after[j] == before[j]);
        }
    }
}

} // verus!
