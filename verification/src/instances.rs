//! The attestation instances that are running, by relay chain parent.

use vstd::prelude::*;

use crate::primitives::{same_bytes, H256};

verus! {

/// Live agreements. Maps relay chain parent hashes to attestation instances, of which there is
/// at most one for each parent.
pub struct LiveInstances<T> {
    entries: Vec<(H256, T)>,
}

/// Whether no hash occurs twice among the entries.
spec fn distinct<T>(entries: Seq<(H256, T)>) -> bool {
    forall|i: int, j: int|
        0 <= i < j < entries.len() ==> (#[trigger] entries[i]).0 != (#[trigger] entries[j]).0
}

/// Whether some entry is for `parent`.
spec fn listed<T>(entries: Seq<(H256, T)>, parent: H256) -> bool {
    exists|i: int| 0 <= i < entries.len() && (#[trigger] entries[i]).0 == parent
}

/// The map that the entries describe.
spec fn as_map<T>(entries: Seq<(H256, T)>) -> Map<H256, T> {
    Map::new(
        |parent: H256| listed(entries, parent),
        |parent: H256|
            {
                let i = choose|i: int| 0 <= i < entries.len() && (#[trigger] entries[i]).0 == parent;
                entries[i].1
            },
    )
}

impl<T> View for LiveInstances<T> {
    type V = Map<H256, T>;

    closed spec fn view(&self) -> Map<H256, T> {
        as_map(self.entries@)
    }
}

impl<T> LiveInstances<T> {
    #[verifier::type_invariant]
    spec fn wf(self) -> bool {
        distinct(self.entries@)
    }

    /// No instances.
    pub fn new() -> (live: Self)
        ensures
            live@ == Map::<H256, T>::empty(),
    {
        let live = LiveInstances { entries: Vec::new() };
        assert(live@ =~= Map::<H256, T>::empty());
        live
    }

    /// The instance that runs on top of `parent`, if there is one.
    pub fn get(&self, parent: &H256) -> (instance: Option<&T>)
        ensures
            match instance {
                Some(tracker) => self@.contains_key(*parent) && *tracker == self@[*parent],
                None => !self@.contains_key(*parent),
            },
    {
        proof {
            use_type_invariant(self);
        }
        let position = find(&self.entries, parent);
        if position < self.entries.len() {
            proof {
                lemma_entry_in_map(self.entries@, position as int);
            }
            Some(&self.entries[position].1)
        } else {
            None
        }
    }

    /// Record the instance that runs on top of `parent`, in place of an earlier one.
    pub fn insert(&mut self, parent: H256, tracker: T)
        ensures
            final(self)@ == old(self)@.insert(parent, tracker),
    {
        proof {
            use_type_invariant(&*self);
        }
        let ghost before = self.entries@;
        let mut entries: Vec<(H256, T)> = Vec::new();
        std::mem::swap(&mut entries, &mut self.entries);
        let position = find(&entries, &parent);
        if position < entries.len() {
            entries.set(position, (parent, tracker));
        } else {
            entries.push((parent, tracker));
        }
        proof {
            lemma_insert(before, entries@, position as int, parent, tracker);
        }
        self.entries = entries;
    }

    /// Retain validation sessions matching predicate.
    pub fn retain<F: Fn(&H256) -> bool>(&mut self, pred: F)
        requires
            forall|parent: H256| #[trigger]
                old(self)@.contains_key(parent) ==> call_requires(pred, (&parent,)),
        ensures
            forall|parent: H256| #[trigger]
                final(self)@.contains_key(parent) ==> old(self)@.contains_key(parent)
                    && final(self)@[parent] == old(self)@[parent] && call_ensures(
                    pred,
                    (&parent,),
                    true,
                ),
            forall|parent: H256| #[trigger]
                old(self)@.contains_key(parent) && !final(self)@.contains_key(parent)
                    ==> call_ensures(pred, (&parent,), false),
    {
        proof {
            use_type_invariant(&*self);
        }
        let ghost before = self.entries@;
        assert(old(self)@ == as_map(before));
        let mut entries: Vec<(H256, T)> = Vec::new();
        std::mem::swap(&mut entries, &mut self.entries);
        let mut kept: Vec<(H256, T)> = Vec::new();
        while entries.len() > 0
            invariant
                distinct(before),
                entries@.len() <= before.len(),
                entries@ == before.take(entries@.len() as int),
                forall|parent: H256| #[trigger]
                    as_map(before).contains_key(parent) ==> call_requires(pred, (&parent,)),
                distinct(kept@),
                forall|k: int|
                    0 <= k < kept@.len() ==> #[trigger] before.contains(kept@[k]) && call_ensures(
                        pred,
                        (&kept@[k].0,),
                        true,
                    ),
                forall|k: int, i: int|
                    0 <= k < kept@.len() && 0 <= i < entries@.len() ==> (#[trigger] kept@[k]).0 != (
                    #[trigger] before[i]).0,
                forall|i: int|
                    entries@.len() <= i < before.len() ==> kept@.contains(#[trigger] before[i])
                        || call_ensures(pred, (&before[i].0,), false),
            decreases entries@.len(),
        {
            let ghost n = entries@.len() - 1;
            let ghost kept_before = kept@;
            if let Some(entry) = entries.pop() {
                proof {
                    assert(entry == before[n]);
                    lemma_entry_in_map(before, n);
                    assert(entries@ =~= before.take(n));
                }
                if pred(&entry.0) {
                    kept.push(entry);
                    proof {
                        assert forall|i: int| n + 1 <= i < before.len() implies kept@.contains(
                            #[trigger] before[i],
                        ) || call_ensures(pred, (&before[i].0,), false) by {
                            if kept_before.contains(before[i]) {
                                let k = choose|k: int|
                                    0 <= k < kept_before.len() && kept_before[k] == before[i];
                                assert(kept@[k] == before[i]);
                            }
                        }
                        assert(kept@[kept_before.len() as int] == before[n]);
                    }
                }
            }
        }
        proof {
            lemma_retained(before, kept@, pred);
        }
        self.entries = kept;
    }
}

/// The position of the entry for `parent`, or the number of entries if there is none.
fn find<T>(entries: &Vec<(H256, T)>, parent: &H256) -> (position: usize)
    ensures
        position <= entries@.len(),
        position < entries@.len() ==> entries@[position as int].0 == *parent,
        position == entries@.len() ==> !listed(entries@, *parent),
{
    for i in 0..entries.len()
        invariant
            forall|j: int| 0 <= j < i ==> (#[trigger] entries@[j]).0 != *parent,
    {
        if same_bytes(&entries[i].0, parent) {
            return i;
        }
    }
    entries.len()
}

proof fn lemma_entry_in_map<T>(entries: Seq<(H256, T)>, i: int)
    requires
        distinct(entries),
        0 <= i < entries.len(),
    ensures
        as_map(entries).contains_key(entries[i].0),
        as_map(entries)[entries[i].0] == entries[i].1,
{
    let parent = entries[i].0;
    assert(listed(entries, parent));
    let j = choose|j: int| 0 <= j < entries.len() && (#[trigger] entries[j]).0 == parent;
    if i < j {
        assert(entries[i].0 != entries[j].0);
    } else if j < i {
        assert(entries[j].0 != entries[i].0);
    }
}

proof fn lemma_insert<T>(
    before: Seq<(H256, T)>,
    after: Seq<(H256, T)>,
    position: int,
    parent: H256,
    tracker: T,
)
    requires
        distinct(before),
        0 <= position <= before.len(),
        position < before.len() ==> before[position].0 == parent && after == before.update(
            position,
            (parent, tracker),
        ),
        position == before.len() ==> !listed(before, parent) && after == before.push(
            (parent, tracker),
        ),
    ensures
        distinct(after),
        as_map(after) == as_map(before).insert(parent, tracker),
{
    assert forall|i: int, j: int| 0 <= i < j < after.len() implies (#[trigger] after[i]).0 != (
    #[trigger] after[j]).0 by {
        if i < before.len() && j < before.len() {
            assert(before[i].0 != before[j].0);
        }
        if position == before.len() && i < before.len() {
            assert(before[i].0 != parent);
        }
    }
    let expected = as_map(before).insert(parent, tracker);
    lemma_entry_in_map(after, position);
    assert forall|other: H256| #[trigger]
        as_map(after).contains_key(other) <==> expected.contains_key(other) by {
        if listed(before, other) && other != parent {
            let i = choose|i: int| 0 <= i < before.len() && (#[trigger] before[i]).0 == other;
            assert(after[i].0 == other);
        }
        if listed(after, other) && other != parent {
            let i = choose|i: int| 0 <= i < after.len() && (#[trigger] after[i]).0 == other;
            assert(before[i].0 == other);
        }
    }
    assert forall|other: H256| #[trigger] as_map(after).contains_key(other) implies as_map(
        after,
    )[other] == expected[other] by {
        let i = choose|i: int| 0 <= i < after.len() && (#[trigger] after[i]).0 == other;
        if other != parent {
            lemma_entry_in_map(after, i);
            lemma_entry_in_map(before, i);
        }
    }
    assert(as_map(after) =~= expected);
}

proof fn lemma_retained<T, F: Fn(&H256) -> bool>(
    before: Seq<(H256, T)>,
    kept: Seq<(H256, T)>,
    pred: F,
)
    requires
        distinct(before),
        distinct(kept),
        forall|k: int|
            0 <= k < kept.len() ==> #[trigger] before.contains(kept[k]) && call_ensures(
                pred,
                (&kept[k].0,),
                true,
            ),
        forall|i: int|
            0 <= i < before.len() ==> kept.contains(#[trigger] before[i]) || call_ensures(
                pred,
                (&before[i].0,),
                false,
            ),
    ensures
        forall|parent: H256| #[trigger]
            as_map(kept).contains_key(parent) ==> as_map(before).contains_key(parent) && as_map(
                kept,
            )[parent] == as_map(before)[parent] && call_ensures(pred, (&parent,), true),
        forall|parent: H256| #[trigger]
            as_map(before).contains_key(parent) && !as_map(kept).contains_key(parent)
                ==> call_ensures(pred, (&parent,), false),
{
    assert forall|parent: H256| #[trigger] as_map(kept).contains_key(parent) implies as_map(
        before,
    ).contains_key(parent) && as_map(kept)[parent] == as_map(before)[parent] && call_ensures(
        pred,
        (&parent,),
        true,
    ) by {
        let k = choose|k: int| 0 <= k < kept.len() && (#[trigger] kept[k]).0 == parent;
        assert(before.contains(kept[k]));
        let i = choose|i: int| 0 <= i < before.len() && before[i] == kept[k];
        lemma_entry_in_map(kept, k);
        lemma_entry_in_map(before, i);
    }
    assert forall|parent: H256| #[trigger]
        as_map(before).contains_key(parent) && !as_map(kept).contains_key(parent) implies call_ensures(
        pred,
        (&parent,),
        false,
    ) by {
        let i = choose|i: int| 0 <= i < before.len() && (#[trigger] before[i]).0 == parent;
        if kept.contains(before[i]) {
            let k = choose|k: int| 0 <= k < kept.len() && kept[k] == before[i];
            assert(kept[k].0 == parent);
        }
    }
}

} // verus!
