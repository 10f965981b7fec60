use vstd::prelude::*;

use crate::value::{lemma_member_map, member_map, names_unique, RawValue};

verus! {

broadcast use vstd::std_specs::vec::group_vec_axioms;

/// Whether two byte strings are the same.
pub fn bytes_equal(a: &[u8], b: &[u8]) -> (r: bool)
    ensures
        r == (a@ == b@),
{
    if a.len() != b.len() {
        return false;
    }
    let mut i: usize = 0;
    while i < a.len()
        invariant
            a@.len() == b@.len(),
            i <= a@.len(),
            forall|j: int| 0 <= j < i ==> a@[j] == b@[j],
        decreases a@.len() - i,
    {
        if a[i] != b[i] {
            return false;
        }
        i = i + 1;
    }
    assert(a@ =~= b@);
    true
}

/// The index of the entry named `name`, if there is one.
pub fn find_member<'a>(entries: &Vec<(&'a [u8], RawValue<'a>)>, name: &[u8]) -> (r: Option<usize>)
    ensures
        r matches Some(j) ==> j < entries.len() && entries[j as int].0@ == name@,
        r is None ==> forall|i: int| 0 <= i < entries.len() ==> entries[i].0@ != name@,
{
    let mut i: usize = 0;
    while i < entries.len()
        invariant
            i <= entries.len(),
            forall|j: int| 0 <= j < i ==> entries[j].0@ != name@,
        decreases entries.len() - i,
    {
        if bytes_equal(entries[i].0, name) {
            return Some(i);
        }
        i = i + 1;
    }
    None
}

/// Binds `name` to `value`, replacing the entry of that name if there is one.
pub fn insert_member<'a>(
    entries: &mut Vec<(&'a [u8], RawValue<'a>)>,
    name: &'a [u8],
    value: RawValue<'a>,
)
    requires
        names_unique(old(entries)@),
    ensures
        names_unique(final(entries)@),
        member_map(*final(entries), final(entries).len() as nat) == member_map(
            *old(entries),
            old(entries).len() as nat,
        ).insert(name@, value@),
        final(entries).len() >= old(entries).len(),
        forall|i: int|
            0 <= i < final(entries).len() ==> #[trigger] final(entries)[i] == (name, value) || (i
                < old(entries).len() && final(entries)[i] == old(entries)[i]),
{
    let ghost before = *entries;
    let ghost v = value@;
    match find_member(entries, name) {
        Some(j) => {
            entries[j] = (name, value);
        },
        None => {
            entries.push((name, value));
        },
    }
    proof {
        let after = *entries;
        lemma_member_map(before, before.len() as nat);
        lemma_member_map(after, after.len() as nat);
        let m0 = member_map(before, before.len() as nat);
        let m1 = member_map(after, after.len() as nat);
        assert forall|k: Seq<u8>| #[trigger] m1.dom().contains(k) <==> m0.insert(name@, v).dom().contains(k) by {
            if m1.dom().contains(k) {
                let i = choose|i: int| 0 <= i < after.len() && after[i].0@ == k;
                if k != name@ {
                    assert(before[i].0@ == k);
                }
            }
            if m0.dom().contains(k) {
                let i = choose|i: int| 0 <= i < before.len() && before[i].0@ == k;
                assert(after[i].0@ == k);
            }
        }
        assert forall|k: Seq<u8>| #[trigger] m1.dom().contains(k) implies m1[k] == m0.insert(name@, v)[k] by {
            let i = choose|i: int| 0 <= i < after.len() && after[i].0@ == k;
            assert(m1[after[i].0@] == after[i].1@);
            if k != name@ {
                assert(before[i].0@ == k);
                assert(m0[before[i].0@] == before[i].1@);
            }
        }
        assert(m1 =~= m0.insert(name@, v));
    }
}

/// Drops the entry named `name`, if there is one.
pub fn remove_member<'a>(entries: &mut Vec<(&'a [u8], RawValue<'a>)>, name: &[u8])
    requires
        names_unique(old(entries)@),
    ensures
        names_unique(final(entries)@),
        member_map(*final(entries), final(entries).len() as nat) == member_map(
            *old(entries),
            old(entries).len() as nat,
        ).remove(name@),
        forall|i: int|
            0 <= i < final(entries).len() ==> exists|j: int|
                0 <= j < old(entries).len() && #[trigger] final(entries)[i] == old(entries)[j],
{
    let ghost before = *entries;
    match find_member(entries, name) {
        Some(j) => {
            entries.remove(j);
            proof {
                let after = *entries;
                assert forall|i: int| 0 <= i < after.len() implies exists|k: int|
                    0 <= k < before.len() && #[trigger] after[i] == before[k] by {
                    if i < j {
                        assert(after[i] == before[i]);
                    } else {
                        assert(after[i] == before[i + 1]);
                    }
                }
                assert forall|a: int, b: int| 0 <= a < b < after@.len() implies after@[a].0@
                    != after@[b].0@ by {
                    let a0 = if a < j { a } else { a + 1 };
                    let b0 = if b < j { b } else { b + 1 };
                    assert(after@[a] == before@[a0]);
                    assert(after@[b] == before@[b0]);
                }
                lemma_member_map(before, before.len() as nat);
                lemma_member_map(after, after.len() as nat);
                let m0 = member_map(before, before.len() as nat);
                let m1 = member_map(after, after.len() as nat);
                assert forall|k: Seq<u8>| #[trigger] m1.dom().contains(k) <==> m0.remove(name@).dom().contains(k) by {
                    if m1.dom().contains(k) {
                        let i = choose|i: int| 0 <= i < after.len() && after[i].0@ == k;
                        let i0 = if i < j { i } else { i + 1 };
                        assert(after[i] == before[i0]);
                        assert(before[i0].0@ == k);
                    }
                    if m0.dom().contains(k) && k != name@ {
                        let i = choose|i: int| 0 <= i < before.len() && before[i].0@ == k;
                        assert(i != j);
                        let i1 = if i < j { i } else { i - 1 };
                        assert(after[i1] == before[i]);
                        assert(after[i1].0@ == k);
                    }
                }
                assert forall|k: Seq<u8>| #[trigger] m1.dom().contains(k) implies m1[k] == m0.remove(name@)[k] by {
                    let i = choose|i: int| 0 <= i < after.len() && after[i].0@ == k;
                    let i0 = if i < j { i } else { i + 1 };
                    assert(after[i] == before[i0]);
                    assert(m1[after[i].0@] == after[i].1@);
                    assert(m0[before[i0].0@] == before[i0].1@);
                }
                assert(m1 =~= m0.remove(name@));
            }
        },
        None => {
            proof {
                lemma_member_map(before, before.len() as nat);
                let m0 = member_map(before, before.len() as nat);
                assert(!m0.dom().contains(name@));
                assert(m0 =~= m0.remove(name@));
                assert forall|i: int| 0 <= i < before.len() implies exists|k: int|
                    0 <= k < before.len() && #[trigger] before[i] == before[k] by {
                    assert(before[i] == before[i]);
                }
            }
        },
    }
}

} // verus!
