use vstd::prelude::*;

use crate::members::{bytes_equal, find_member};
use crate::value::{lemma_member_map, member_map, RawValue};

verus! {

broadcast use vstd::std_specs::vec::group_vec_axioms;

/// Deep structural equality: spans by their bytes, compounds by name regardless of order,
/// lists element by element in order.
pub fn values_equal<'a, 'b>(a: &RawValue<'a>, b: &RawValue<'b>) -> (r: bool)
    requires
        a.wf(),
        b.wf(),
    ensures
        r == (a@ == b@),
    decreases a,
{
    match a {
        RawValue::Mem(x) => match b {
            RawValue::Mem(y) => bytes_equal(x, y),
            _ => false,
        },
        RawValue::List(x) => match b {
            RawValue::List(y) => {
                if x.len() != y.len() {
                    assert(a@->Sequence_0.len() != b@->Sequence_0.len());
                    return false;
                }
                let mut i: usize = 0;
                while i < x.len()
                    invariant
                        x.len() == y.len(),
                        i <= x.len(),
                        *a == RawValue::List(*x),
                        *b == RawValue::List(*y),
                        a.wf(),
                        b.wf(),
                        forall|j: int| 0 <= j < i ==> (#[trigger] x[j])@ == y[j]@,
                    decreases x.len() - i,
                {
                    if !values_equal(&x[i], &y[i]) {
                        assert(a@->Sequence_0[i as int] != b@->Sequence_0[i as int]);
                        return false;
                    }
                    i = i + 1;
                }
                assert(a@->Sequence_0 =~= b@->Sequence_0);
                true
            },
            _ => false,
        },
        RawValue::Members(x) => match b {
            RawValue::Members(y) => {
                let ghost ma = member_map(*x, x.len() as nat);
                let ghost mb = member_map(*y, y.len() as nat);
                proof {
                    lemma_member_map(*x, x.len() as nat);
                    lemma_member_map(*y, y.len() as nat);
                }
                let mut i: usize = 0;
                while i < x.len()
                    invariant
                        i <= x.len(),
                        *a == RawValue::Members(*x),
                        *b == RawValue::Members(*y),
                        a.wf(),
                        forall|k: Seq<u8>|
                            #[trigger] ma.dom().contains(k) <==> exists|j: int|
                                0 <= j < x.len() && x[j].0@ == k,
                        forall|j: int| 0 <= j < x.len() ==> ma[#[trigger] x[j].0@] == x[j].1@,
                        forall|k: Seq<u8>|
                            #[trigger] mb.dom().contains(k) <==> exists|j: int|
                                0 <= j < y.len() && y[j].0@ == k,
                        forall|j: int| 0 <= j < y.len() ==> mb[#[trigger] y[j].0@] == y[j].1@,
                        b.wf(),
                        ma == member_map(*x, x.len() as nat),
                        mb == member_map(*y, y.len() as nat),
                        forall|j: int|
                            0 <= j < i ==> mb.dom().contains((#[trigger] x[j]).0@) && mb[x[j].0@]
                                == x[j].1@,
                    decreases x.len() - i,
                {
                    match find_member(y, x[i].0) {
                        None => {
                            assert(ma.dom().contains(x[i as int].0@));
                            assert(!mb.dom().contains(x[i as int].0@));
                            return false;
                        },
                        Some(j) => {
                            if !values_equal(&x[i].1, &y[j].1) {
                                assert(ma[x[i as int].0@] == x[i as int].1@);
                                assert(mb[y[j as int].0@] == y[j as int].1@);
                                assert(ma != mb);
                                return false;
                            }
                            assert(mb[y[j as int].0@] == y[j as int].1@);
                        },
                    }
                    i = i + 1;
                }
                let mut j: usize = 0;
                while j < y.len()
                    invariant
                        j <= y.len(),
                        *a == RawValue::Members(*x),
                        *b == RawValue::Members(*y),
                        forall|k: Seq<u8>|
                            #[trigger] ma.dom().contains(k) <==> exists|j: int|
                                0 <= j < x.len() && x[j].0@ == k,
                        forall|j: int| 0 <= j < x.len() ==> ma[#[trigger] x[j].0@] == x[j].1@,
                        forall|k: Seq<u8>|
                            #[trigger] mb.dom().contains(k) <==> exists|j: int|
                                0 <= j < y.len() && y[j].0@ == k,
                        forall|j: int| 0 <= j < y.len() ==> mb[#[trigger] y[j].0@] == y[j].1@,
                        forall|i: int|
                            0 <= i < x.len() ==> mb.dom().contains((#[trigger] x[i]).0@) && mb[x[i].0@]
                                == x[i].1@,
                        ma == member_map(*x, x.len() as nat),
                        mb == member_map(*y, y.len() as nat),
                        forall|k: int| 0 <= k < j ==> ma.dom().contains((#[trigger] y[k]).0@),
                    decreases y.len() - j,
                {
                    if find_member(x, y[j].0).is_none() {
                        assert(mb.dom().contains(y[j as int].0@));
                        assert(!ma.dom().contains(y[j as int].0@));
                        assert(ma != mb);
                        return false;
                    }
                    assert(ma.dom().contains(y[j as int].0@)) by {
                        let i = choose|i: int| 0 <= i < x.len() && x[i].0@ == y[j as int].0@;
                        assert(ma.dom().contains(x[i].0@));
                    }
                    j = j + 1;
                }
                assert forall|k: Seq<u8>| #[trigger] ma.dom().contains(k) implies mb.dom().contains(k)
                    && ma[k] == mb[k] by {
                    let i = choose|i: int| 0 <= i < x.len() && x[i].0@ == k;
                    assert(ma[x[i].0@] == x[i].1@);
                }
                assert forall|k: Seq<u8>| #[trigger] mb.dom().contains(k) implies ma.dom().contains(k) by {
                    let j = choose|j: int| 0 <= j < y.len() && y[j].0@ == k;
                    assert(ma.dom().contains(y[j].0@));
                }
                assert(ma =~= mb);
                true
            },
            _ => false,
        },
    }
}

} // verus!
