use vstd::prelude::*;

verus! {

broadcast use vstd::std_specs::vec::group_vec_axioms;

/// The mathematical meaning of a decoded value.
pub enum Nbt {
    /// The bytes of a payload that is compared verbatim.
    Span(Seq<u8>),
    /// The members of a compound, by name.
    Compound(Map<Seq<u8>, Nbt>),
    /// The elements of a list, in order.
    Sequence(Seq<Nbt>),
}

/// A decoded value that borrows every payload from the input buffer.
pub enum RawValue<'a> {
    /// A payload compared byte for byte.
    Mem(&'a [u8]),
    /// The members of a compound, each name at most once, in no meaningful order.
    Members(Vec<(&'a [u8], RawValue<'a>)>),
    /// The elements of a list, in order.
    List(Vec<RawValue<'a>>),
}

/// The map that the first `n` entries of `m` denote: a later entry wins over an earlier one.
pub open spec fn member_map<'a>(m: Vec<(&'a [u8], RawValue<'a>)>, n: nat) -> Map<
    Seq<u8>,
    Nbt,
>
    decreases m, 0nat, n,
{
    if n == 0 || n > m.len() {
        Map::empty()
    } else {
        member_map(m, (n - 1) as nat).insert(m[n - 1].0@, m[n - 1].1.view())
    }
}

/// No two entries share a name.
pub open spec fn names_unique<'a>(m: Seq<(&'a [u8], RawValue<'a>)>) -> bool {
    forall|i: int, j: int| 0 <= i < j < m.len() ==> m[i].0@ != m[j].0@
}

impl<'a> RawValue<'a> {
    pub open spec fn view(&self) -> Nbt
        decreases self, 1nat, 0nat,
    {
        match self {
            RawValue::Mem(s) => Nbt::Span(s@),
            RawValue::Members(m) => Nbt::Compound(member_map(*m, m.len() as nat)),
            RawValue::List(v) => Nbt::Sequence(
                Seq::new(
                    v.len() as nat,
                    |i: int|
                        if 0 <= i < v.len() {
                            v[i].view()
                        } else {
                            Nbt::Span(Seq::empty())
                        },
                ),
            ),
        }
    }

    /// Every compound in the tree holds each name at most once.
    pub open spec fn wf(&self) -> bool
        decreases self,
    {
        match self {
            RawValue::Mem(_) => true,
            RawValue::Members(m) => names_unique(m@) && forall|i: int|
                0 <= i < m.len() ==> (#[trigger] m[i]).1.wf(),
            RawValue::List(v) => forall|i: int| 0 <= i < v.len() ==> (#[trigger] v[i]).wf(),
        }
    }
}

/// A list denotes the sequence of its elements' meanings.
pub proof fn lemma_list_view<'a>(v: Vec<RawValue<'a>>, s: Seq<Nbt>)
    requires
        s.len() == v.len(),
        forall|i: int| 0 <= i < v.len() ==> #[trigger] s[i] == v[i]@,
    ensures
        RawValue::List(v)@ == Nbt::Sequence(s),
{
    let t = RawValue::List(v)@->Sequence_0;
    assert(s =~= t);
}

/// With distinct names, the map holds exactly the entries' names, each with its entry's value.
pub proof fn lemma_member_map<'a>(m: Vec<(&'a [u8], RawValue<'a>)>, n: nat)
    requires
        n <= m.len(),
        names_unique(m@),
    ensures
        forall|k: Seq<u8>|
            #[trigger] member_map(m, n).dom().contains(k) <==> exists|i: int|
                0 <= i < n && m[i].0@ == k,
        forall|i: int| 0 <= i < n ==> member_map(m, n)[#[trigger] m[i].0@] == m[i].1@,
    decreases n,
{
    if n > 0 {
        lemma_member_map(m, (n - 1) as nat);
        let prev = member_map(m, (n - 1) as nat);
        assert forall|k: Seq<u8>| #[trigger]
            member_map(m, n).dom().contains(k) <==> exists|i: int| 0 <= i < n && m[i].0@ == k by {
            if k == m[n - 1].0@ {
                assert(m[n - 1].0@ == k);
            } else if prev.dom().contains(k) {
                let i = choose|i: int| 0 <= i < n - 1 && m[i].0@ == k;
                assert(0 <= i < n && m[i].0@ == k);
            }
        }
        assert forall|i: int| 0 <= i < n implies member_map(m, n)[#[trigger] m[i].0@]
            == m[i].1@ by {
            if i < n - 1 {
                assert(m@[i].0@ != m@[n - 1].0@);
            }
        }
    }
}

} // verus!
