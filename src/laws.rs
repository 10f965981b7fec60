use vstd::prelude::*;

use crate::compare::comparison;
use crate::error::{CompareError, NbtError, Side};
use crate::grammar::{
    array_width, be16, be32, counted_span, document, elements, is_array, is_numeric, list, members,
    numeric_width, payload, root, span_at, Step, TAG_END,
};
use crate::value::Nbt;

verus! {

/// Any document that decodes compares equal to itself, whatever member is excluded.
pub proof fn compare_reflexive(x: Seq<u8>, exclude: Option<Seq<u8>>)
    requires
        document(x) is Ok,
    ensures
        comparison(x, x, exclude) == Ok::<bool, CompareError>(true),
{
}

/// Swapping two documents that both decode does not change the answer; on any inputs it
/// does not change whether there is an answer.
pub proof fn compare_symmetric(a: Seq<u8>, b: Seq<u8>, exclude: Option<Seq<u8>>)
    ensures
        comparison(a, b, exclude) is Ok <==> comparison(b, a, exclude) is Ok,
        document(a) is Ok && document(b) is Ok ==> comparison(a, b, exclude) == comparison(
            b,
            a,
            exclude,
        ),
{
}

/// A tag id above 12 where a member's tag or a list's element tag is read is an unknown tag;
/// so is one handed to the payload decoder.
pub proof fn unknown_tag_rejected(s: Seq<u8>, p: int, tag: u8, found: Map<Seq<u8>, Nbt>)
    requires
        0 <= p <= s.len(),
    ensures
        tag > 12 ==> payload(s, p, tag) == Err::<(Nbt, int), NbtError>(NbtError::UnknownTag),
        p < s.len() && s[p] > 12 ==> members(s, p, found) == Err::<(Nbt, int), NbtError>(
            NbtError::UnknownTag,
        ),
        p + 5 <= s.len() && s[p] > 12 ==> list(s, p) == Err::<(Nbt, int), NbtError>(
            NbtError::UnknownTag,
        ),
{
}

/// An array or a numeric list whose count times its element width does not fit in `usize`
/// fails with an overflow, before any of its bytes are read.
pub proof fn overflow_rejected(s: Seq<u8>, p: int, tag: u8)
    requires
        0 <= p <= s.len(),
    ensures
        is_array(tag) && p + 4 <= s.len() && be32(s, p) * array_width(tag) > usize::MAX
            ==> payload(s, p, tag) == Err::<(Nbt, int), NbtError>(NbtError::ArithmeticOverflow),
        p + 5 <= s.len() && is_numeric(s[p]) && be32(s, p + 1) * numeric_width(s[p]) > usize::MAX
            ==> list(s, p) == Err::<(Nbt, int), NbtError>(NbtError::ArithmeticOverflow),
{
}

/// What a step on the whole input owes a step on its first `m` bytes: the same result where
/// it ends within them, else running out of input.
pub open spec fn truncated(whole: Step, cut: Step, p: int, m: int) -> bool {
    match whole {
        Ok((v, q)) => p <= q && (if q <= m {
            cut == whole
        } else {
            cut == Err::<(Nbt, int), NbtError>(NbtError::UnexpectedEndOfInput)
        }),
        Err(_) => true,
    }
}

proof fn lemma_span_prefix(s: Seq<u8>, m: int, p: int, n: int)
    requires
        0 <= p <= m <= s.len(),
        0 <= n,
    ensures
        truncated(span_at(s, p, n), span_at(s.subrange(0, m), p, n), p, m),
{
    if p + n <= m {
        assert(s.subrange(0, m).subrange(p, p + n) =~= s.subrange(p, p + n));
    }
}

proof fn lemma_counted_prefix(s: Seq<u8>, m: int, p: int, w: int)
    requires
        0 <= p <= m <= s.len(),
        0 <= w,
    ensures
        truncated(counted_span(s, p, w), counted_span(s.subrange(0, m), p, w), p, m),
{
    let t = s.subrange(0, m);
    if p + 4 <= m {
        assert(be32(t, p) == be32(s, p));
        assert(be32(s, p) * w >= 0) by (nonlinear_arith)
            requires
                be32(s, p) >= 0,
                w >= 0,
        ;
        lemma_span_prefix(s, m, p + 4, be32(s, p) * w);
    }
}

proof fn lemma_payload_prefix(s: Seq<u8>, m: int, p: int, tag: u8)
    requires
        0 <= p <= m <= s.len(),
    ensures
        truncated(payload(s, p, tag), payload(s.subrange(0, m), p, tag), p, m),
    decreases s.len() - p, 2nat, 0nat,
{
    let t = s.subrange(0, m);
    if is_numeric(tag) {
        lemma_span_prefix(s, m, p, numeric_width(tag));
    } else if is_array(tag) {
        lemma_counted_prefix(s, m, p, array_width(tag));
    } else if tag == 8 {
        if p + 2 <= m {
            assert(be16(t, p) == be16(s, p));
            lemma_span_prefix(s, m, p + 2, be16(s, p));
        }
    } else if tag == 9 {
        lemma_list_prefix(s, m, p);
    } else if tag == 10 {
        lemma_members_prefix(s, m, p, Map::empty());
    }
}

proof fn lemma_list_prefix(s: Seq<u8>, m: int, p: int)
    requires
        0 <= p <= m <= s.len(),
    ensures
        truncated(list(s, p), list(s.subrange(0, m), p), p, m),
    decreases s.len() - p, 1nat, 0nat,
{
    let t = s.subrange(0, m);
    if p + 5 <= m {
        assert(t[p] == s[p]);
        assert(be32(t, p + 1) == be32(s, p + 1));
        let tag = s[p];
        let n = be32(s, p + 1);
        if is_numeric(tag) {
            assert(n * numeric_width(tag) >= 0) by (nonlinear_arith)
                requires
                    n >= 0,
                    numeric_width(tag) >= 0,
            ;
            lemma_span_prefix(s, m, p + 5, n * numeric_width(tag));
        } else if tag != TAG_END && 1 <= tag <= 12 {
            lemma_elements_prefix(s, m, p + 5, tag, n as nat, Seq::empty());
        }
    } else if p + 5 <= s.len() {
        lemma_elements_monotone(s, p + 5, s[p], be32(s, p + 1) as nat, Seq::empty());
    }
}

proof fn lemma_elements_prefix(s: Seq<u8>, m: int, p: int, tag: u8, n: nat, done: Seq<Nbt>)
    requires
        0 <= p <= m <= s.len(),
    ensures
        truncated(elements(s, p, tag, n, done), elements(s.subrange(0, m), p, tag, n, done), p, m),
    decreases s.len() - p, 3nat, n,
{
    if n > 0 {
        lemma_payload_prefix(s, m, p, tag);
        if let Ok((v, q)) = payload(s, p, tag) {
            if p < q <= s.len() && q <= m {
                lemma_elements_prefix(s, m, q, tag, (n - 1) as nat, done.push(v));
            } else if p < q <= s.len() {
                lemma_elements_monotone(s, q, tag, (n - 1) as nat, done.push(v));
            }
        }
    }
}

proof fn lemma_elements_monotone(s: Seq<u8>, p: int, tag: u8, n: nat, done: Seq<Nbt>)
    requires
        0 <= p <= s.len(),
    ensures
        elements(s, p, tag, n, done) matches Ok((_, q)) ==> p <= q,
    decreases s.len() - p, n,
{
    if n > 0 {
        if let Ok((v, q)) = payload(s, p, tag) {
            if p < q <= s.len() {
                lemma_elements_monotone(s, q, tag, (n - 1) as nat, done.push(v));
            }
        }
    }
}

proof fn lemma_members_monotone(s: Seq<u8>, p: int, found: Map<Seq<u8>, Nbt>)
    requires
        0 <= p <= s.len(),
    ensures
        members(s, p, found) matches Ok((_, q)) ==> p < q,
    decreases s.len() - p,
{
    if p + 3 <= s.len() && s[p] != TAG_END && 1 <= s[p] <= 12 {
        let start = p + 3 + be16(s, p + 1);
        if start <= s.len() {
            if let Ok((v, q)) = payload(s, start, s[p]) {
                if p < q <= s.len() {
                    lemma_members_monotone(s, q, found.insert(s.subrange(p + 3, start), v));
                }
            }
        }
    }
}

proof fn lemma_members_prefix(s: Seq<u8>, m: int, p: int, found: Map<Seq<u8>, Nbt>)
    requires
        0 <= p <= m <= s.len(),
    ensures
        truncated(members(s, p, found), members(s.subrange(0, m), p, found), p, m),
    decreases s.len() - p, 1nat, 0nat,
{
    let t = s.subrange(0, m);
    lemma_members_monotone(s, p, found);
    if p + 1 <= m {
        assert(t[p] == s[p]);
        if s[p] != TAG_END && 1 <= s[p] <= 12 && p + 3 <= m {
            assert(be16(t, p + 1) == be16(s, p + 1));
            let start = p + 3 + be16(s, p + 1);
            if start <= m {
                assert(t.subrange(p + 3, start) =~= s.subrange(p + 3, start));
                lemma_payload_prefix(s, m, start, s[p]);
                if let Ok((v, q)) = payload(s, start, s[p]) {
                    if p < q <= s.len() {
                        let next = found.insert(s.subrange(p + 3, start), v);
                        lemma_members_monotone(s, q, next);
                        if q <= m {
                            lemma_members_prefix(s, m, q, next);
                        }
                    }
                }
            } else if start <= s.len() {
                lemma_payload_prefix(s, s.len() as int, start, s[p]);
                if let Ok((v, q)) = payload(s, start, s[p]) {
                    if p < q <= s.len() {
                        lemma_members_monotone(s, q, found.insert(s.subrange(p + 3, start), v));
                    }
                }
            }
        } else if s[p] != TAG_END && 1 <= s[p] <= 12 && p + 3 <= s.len() {
            let start = p + 3 + be16(s, p + 1);
            if start <= s.len() {
                lemma_payload_prefix(s, s.len() as int, start, s[p]);
                if let Ok((v, q)) = payload(s, start, s[p]) {
                    if p < q <= s.len() {
                        lemma_members_monotone(s, q, found.insert(s.subrange(p + 3, start), v));
                    }
                }
            }
        }
    }
}

/// Cutting at least one byte off a document that decodes to its last byte makes it fail
/// with running out of input, never with a value; so does comparing it with anything.
pub proof fn truncation_fails(s: Seq<u8>, m: int, other: Seq<u8>, exclude: Option<Seq<u8>>)
    requires
        root(s) matches Ok((_, q)) && q == s.len(),
        0 <= m < s.len(),
    ensures
        document(s.subrange(0, m)) == Err::<Nbt, NbtError>(NbtError::UnexpectedEndOfInput),
        comparison(s.subrange(0, m), other, exclude) == Err::<bool, CompareError>(
            CompareError { side: Side::Left, kind: NbtError::UnexpectedEndOfInput },
        ),
{
    let t = s.subrange(0, m);
    if m >= 3 {
        assert(t[0] == s[0]);
        assert(be16(t, 1) == be16(s, 1));
        if 3 + be16(s, 1) <= m {
            lemma_members_prefix(s, m, 3 + be16(s, 1), Map::empty());
        }
    } else if m >= 1 {
        assert(t[0] == s[0]);
    }
}

/// An error in a nested value is the error of everything around it: a member's payload, a
/// list element and the root's members each pass their failure up unchanged. With
/// `unknown_tag_rejected`, a bad tag met at any depth makes the whole document fail with it.
pub proof fn nested_errors_propagate(
    s: Seq<u8>,
    p: int,
    tag: u8,
    n: nat,
    done: Seq<Nbt>,
    found: Map<Seq<u8>, Nbt>,
    e: NbtError,
)
    requires
        0 <= p <= s.len(),
    ensures
        p + 3 <= s.len() && 1 <= s[p] <= 12 && p + 3 + be16(s, p + 1) <= s.len() && payload(
            s,
            p + 3 + be16(s, p + 1),
            s[p],
        ) == Err::<(Nbt, int), NbtError>(e) ==> members(s, p, found) == Err::<(Nbt, int), NbtError>(
            e,
        ),
        n > 0 && payload(s, p, tag) == Err::<(Nbt, int), NbtError>(e) ==> elements(
            s,
            p,
            tag,
            n,
            done,
        ) == Err::<(Nbt, int), NbtError>(e),
        p + 5 <= s.len() && 7 <= s[p] <= 12 && elements(
            s,
            p + 5,
            s[p],
            be32(s, p + 1) as nat,
            Seq::empty(),
        ) == Err::<(Nbt, int), NbtError>(e) ==> list(s, p) == Err::<(Nbt, int), NbtError>(e),
        payload(s, p, 9) == list(s, p),
        payload(s, p, 10) == members(s, p, Map::empty()),
        s.len() >= 3 && s[0] == 10 && 3 + be16(s, 1) <= s.len() && members(
            s,
            3 + be16(s, 1),
            Map::empty(),
        ) == Err::<(Nbt, int), NbtError>(e) ==> document(s) == Err::<Nbt, NbtError>(e),
{
}

/// Cutting the input short before the end tag of a compound whose members run to the last byte
/// makes decoding those members run out of input.
pub proof fn truncated_members_fail(s: Seq<u8>, p: int, found: Map<Seq<u8>, Nbt>, m: int)
    requires
        0 <= p <= m < s.len(),
        members(s, p, found) matches Ok((_, q)) && q == s.len(),
    ensures
        members(s.subrange(0, m), p, found) == Err::<(Nbt, int), NbtError>(
            NbtError::UnexpectedEndOfInput,
        ),
{
    lemma_members_prefix(s, m, p, found);
}

} // verus!
