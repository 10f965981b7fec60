use vstd::prelude::*;

use crate::cursor::Cursor;
use crate::error::NbtError;
use crate::grammar::{
    array_width, counted_span, document, elements, is_array, is_numeric, list, members, numeric_width, payload,
    Step, TAG_BYTE_ARRAY, TAG_COMPOUND, TAG_END, TAG_INT_ARRAY, TAG_LIST, TAG_LONG_ARRAY, TAG_STRING,
};
use crate::members::insert_member;
use crate::value::{lemma_list_view, member_map, names_unique, Nbt, RawValue};

verus! {

broadcast use vstd::std_specs::vec::group_vec_axioms;

/// What a decoder that started at `c0` owes: the step that the grammar takes there,
/// with the cursor left after it.
pub open spec fn decoded<'a>(
    step: Step,
    c0: Cursor<'a>,
    c1: Cursor<'a>,
    r: Result<RawValue<'a>, NbtError>,
) -> bool {
    &&& c1.wf()
    &&& c1.data == c0.data
    &&& match step {
        Ok((v, q)) => r matches Ok(x) && x@ == v && x.wf() && c1.pos == q && c1.pos > c0.pos,
        Err(e) => r matches Err(e1) && e1 == e && c1.pos >= c0.pos,
    }
}

/// The payload width of a numeric tag.
pub fn numeric_width_of(tag: u8) -> (w: usize)
    requires
        is_numeric(tag),
    ensures
        w == numeric_width(tag),
{
    match tag {
        1 => 1,
        2 => 2,
        3 | 5 => 4,
        _ => 8,
    }
}

/// The element width of an array tag.
pub fn array_width_of(tag: u8) -> (w: usize)
    requires
        is_array(tag),
    ensures
        w == array_width(tag),
{
    match tag {
        TAG_BYTE_ARRAY => 1,
        TAG_INT_ARRAY => 4,
        _ => 8,
    }
}

/// A 4-byte count, then that many elements of `width` bytes as one span.
pub fn decode_counted<'a>(c: &mut Cursor<'a>, width: usize) -> (r: Result<&'a [u8], NbtError>)
    requires
        old(c).wf(),
    ensures
        final(c).wf(),
        final(c).data == old(c).data,
        match counted_span(old(c).data@, old(c).pos as int, width as int) {
            Ok((Nbt::Span(b), q)) => r matches Ok(x) && x@ == b && final(c).pos == q,
            Ok(_) => false,
            Err(e) => r matches Err(e1) && e1 == e && final(c).pos >= old(c).pos,
        },
{
    let count = c.read_u32()?;
    match (count as usize).checked_mul(width) {
        Some(len) => c.take(len),
        None => Err(NbtError::ArithmeticOverflow),
    }
}

/// Decodes the payload of a value of type `tag`.
pub fn decode_payload<'a>(c: &mut Cursor<'a>, tag: u8) -> (r: Result<RawValue<'a>, NbtError>)
    requires
        old(c).wf(),
    ensures
        decoded(payload(old(c).data@, old(c).pos as int, tag), *old(c), *final(c), r),
    decreases old(c).remaining(), 2nat, 0nat,
{
    if 1 <= tag && tag <= 6 {
        let b = c.take(numeric_width_of(tag))?;
        Ok(RawValue::Mem(b))
    } else if tag == TAG_BYTE_ARRAY || tag == TAG_INT_ARRAY || tag == TAG_LONG_ARRAY {
        let b = decode_counted(c, array_width_of(tag))?;
        Ok(RawValue::Mem(b))
    } else if tag == TAG_STRING {
        let len = c.read_u16()?;
        let b = c.take(len as usize)?;
        Ok(RawValue::Mem(b))
    } else if tag == TAG_LIST {
        decode_list(c)
    } else if tag == TAG_COMPOUND {
        decode_compound(c)
    } else {
        Err(NbtError::UnknownTag)
    }
}

/// Decodes a list: its element tag, its count, then its elements.
/// Numeric elements are kept as one span of bytes. An end-tag list must have count 0 and is
/// the empty sequence, so it equals an empty list of compounds, strings, lists or arrays, but
/// not an empty numeric list, which is an empty span.
pub fn decode_list<'a>(c: &mut Cursor<'a>) -> (r: Result<RawValue<'a>, NbtError>)
    requires
        old(c).wf(),
    ensures
        decoded(list(old(c).data@, old(c).pos as int), *old(c), *final(c), r),
    decreases old(c).remaining(), 1nat, 0nat,
{
    let ghost s = c.data@;
    let ghost p = c.pos as int;
    let tag = c.read_u8()?;
    let count = c.read_u32()?;
    if 1 <= tag && tag <= 6 {
        let b = match (count as usize).checked_mul(numeric_width_of(tag)) {
            Some(len) => c.take(len)?,
            None => return Err(NbtError::ArithmeticOverflow),
        };
        return Ok(RawValue::Mem(b));
    }
    if tag == TAG_END {
        if count == 0 {
            let empty: Vec<RawValue<'a>> = Vec::new();
            proof {
                lemma_list_view(empty, Seq::empty());
            }
            return Ok(RawValue::List(empty));
        }
        return Err(NbtError::UnknownTag);
    }
    if tag > TAG_LONG_ARRAY {
        return Err(NbtError::UnknownTag);
    }
    // Each element takes at least one byte, so what remains bounds the count that can succeed.
    let left = c.data.len() - c.pos;
    let cap = if (count as usize) < left { count as usize } else { left };
    let mut items: Vec<RawValue<'a>> = Vec::with_capacity(cap);
    let ghost done: Seq<Nbt> = Seq::empty();
    let mut i: u32 = 0;
    while i < count
        invariant
            c.wf(),
            c.data == old(c).data,
            c.data@ == s,
            p + 5 <= c.pos,
            old(c).pos == p,
            old(c).data@ == s,
            i <= count,
            1 <= tag <= 12,
            done.len() == items.len(),
            forall|j: int| 0 <= j < items.len() ==> (#[trigger] items[j])@ == done[j] && items[j].wf(),
            list(s, p) == elements(s, c.pos as int, tag, (count - i) as nat, done),
        decreases count - i,
    {
        let v = decode_payload(c, tag)?;
        proof {
            done = done.push(v@);
        }
        items.push(v);
        i = i + 1;
    }
    proof {
        lemma_list_view(items, done);
    }
    Ok(RawValue::List(items))
}

/// Decodes the members of a compound up to and including its end tag.
pub fn decode_compound<'a>(c: &mut Cursor<'a>) -> (r: Result<RawValue<'a>, NbtError>)
    requires
        old(c).wf(),
    ensures
        decoded(members(old(c).data@, old(c).pos as int, Map::empty()), *old(c), *final(c), r),
    decreases old(c).remaining(), 1nat, 0nat,
{
    let ghost s = c.data@;
    let ghost p = c.pos as int;
    let mut entries: Vec<(&'a [u8], RawValue<'a>)> = Vec::new();
    loop
        invariant
            c.wf(),
            c.data == old(c).data,
            c.data@ == s,
            p <= c.pos,
            old(c).pos == p,
            old(c).data@ == s,
            names_unique(entries@),
            forall|j: int| 0 <= j < entries.len() ==> (#[trigger] entries[j]).1.wf(),
            members(s, p, Map::empty()) == members(
                s,
                c.pos as int,
                member_map(entries, entries.len() as nat),
            ),
        decreases c.data@.len() - c.pos,
    {
        let tag = c.read_u8()?;
        if tag == TAG_END {
            return Ok(RawValue::Members(entries));
        }
        if tag > TAG_LONG_ARRAY {
            return Err(NbtError::UnknownTag);
        }
        let len = c.read_u16()?;
        let name = c.take(len as usize)?;
        let v = decode_payload(c, tag)?;
        insert_member(&mut entries, name, v);
    }
}

} // verus!

verus! {

/// Decodes a whole document: the compound tag, a root name that is skipped, then the root's
/// members. Bytes after the root's end tag are left unread.
pub fn decode_document<'a>(data: &'a [u8]) -> (r: Result<RawValue<'a>, NbtError>)
    ensures
        match document(data@) {
            Ok(v) => r matches Ok(x) && x@ == v && x.wf(),
            Err(e) => r matches Err(e1) && e1 == e,
        },
{
    let mut c = Cursor::new(data);
    if c.read_u8()? != TAG_COMPOUND {
        return Err(NbtError::InvalidRoot);
    }
    let len = c.read_u16()?;
    c.take(len as usize)?;
    decode_compound(&mut c)
}

} // verus!
