//! Building blocks shared by the message types: how a message is folded out
//! of its fields and how its fields are laid down.
//!
//! A message is written as the fields that differ from their defaults, in the
//! order of their numbers. It is read by walking its fields from the first to
//! the last: a field of the schema replaces (or, for a repeated field,
//! extends) what was read before, and a field the schema does not know is
//! passed over.

use crate::fields::{fields_wf, field_views, Field, FieldView, Value, ValueView, MAX_FIELD_NUMBER};
use crate::text::{bytes_text, lemma_text_round_trip, text_bytes};
use vstd::prelude::*;
use vstd::utf8::{decode_utf8, encode_utf8, valid_utf8};

verus! {

/// Why bytes could not be read as a message.
#[derive(Clone, Copy, Debug, PartialEq, Eq, Structural)]
pub enum DecodeError {
    /// The bytes are not a run of whole fields.
    Malformed,
    /// A field of the schema holds what its type cannot be: text that is not
    /// UTF-8, a number out of range, or a nested message that cannot be read.
    Invalid,
}

/// The result of walking `fields` from the first to the last, starting from
/// `init` and letting `step` take in one field at a time; `None` as soon as a
/// field is refused.
pub open spec fn fold_fields<A>(
    fields: Seq<FieldView>,
    init: A,
    step: spec_fn(A, FieldView) -> Option<A>,
) -> Option<A>
    decreases fields.len(),
{
    if fields.len() == 0 {
        Some(init)
    } else {
        match fold_fields(fields.drop_last(), init, step) {
            Some(acc) => step(acc, fields.last()),
            None => None,
        }
    }
}

/// Walking one field further.
pub proof fn lemma_fold_push<A>(
    fields: Seq<FieldView>,
    f: FieldView,
    init: A,
    step: spec_fn(A, FieldView) -> Option<A>,
)
    ensures
        fold_fields(fields.push(f), init, step) == match fold_fields(fields, init, step) {
            Some(acc) => step(acc, f),
            None => None,
        },
{
    assert(fields.push(f).drop_last() =~= fields);
}

/// Walking the first `i + 1` fields, from the walk of the first `i`.
pub proof fn lemma_fold_take<A>(
    fields: Seq<FieldView>,
    i: int,
    init: A,
    step: spec_fn(A, FieldView) -> Option<A>,
)
    requires
        0 <= i < fields.len(),
    ensures
        fold_fields(fields.take(i + 1), init, step) == match fold_fields(
            fields.take(i),
            init,
            step,
        ) {
            Some(acc) => step(acc, fields[i]),
            None => None,
        },
{
    assert(fields.take(i + 1).drop_last() =~= fields.take(i));
}

/// A walk that refused a field refuses the whole run.
pub proof fn lemma_fold_refused<A>(
    fields: Seq<FieldView>,
    i: int,
    init: A,
    step: spec_fn(A, FieldView) -> Option<A>,
)
    requires
        0 <= i <= fields.len(),
        fold_fields(fields.take(i), init, step) is None,
    ensures
        fold_fields(fields, init, step) is None,
    decreases fields.len() - i,
{
    if i < fields.len() {
        lemma_fold_take(fields, i, init, step);
        lemma_fold_refused(fields, i + 1, init, step);
    } else {
        assert(fields.take(i) =~= fields);
    }
}

/// The varint that `f` holds, if `f` is the varint field `number`.
pub open spec fn varint_at(f: FieldView, number: u32) -> Option<u64> {
    match f.value {
        ValueView::Varint(v) => if f.number == number {
            Some(v)
        } else {
            None
        },
        _ => None,
    }
}

/// The bytes that `f` holds, if `f` is the length-prefixed field `number`.
pub open spec fn bytes_at(f: FieldView, number: u32) -> Option<Seq<u8>> {
    match f.value {
        ValueView::Bytes(b) => if f.number == number {
            Some(b)
        } else {
            None
        },
        _ => None,
    }
}

/// The text that `b` spells, if it is UTF-8.
pub open spec fn text_of(b: Seq<u8>) -> Option<Seq<char>> {
    if valid_utf8(b) {
        Some(decode_utf8(b))
    } else {
        None
    }
}

/// The varint that stands for a signed 32-bit number: the number itself, or
/// for a negative one its two's complement on 64 bits.
pub open spec fn int32_varint(x: i32) -> u64 {
    if x >= 0 {
        x as u64
    } else {
        (x + 0x1_0000_0000_0000_0000) as u64
    }
}

/// The signed 32-bit number that a varint stands for, if it stands for one.
pub open spec fn int32_of(v: u64) -> Option<i32> {
    if v <= 0x7fff_ffff {
        Some(v as i32)
    } else if v >= 0xffff_ffff_8000_0000 {
        Some((v - 0x1_0000_0000_0000_0000) as i32)
    } else {
        None
    }
}

/// The field `number` with a varint in it.
pub open spec fn varint_field(number: u32, v: u64) -> FieldView {
    FieldView { number, value: ValueView::Varint(v) }
}

/// The field `number` with bytes in it.
pub open spec fn bytes_field(number: u32, b: Seq<u8>) -> FieldView {
    FieldView { number, value: ValueView::Bytes(b) }
}

/// The field `number` with text in it.
pub open spec fn text_field(number: u32, t: Seq<char>) -> FieldView {
    bytes_field(number, encode_utf8(t))
}

/// `fields`, and after them the varint field `number` unless `v` is zero.
pub open spec fn with_varint(fields: Seq<FieldView>, number: u32, v: u64) -> Seq<FieldView> {
    if v != 0 {
        fields.push(varint_field(number, v))
    } else {
        fields
    }
}

/// `fields`, and after them the field `number` set to one if `flag` is set.
pub open spec fn with_flag(fields: Seq<FieldView>, number: u32, flag: bool) -> Seq<FieldView> {
    if flag {
        fields.push(varint_field(number, 1))
    } else {
        fields
    }
}

/// `fields`, and after them the bytes field `number` unless `b` is empty.
pub open spec fn with_bytes(fields: Seq<FieldView>, number: u32, b: Seq<u8>) -> Seq<FieldView> {
    if b.len() > 0 {
        fields.push(bytes_field(number, b))
    } else {
        fields
    }
}

/// `fields`, and after them the text field `number` unless `t` is empty.
pub open spec fn with_text(fields: Seq<FieldView>, number: u32, t: Seq<char>) -> Seq<FieldView> {
    if t.len() > 0 {
        fields.push(text_field(number, t))
    } else {
        fields
    }
}

/// A signed number survives the trip through its varint.
pub proof fn lemma_int32_round_trip(x: i32)
    ensures
        int32_of(int32_varint(x)) == Some(x),
        int32_varint(x) == 0 <==> x == 0,
{
}

/// One more field keeps a run fit for the wire, if the field is.
pub proof fn lemma_wf_push(fields: Seq<FieldView>, f: FieldView)
    requires
        fields_wf(fields),
        f.wf(),
    ensures
        fields_wf(fields.push(f)),
{
    let all = fields.push(f);
    assert forall|i: int| 0 <= i < all.len() implies (#[trigger] all[i]).wf() by {
        if i < fields.len() {
            assert(all[i] == fields[i]);
        }
    }
}

/// The varint for a signed 32-bit number.
pub fn int32_to_varint(x: i32) -> (v: u64)
    ensures
        v == int32_varint(x),
{
    if x >= 0 {
        x as u64
    } else {
        let below: u64 = (-(x as i64) - 1) as u64;
        u64::MAX - below
    }
}

/// The signed 32-bit number of a varint.
pub fn varint_to_int32(v: u64) -> (r: Option<i32>)
    ensures
        r == int32_of(v),
{
    if v <= 0x7fff_ffff {
        Some(v as i32)
    } else if v >= 0xffff_ffff_8000_0000 {
        let below: u64 = u64::MAX - v;
        Some((-(below as i64) - 1) as i32)
    } else {
        None
    }
}

/// Puts a field at the end of a run.
pub fn push_field(fields: &mut Vec<Field>, field: Field)
    requires
        fields_wf(field_views(old(fields)@)),
        field@.wf(),
    ensures
        field_views(final(fields)@) == field_views(old(fields)@).push(field@),
        fields_wf(field_views(final(fields)@)),
{
    proof {
        lemma_wf_push(field_views(fields@), field@);
        assert(field_views(fields@.push(field)) =~= field_views(fields@).push(field@));
    }
    fields.push(field);
}

/// Puts the varint field `number` at the end of a run, unless `v` is zero.
pub fn push_varint(fields: &mut Vec<Field>, number: u32, v: u64)
    requires
        fields_wf(field_views(old(fields)@)),
        1 <= number <= MAX_FIELD_NUMBER,
    ensures
        field_views(final(fields)@) == with_varint(field_views(old(fields)@), number, v),
        fields_wf(field_views(final(fields)@)),
{
    if v != 0 {
        push_field(fields, Field { number, value: Value::Varint(v) });
    }
}

/// Puts the field `number`, set to one, at the end of a run if `flag` is set.
pub fn push_flag(fields: &mut Vec<Field>, number: u32, flag: bool)
    requires
        fields_wf(field_views(old(fields)@)),
        1 <= number <= MAX_FIELD_NUMBER,
    ensures
        field_views(final(fields)@) == with_flag(field_views(old(fields)@), number, flag),
        fields_wf(field_views(final(fields)@)),
{
    if flag {
        push_field(fields, Field { number, value: Value::Varint(1) });
    }
}

/// Puts the bytes field `number` at the end of a run, empty or not.
pub fn push_nested(fields: &mut Vec<Field>, number: u32, bytes: Vec<u8>)
    requires
        fields_wf(field_views(old(fields)@)),
        1 <= number <= MAX_FIELD_NUMBER,
    ensures
        field_views(final(fields)@) == field_views(old(fields)@).push(bytes_field(number, bytes@)),
        fields_wf(field_views(final(fields)@)),
{
    assert(bytes.len() == bytes@.len());
    push_field(fields, Field { number, value: Value::Bytes(bytes) });
}

/// Puts the bytes field `number` at the end of a run, unless `bytes` is empty.
pub fn push_bytes(fields: &mut Vec<Field>, number: u32, bytes: Vec<u8>)
    requires
        fields_wf(field_views(old(fields)@)),
        1 <= number <= MAX_FIELD_NUMBER,
    ensures
        field_views(final(fields)@) == with_bytes(field_views(old(fields)@), number, bytes@),
        fields_wf(field_views(final(fields)@)),
{
    if bytes.len() > 0 {
        push_nested(fields, number, bytes);
    }
}

/// Puts the text field `number` at the end of a run, unless `text` is empty.
pub fn push_text(fields: &mut Vec<Field>, number: u32, text: &String)
    requires
        fields_wf(field_views(old(fields)@)),
        1 <= number <= MAX_FIELD_NUMBER,
    ensures
        field_views(final(fields)@) == with_text(field_views(old(fields)@), number, text@),
        fields_wf(field_views(final(fields)@)),
        encode_utf8(text@).len() <= usize::MAX,
{
    let bytes = text_bytes(text);
    assert(bytes.len() == bytes@.len());
    if !text.as_str().is_empty() {
        push_nested(fields, number, bytes);
    }
}

/// The varint of `f`, if `f` is the varint field `number`.
pub fn varint_of(f: &Field, number: u32) -> (r: Option<u64>)
    ensures
        r == varint_at(f@, number),
{
    match &f.value {
        Value::Varint(v) => if f.number == number {
            Some(*v)
        } else {
            None
        },
        _ => None,
    }
}

/// The bytes of `f`, if `f` is the length-prefixed field `number`.
pub fn bytes_of<'a>(f: &'a Field, number: u32) -> (r: Option<&'a Vec<u8>>)
    ensures
        match r {
            Some(b) => bytes_at(f@, number) == Some(b@),
            None => bytes_at(f@, number) is None,
        },
{
    match &f.value {
        Value::Bytes(b) => if f.number == number {
            Some(b)
        } else {
            None
        },
        _ => None,
    }
}

/// The text that `bytes` spell, if they are UTF-8.
pub fn text_from(bytes: &Vec<u8>) -> (r: Option<String>)
    ensures
        match r {
            Some(s) => text_of(bytes@) == Some(s@),
            None => text_of(bytes@) is None,
        },
{
    bytes_text(bytes)
}

/// Text survives the trip through a field.
pub proof fn lemma_text_field(number: u32, t: Seq<char>)
    ensures
        bytes_at(text_field(number, t), number) == Some(encode_utf8(t)),
        text_of(encode_utf8(t)) == Some(t),
{
    lemma_text_round_trip(t);
}

} // verus!
