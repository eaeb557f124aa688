//! Tagged fields, the units a message is made of on the wire.
//!
//! A message is a run of fields. Each field starts with a key, the varint of
//! `number * 8 + wire type`, and goes on with a value whose shape the wire
//! type gives: a varint, eight fixed bytes, a length-prefixed run of bytes, or
//! four fixed bytes.

use crate::frame::{append_bytes, le_bytes, le_u32, lemma_le_round_trip, read_u32_le, write_u32_le};
use crate::wire::{
    lemma_parse_varint32, lemma_parse_varint64, parse_varint32, parse_varint64, put_varint,
    take_varint32, take_varint64, varint,
};
use vstd::prelude::*;
use vstd::slice::{slice_subrange, slice_to_vec};

verus! {

/// Largest number a field can carry.
pub const MAX_FIELD_NUMBER: u32 = 0x1fff_ffff;

/// What one field holds.
#[derive(Debug)]
pub enum Value {
    Varint(u64),
    Fixed64(u64),
    Bytes(Vec<u8>),
    Fixed32(u32),
}

/// One field of a message as it stands on the wire.
#[derive(Debug)]
pub struct Field {
    pub number: u32,
    pub value: Value,
}

/// Mathematical content of a [`Value`].
pub enum ValueView {
    Varint(u64),
    Fixed64(u64),
    Bytes(Seq<u8>),
    Fixed32(u32),
}

/// Mathematical content of a [`Field`].
pub struct FieldView {
    pub number: u32,
    pub value: ValueView,
}

impl View for Value {
    type V = ValueView;

    open spec fn view(&self) -> ValueView {
        match *self {
            Value::Varint(v) => ValueView::Varint(v),
            Value::Fixed64(v) => ValueView::Fixed64(v),
            Value::Bytes(b) => ValueView::Bytes(b@),
            Value::Fixed32(v) => ValueView::Fixed32(v),
        }
    }
}

impl View for Field {
    type V = FieldView;

    open spec fn view(&self) -> FieldView {
        FieldView { number: self.number, value: self.value@ }
    }
}

/// The views of a run of fields.
pub open spec fn field_views(fields: Seq<Field>) -> Seq<FieldView> {
    fields.map_values(|f: Field| f@)
}

impl FieldView {
    /// A field that can stand on the wire: its number is in range and a
    /// length-prefixed value has a length that a varint can spell.
    pub open spec fn wf(self) -> bool {
        &&& 1 <= self.number <= MAX_FIELD_NUMBER
        &&& (self.value matches ValueView::Bytes(b) ==> b.len() <= u64::MAX)
    }

    /// The wire type that goes with the value.
    pub open spec fn wire_type(self) -> u64 {
        match self.value {
            ValueView::Varint(_) => 0,
            ValueView::Fixed64(_) => 1,
            ValueView::Bytes(_) => 2,
            ValueView::Fixed32(_) => 5,
        }
    }

    /// The key in front of the value.
    pub open spec fn key(self) -> u64 {
        (self.number as u64 * 8 + self.wire_type()) as u64
    }
}

/// Every field of the run can stand on the wire.
pub open spec fn fields_wf(fields: Seq<FieldView>) -> bool {
    forall|i: int| 0 <= i < fields.len() ==> (#[trigger] fields[i]).wf()
}

/// The number that eight bytes spell in little-endian order.
pub open spec fn le_u64(b: Seq<u8>) -> int
    recommends
        b.len() >= 8,
{
    le_u32(b.subrange(0, 4)) + 0x1_0000_0000 * le_u32(b.subrange(4, 8))
}

/// The eight bytes that spell `n` in little-endian order.
pub open spec fn le_bytes64(n: u64) -> Seq<u8> {
    le_bytes((n % 0x1_0000_0000) as u32) + le_bytes((n / 0x1_0000_0000) as u32)
}

/// The bytes of a value.
pub open spec fn value_bytes(v: ValueView) -> Seq<u8> {
    match v {
        ValueView::Varint(x) => varint(x as nat),
        ValueView::Fixed64(x) => le_bytes64(x),
        ValueView::Bytes(b) => varint(b.len()) + b,
        ValueView::Fixed32(x) => le_bytes(x),
    }
}

/// The bytes of a field: its key, then its value.
pub open spec fn field_bytes(f: FieldView) -> Seq<u8> {
    varint(f.key() as nat) + value_bytes(f.value)
}

/// The bytes of a run of fields, one after the other.
pub open spec fn fields_bytes(fields: Seq<FieldView>) -> Seq<u8>
    decreases fields.len(),
{
    if fields.len() == 0 {
        Seq::empty()
    } else {
        field_bytes(fields[0]) + fields_bytes(fields.drop_first())
    }
}

/// The value of wire type `wire_type` at the front of `s`, and its length.
pub open spec fn first_value(wire_type: u64, s: Seq<u8>) -> Option<(ValueView, int)> {
    if wire_type == 0 {
        match parse_varint64(s) {
            Some((v, n)) => Some((ValueView::Varint(v), n)),
            None => None,
        }
    } else if wire_type == 1 {
        if s.len() >= 8 {
            Some((ValueView::Fixed64(le_u64(s.subrange(0, 8)) as u64), 8))
        } else {
            None
        }
    } else if wire_type == 2 {
        match parse_varint64(s) {
            Some((len, n)) => if len <= s.len() - n {
                Some((ValueView::Bytes(s.subrange(n, n + len)), n + len))
            } else {
                None
            },
            None => None,
        }
    } else if wire_type == 5 {
        if s.len() >= 4 {
            Some((ValueView::Fixed32(le_u32(s.subrange(0, 4)) as u32), 4))
        } else {
            None
        }
    } else {
        None
    }
}

/// The field at the front of `s`, and its length. `None` when the key or the
/// value is cut short or malformed, the number is zero, or the wire type is
/// not one of the four.
pub open spec fn first_field(s: Seq<u8>) -> Option<(FieldView, int)> {
    match parse_varint32(s) {
        Some((key, n)) => if key / 8 == 0 {
            None
        } else {
            match first_value(key % 8, s.skip(n)) {
                Some((value, m)) => Some((FieldView { number: (key / 8) as u32, value }, n + m)),
                None => None,
            }
        },
        None => None,
    }
}

/// `fields` in front of what `tail` holds, if it holds anything.
pub open spec fn prepend(fields: Seq<FieldView>, tail: Option<Seq<FieldView>>) -> Option<
    Seq<FieldView>,
> {
    match tail {
        Some(t) => Some(fields + t),
        None => None,
    }
}

/// All the fields of `s`, which must be made of whole fields and nothing else.
pub open spec fn all_fields(s: Seq<u8>) -> Option<Seq<FieldView>>
    decreases s.len(),
{
    if s.len() == 0 {
        Some(Seq::empty())
    } else {
        match first_field(s) {
            Some((f, n)) => if 0 < n <= s.len() {
                prepend(seq![f], all_fields(s.skip(n)))
            } else {
                None
            },
            None => None,
        }
    }
}

/// The number spelled by the little-endian bytes of `n` is `n`.
pub proof fn lemma_le64_round_trip(n: u64)
    ensures
        le_bytes64(n).len() == 8,
        le_u64(le_bytes64(n)) == n,
{
    let lo = (n % 0x1_0000_0000) as u32;
    let hi = (n / 0x1_0000_0000) as u32;
    lemma_le_round_trip(lo);
    lemma_le_round_trip(hi);
    assert(le_bytes64(n).subrange(0, 4) =~= le_bytes(lo));
    assert(le_bytes64(n).subrange(4, 8) =~= le_bytes(hi));
}

/// Reading the bytes of a value gives the value back and stops where it ends.
pub proof fn lemma_first_value(v: ValueView, rest: Seq<u8>)
    requires
        v matches ValueView::Bytes(b) ==> b.len() <= u64::MAX,
    ensures
        first_value(FieldView { number: 1, value: v }.wire_type(), value_bytes(v) + rest) == Some(
            (v, value_bytes(v).len() as int),
        ),
{
    let s = value_bytes(v) + rest;
    match v {
        ValueView::Varint(x) => {
            lemma_parse_varint64(x, rest);
        },
        ValueView::Fixed64(x) => {
            lemma_le64_round_trip(x);
            assert(s.subrange(0, 8) =~= le_bytes64(x));
        },
        ValueView::Bytes(b) => {
            let len = b.len() as u64;
            lemma_parse_varint64(len, b + rest);
            assert(s =~= varint(len as nat) + (b + rest));
            let n = varint(len as nat).len() as int;
            assert(s.subrange(n, n + len) =~= b);
        },
        ValueView::Fixed32(x) => {
            lemma_le_round_trip(x);
            assert(s.subrange(0, 4) =~= le_bytes(x));
        },
    }
}

/// Reading the bytes of a field gives the field back and stops where it ends.
pub proof fn lemma_first_field(f: FieldView, rest: Seq<u8>)
    requires
        f.wf(),
    ensures
        first_field(field_bytes(f) + rest) == Some((f, field_bytes(f).len() as int)),
        field_bytes(f).len() > 0,
{
    let s = field_bytes(f) + rest;
    let key = f.key();
    assert(key / 8 == f.number && key % 8 == f.wire_type());
    lemma_parse_varint32(key, value_bytes(f.value) + rest);
    assert(s =~= varint(key as nat) + (value_bytes(f.value) + rest));
    let n = varint(key as nat).len() as int;
    assert(s.skip(n) =~= value_bytes(f.value) + rest);
    lemma_first_value(f.value, rest);
}

/// Reading the bytes of a run of fields gives the run back.
pub proof fn lemma_all_fields(fields: Seq<FieldView>)
    requires
        fields_wf(fields),
    ensures
        all_fields(fields_bytes(fields)) == Some(fields),
    decreases fields.len(),
{
    if fields.len() == 0 {
        assert(fields =~= Seq::empty());
    } else {
        let f = fields[0];
        let tail = fields.drop_first();
        let s = fields_bytes(fields);
        assert(f.wf());
        assert forall|i: int| 0 <= i < tail.len() implies (#[trigger] tail[i]).wf() by {
            assert(tail[i] == fields[i + 1]);
        }
        lemma_first_field(f, fields_bytes(tail));
        lemma_all_fields(tail);
        let n = field_bytes(f).len() as int;
        assert(s.skip(n) =~= fields_bytes(tail));
        assert(seq![f] + tail =~= fields);
    }
}

/// The bytes of a run with one more field at its end.
pub proof fn lemma_fields_bytes_push(fields: Seq<FieldView>, f: FieldView)
    ensures
        fields_bytes(fields.push(f)) == fields_bytes(fields) + field_bytes(f),
    decreases fields.len(),
{
    if fields.len() == 0 {
        assert(fields.push(f).drop_first() =~= Seq::<FieldView>::empty());
        assert(fields_bytes(fields.push(f)) =~= field_bytes(f) + fields_bytes(Seq::empty()));
        assert(fields_bytes(fields) + field_bytes(f) =~= field_bytes(f));
        assert(field_bytes(f) + fields_bytes(Seq::<FieldView>::empty()) =~= field_bytes(f));
    } else {
        lemma_fields_bytes_push(fields.drop_first(), f);
        assert(fields.push(f).drop_first() =~= fields.drop_first().push(f));
        assert(fields_bytes(fields.push(f)) =~= fields_bytes(fields) + field_bytes(f));
    }
}

/// Appends the bytes of `field`.
pub fn put_field(out: &mut Vec<u8>, field: &Field)
    requires
        field@.wf(),
    ensures
        final(out)@ == old(out)@ + field_bytes(field@),
{
    let ghost start = out@;
    match &field.value {
        Value::Varint(v) => {
            put_varint(out, field.number as u64 * 8);
            put_varint(out, *v);
        },
        Value::Fixed64(v) => {
            put_varint(out, field.number as u64 * 8 + 1);
            let lo = write_u32_le((*v % 0x1_0000_0000) as u32);
            let hi = write_u32_le((*v / 0x1_0000_0000) as u32);
            append_bytes(out, lo.as_slice());
            append_bytes(out, hi.as_slice());
        },
        Value::Bytes(b) => {
            put_varint(out, field.number as u64 * 8 + 2);
            put_varint(out, b.len() as u64);
            append_bytes(out, b.as_slice());
        },
        Value::Fixed32(v) => {
            put_varint(out, field.number as u64 * 8 + 5);
            let bytes = write_u32_le(*v);
            append_bytes(out, bytes.as_slice());
        },
    }
    assert(out@ =~= start + field_bytes(field@));
}

/// Serialises a run of fields.
pub fn encode_fields(fields: &Vec<Field>) -> (out: Vec<u8>)
    requires
        fields_wf(field_views(fields@)),
    ensures
        out@ == fields_bytes(field_views(fields@)),
{
    let mut out: Vec<u8> = Vec::new();
    let mut i: usize = 0;
    let ghost views = field_views(fields@);
    while i < fields.len()
        invariant
            0 <= i <= fields@.len(),
            views == field_views(fields@),
            fields_wf(views),
            out@ == fields_bytes(views.take(i as int)),
        decreases fields@.len() - i,
    {
        proof {
            assert(views[i as int].wf());
            assert(views[i as int] == fields@[i as int]@);
            lemma_fields_bytes_push(views.take(i as int), views[i as int]);
            assert(views.take(i as int).push(views[i as int]) =~= views.take(i + 1));
        }
        put_field(&mut out, &fields[i]);
        i += 1;
    }
    assert(views.take(i as int) =~= views);
    out
}

/// Reads the value of wire type `wire_type` at the front of `s`.
fn take_value(wire_type: u64, s: &[u8]) -> (r: Option<(Value, usize)>)
    ensures
        match r {
            Some((v, n)) => first_value(wire_type, s@) == Some((v@, n as int)) && n <= s@.len(),
            None => first_value(wire_type, s@) is None,
        },
{
    if wire_type == 0 {
        match take_varint64(s) {
            Some((v, n)) => Some((Value::Varint(v), n)),
            None => None,
        }
    } else if wire_type == 1 {
        if s.len() >= 8 {
            let lo = read_u32_le(slice_subrange(s, 0, 4));
            let hi = read_u32_le(slice_subrange(s, 4, 8));
            proof {
                assert(s@.subrange(0, 8).subrange(0, 4) =~= s@.subrange(0, 4));
                assert(s@.subrange(0, 8).subrange(4, 8) =~= s@.subrange(4, 8));
            }
            Some((Value::Fixed64(lo as u64 + hi as u64 * 0x1_0000_0000), 8))
        } else {
            None
        }
    } else if wire_type == 2 {
        match take_varint64(s) {
            Some((len, n)) => {
                if len <= (s.len() - n) as u64 {
                    let end: usize = n + len as usize;
                    let bytes = slice_to_vec(slice_subrange(s, n, end));
                    Some((Value::Bytes(bytes), end))
                } else {
                    None
                }
            },
            None => None,
        }
    } else if wire_type == 5 {
        if s.len() >= 4 {
            Some((Value::Fixed32(read_u32_le(slice_subrange(s, 0, 4))), 4))
        } else {
            None
        }
    } else {
        None
    }
}

/// Reads the field at the front of `s`: the field and the number of bytes it
/// takes.
pub fn take_field(s: &[u8]) -> (r: Option<(Field, usize)>)
    ensures
        match r {
            Some((f, n)) => first_field(s@) == Some((f@, n as int)) && 0 < n <= s@.len()
                && f@.wf(),
            None => first_field(s@) is None,
        },
{
    match take_varint32(s) {
        Some((key, n)) => {
            let number = key / 8;
            if number == 0 {
                return None;
            }
            let rest = slice_subrange(s, n, s.len());
            assert(rest@ =~= s@.skip(n as int));
            match take_value(key % 8, rest) {
                Some((value, m)) => {
                    proof {
                        crate::wire::lemma_parse_varint_len(s@, 5, 0xffff_ffff);
                    }
                    Some((Field { number: number as u32, value }, n + m))
                },
                None => None,
            }
        },
        None => None,
    }
}

/// Parses `s` as a run of whole fields.
pub fn decode_fields(s: &[u8]) -> (r: Option<Vec<Field>>)
    ensures
        match r {
            Some(fields) => all_fields(s@) == Some(field_views(fields@)) && fields_wf(
                field_views(fields@),
            ),
            None => all_fields(s@) is None,
        },
{
    let mut fields: Vec<Field> = Vec::new();
    let mut pos: usize = 0;
    assert(s@.skip(0) =~= s@);
    assert(field_views(fields@) =~= Seq::<FieldView>::empty());
    assert(Seq::<FieldView>::empty() + all_fields(s@).unwrap() =~= all_fields(s@).unwrap());
    while pos < s.len()
        invariant
            0 <= pos <= s@.len(),
            all_fields(s@) == prepend(field_views(fields@), all_fields(s@.skip(pos as int))),
            fields_wf(field_views(fields@)),
        decreases s@.len() - pos,
    {
        let rest = slice_subrange(s, pos, s.len());
        assert(rest@ =~= s@.skip(pos as int));
        match take_field(rest) {
            Some((f, n)) => {
                proof {
                    let before = field_views(fields@);
                    let after = field_views(fields@.push(f));
                    assert(after =~= before.push(f@));
                    assert(rest@.skip(n as int) =~= s@.skip(pos + n));
                    let tail = all_fields(s@.skip(pos + n));
                    if tail is Some {
                        assert(before + (seq![f@] + tail.unwrap()) =~= after + tail.unwrap());
                    }
                    assert forall|i: int| 0 <= i < after.len() implies (
                    #[trigger] after[i]).wf() by {
                        if i < before.len() {
                            assert(after[i] == before[i]);
                        }
                    }
                }
                fields.push(f);
                pos += n;
            },
            None => {
                return None;
            },
        }
    }
    proof {
        let views = field_views(fields@);
        assert(views + Seq::<FieldView>::empty() =~= views);
    }
    Some(fields)
}

} // verus!
