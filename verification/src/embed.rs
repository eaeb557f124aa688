//! The embed: the structured content a device wants shown in its channel.

use crate::fields::{
    all_fields, decode_fields, encode_fields, field_views, fields_bytes, fields_wf,
    lemma_all_fields, Field, FieldView,
};
use crate::messages::{ProtoFile, ProtoFileView, TextField, TextFieldView};
use crate::schema::{
    bytes_at, bytes_field, bytes_of, fold_fields, int32_of, int32_to_varint, int32_varint,
    lemma_fold_push, lemma_fold_refused, lemma_fold_take, lemma_int32_round_trip,
    lemma_text_field, lemma_wf_push, push_nested, push_text, push_varint, text_field, text_from,
    text_of, varint_at, varint_field, varint_of, varint_to_int32, with_text, with_varint,
    DecodeError,
};
use vstd::prelude::*;
use vstd::utf8::encode_utf8;

verus! {

/// Field number of the title of an embed.
pub const EMBED_TITLE: u32 = 1;

/// Field number of the description of an embed.
pub const EMBED_DESCRIPTION: u32 = 2;

/// Field number of the colour of an embed.
pub const EMBED_COLOR: u32 = 3;

/// Field number of the author of an embed.
pub const EMBED_AUTHOR: u32 = 4;

/// Field number of the text fields of an embed, one field for each.
pub const EMBED_TEXTFIELD: u32 = 5;

/// Field number of the snapshot of an embed.
pub const EMBED_SNAPSHOT: u32 = 6;

/// Structured content: a headline, a body, a colour, an author, titled text
/// fields in order, and possibly a snapshot image.
#[derive(Clone, Debug, PartialEq, Eq)]
pub struct EmbedContent {
    pub title: String,
    pub description: String,
    pub color: i32,
    pub author: String,
    pub textfield: Vec<TextField>,
    pub snapshot: Option<ProtoFile>,
}

/// Mathematical content of an [`EmbedContent`].
pub struct EmbedContentView {
    pub title: Seq<char>,
    pub description: Seq<char>,
    pub color: i32,
    pub author: Seq<char>,
    pub textfield: Seq<TextFieldView>,
    pub snapshot: Option<ProtoFileView>,
}

/// The views of a run of text fields.
pub open spec fn textfield_views(items: Seq<TextField>) -> Seq<TextFieldView> {
    items.map_values(|t: TextField| t@)
}

/// The view of a snapshot, if there is one.
pub open spec fn snapshot_view(snapshot: Option<ProtoFile>) -> Option<ProtoFileView> {
    match snapshot {
        Some(file) => Some(file@),
        None => None,
    }
}

impl View for EmbedContent {
    type V = EmbedContentView;

    open spec fn view(&self) -> EmbedContentView {
        EmbedContentView {
            title: self.title@,
            description: self.description@,
            color: self.color,
            author: self.author@,
            textfield: textfield_views(self.textfield@),
            snapshot: snapshot_view(self.snapshot),
        }
    }
}

/// `fields`, and after them one field for each text field, in order.
pub open spec fn with_textfields(fields: Seq<FieldView>, items: Seq<TextFieldView>) -> Seq<
    FieldView,
>
    decreases items.len(),
{
    if items.len() == 0 {
        fields
    } else {
        with_textfields(fields, items.drop_last()).push(
            bytes_field(EMBED_TEXTFIELD, items.last().bytes()),
        )
    }
}

/// `fields`, and after them the snapshot, if there is one.
pub open spec fn with_snapshot(fields: Seq<FieldView>, snapshot: Option<ProtoFileView>) -> Seq<
    FieldView,
> {
    match snapshot {
        Some(file) => fields.push(bytes_field(EMBED_SNAPSHOT, file.bytes())),
        None => fields,
    }
}

/// Every text field is well formed and its bytes have a length that a varint
/// can spell.
pub open spec fn textfields_wf(items: Seq<TextFieldView>) -> bool {
    forall|i: int|
        0 <= i < items.len() ==> (#[trigger] items[i]).wf() && items[i].bytes().len() <= u64::MAX
}

impl EmbedContentView {
    /// The embed with every field at its default.
    pub open spec fn empty() -> EmbedContentView {
        EmbedContentView {
            title: Seq::empty(),
            description: Seq::empty(),
            color: 0,
            author: Seq::empty(),
            textfield: Seq::empty(),
            snapshot: None,
        }
    }

    /// Every length-prefixed part has a length that a varint can spell.
    pub open spec fn wf(self) -> bool {
        &&& encode_utf8(self.title).len() <= u64::MAX
        &&& encode_utf8(self.description).len() <= u64::MAX
        &&& encode_utf8(self.author).len() <= u64::MAX
        &&& textfields_wf(self.textfield)
        &&& (self.snapshot matches Some(file) ==> file.wf() && file.bytes().len() <= u64::MAX)
    }

    /// The fields of the embed that come before its text fields.
    pub open spec fn head_fields(self) -> Seq<FieldView> {
        with_text(
            with_varint(
                with_text(
                    with_text(Seq::empty(), EMBED_TITLE, self.title),
                    EMBED_DESCRIPTION,
                    self.description,
                ),
                EMBED_COLOR,
                int32_varint(self.color),
            ),
            EMBED_AUTHOR,
            self.author,
        )
    }

    /// The fields the embed is written as.
    pub open spec fn fields(self) -> Seq<FieldView> {
        with_snapshot(with_textfields(self.head_fields(), self.textfield), self.snapshot)
    }

    /// What one more field makes of the embed read so far.
    pub open spec fn step(acc: EmbedContentView, f: FieldView) -> Option<EmbedContentView> {
        if bytes_at(f, EMBED_TITLE) is Some {
            match text_of(bytes_at(f, EMBED_TITLE).unwrap()) {
                Some(t) => Some(EmbedContentView { title: t, ..acc }),
                None => None,
            }
        } else if bytes_at(f, EMBED_DESCRIPTION) is Some {
            match text_of(bytes_at(f, EMBED_DESCRIPTION).unwrap()) {
                Some(t) => Some(EmbedContentView { description: t, ..acc }),
                None => None,
            }
        } else if varint_at(f, EMBED_COLOR) is Some {
            match int32_of(varint_at(f, EMBED_COLOR).unwrap()) {
                Some(x) => Some(EmbedContentView { color: x, ..acc }),
                None => None,
            }
        } else if bytes_at(f, EMBED_AUTHOR) is Some {
            match text_of(bytes_at(f, EMBED_AUTHOR).unwrap()) {
                Some(t) => Some(EmbedContentView { author: t, ..acc }),
                None => None,
            }
        } else if bytes_at(f, EMBED_TEXTFIELD) is Some {
            match TextFieldView::parse(bytes_at(f, EMBED_TEXTFIELD).unwrap()) {
                Some(item) => Some(
                    EmbedContentView { textfield: acc.textfield.push(item), ..acc },
                ),
                None => None,
            }
        } else if bytes_at(f, EMBED_SNAPSHOT) is Some {
            match ProtoFileView::parse(bytes_at(f, EMBED_SNAPSHOT).unwrap()) {
                Some(file) => Some(EmbedContentView { snapshot: Some(file), ..acc }),
                None => None,
            }
        } else {
            Some(acc)
        }
    }

    /// `step` as a function value, for the walk over the fields.
    pub open spec fn stepper() -> spec_fn(EmbedContentView, FieldView) -> Option<
        EmbedContentView,
    > {
        |acc: EmbedContentView, f: FieldView| Self::step(acc, f)
    }

    /// The embed that a run of fields spells.
    pub open spec fn of_fields(fields: Seq<FieldView>) -> Option<EmbedContentView> {
        fold_fields(fields, Self::empty(), Self::stepper())
    }

    /// The bytes of the embed.
    pub open spec fn bytes(self) -> Seq<u8> {
        fields_bytes(self.fields())
    }

    /// The embed that bytes spell.
    pub open spec fn parse(s: Seq<u8>) -> Option<EmbedContentView> {
        match all_fields(s) {
            Some(fields) => Self::of_fields(fields),
            None => None,
        }
    }

    /// Reading the head fields gives an embed with the head filled in.
    proof fn lemma_head(self)
        requires
            self.wf(),
        ensures
            fields_wf(self.head_fields()),
            Self::of_fields(self.head_fields()) == Some(
                EmbedContentView { textfield: Seq::empty(), snapshot: None, ..self },
            ),
    {
        let step = Self::stepper();
        let color = int32_varint(self.color);
        let f0 = Seq::<FieldView>::empty();
        let f1 = with_text(f0, EMBED_TITLE, self.title);
        let f2 = with_text(f1, EMBED_DESCRIPTION, self.description);
        let f3 = with_varint(f2, EMBED_COLOR, color);
        let f4 = with_text(f3, EMBED_AUTHOR, self.author);
        let a0 = Self::empty();
        let a1 = EmbedContentView { title: self.title, ..a0 };
        let a2 = EmbedContentView { description: self.description, ..a1 };
        let a3 = EmbedContentView { color: self.color, ..a2 };
        let a4 = EmbedContentView { author: self.author, ..a3 };
        assert(fold_fields(f0, a0, step) == Some(a0));
        assert(fields_wf(f0));
        lemma_fold_push(f0, text_field(EMBED_TITLE, self.title), a0, step);
        lemma_text_field(EMBED_TITLE, self.title);
        if self.title.len() > 0 {
            lemma_wf_push(f0, text_field(EMBED_TITLE, self.title));
        } else {
            assert(self.title =~= Seq::empty());
        }
        assert(fold_fields(f1, a0, step) == Some(a1));
        lemma_fold_push(f1, text_field(EMBED_DESCRIPTION, self.description), a0, step);
        lemma_text_field(EMBED_DESCRIPTION, self.description);
        if self.description.len() > 0 {
            lemma_wf_push(f1, text_field(EMBED_DESCRIPTION, self.description));
        } else {
            assert(self.description =~= Seq::empty());
        }
        assert(fold_fields(f2, a0, step) == Some(a2));
        lemma_fold_push(f2, varint_field(EMBED_COLOR, color), a0, step);
        lemma_int32_round_trip(self.color);
        if color != 0 {
            lemma_wf_push(f2, varint_field(EMBED_COLOR, color));
        }
        assert(fold_fields(f3, a0, step) == Some(a3));
        lemma_fold_push(f3, text_field(EMBED_AUTHOR, self.author), a0, step);
        lemma_text_field(EMBED_AUTHOR, self.author);
        if self.author.len() > 0 {
            lemma_wf_push(f3, text_field(EMBED_AUTHOR, self.author));
        } else {
            assert(self.author =~= Seq::empty());
        }
        assert(fold_fields(f4, a0, step) == Some(a4));
    }

    /// Reading text fields after some fields adds them, in order, to what the
    /// fields before them gave.
    proof fn lemma_textfields(
        base: Seq<FieldView>,
        acc: EmbedContentView,
        items: Seq<TextFieldView>,
    )
        requires
            fields_wf(base),
            Self::of_fields(base) == Some(acc),
            textfields_wf(items),
        ensures
            fields_wf(with_textfields(base, items)),
            Self::of_fields(with_textfields(base, items)) == Some(
                EmbedContentView { textfield: acc.textfield + items, ..acc },
            ),
        decreases items.len(),
    {
        let step = Self::stepper();
        if items.len() == 0 {
            assert(acc.textfield + items =~= acc.textfield);
        } else {
            let front = items.drop_last();
            let last = items.last();
            assert forall|i: int| 0 <= i < front.len() implies (#[trigger] front[i]).wf()
                && front[i].bytes().len() <= u64::MAX by {
                assert(front[i] == items[i]);
            }
            Self::lemma_textfields(base, acc, front);
            let before = with_textfields(base, front);
            let f = bytes_field(EMBED_TEXTFIELD, last.bytes());
            assert(last.wf() && last.bytes().len() <= u64::MAX);
            last.lemma_round_trip();
            lemma_fold_push(before, f, Self::empty(), step);
            lemma_wf_push(before, f);
            assert((acc.textfield + front).push(last) =~= acc.textfield + items);
        }
    }

    /// Decoding the encoding of an embed gives the embed back.
    pub proof fn lemma_round_trip(self)
        requires
            self.wf(),
        ensures
            fields_wf(self.fields()),
            Self::of_fields(self.fields()) == Some(self),
            Self::parse(self.bytes()) == Some(self),
    {
        let step = Self::stepper();
        self.lemma_head();
        let head = EmbedContentView { textfield: Seq::empty(), snapshot: None, ..self };
        Self::lemma_textfields(self.head_fields(), head, self.textfield);
        let body = with_textfields(self.head_fields(), self.textfield);
        let filled = EmbedContentView { textfield: self.textfield, ..head };
        assert(Seq::<TextFieldView>::empty() + self.textfield =~= self.textfield);
        assert(Self::of_fields(body) == Some(filled));
        match self.snapshot {
            Some(file) => {
                let f = bytes_field(EMBED_SNAPSHOT, file.bytes());
                file.lemma_round_trip();
                lemma_fold_push(body, f, Self::empty(), step);
                lemma_wf_push(body, f);
            },
            None => {},
        }
        assert(Self::of_fields(self.fields()) == Some(self));
        lemma_all_fields(self.fields());
    }
}

impl EmbedContent {
    /// An embed with every field at its default.
    pub fn new() -> (r: EmbedContent)
        ensures
            r@ == EmbedContentView::empty(),
    {
        let r = EmbedContent {
            title: String::new(),
            description: String::new(),
            color: 0,
            author: String::new(),
            textfield: Vec::new(),
            snapshot: None,
        };
        assert(textfield_views(r.textfield@) =~= Seq::<TextFieldView>::empty());
        r
    }

    /// A copy of the embed.
    pub fn copy(&self) -> (r: EmbedContent)
        ensures
            r@ == self@,
    {
        let mut items: Vec<TextField> = Vec::new();
        let mut i: usize = 0;
        while i < self.textfield.len()
            invariant
                0 <= i <= self.textfield@.len(),
                textfield_views(items@) =~= textfield_views(self.textfield@).take(i as int),
            decreases self.textfield@.len() - i,
        {
            let item = self.textfield[i].copy();
            proof {
                assert(textfield_views(items@.push(item)) =~= textfield_views(items@).push(item@));
                assert(textfield_views(self.textfield@).take(i + 1) =~= textfield_views(
                    self.textfield@,
                ).take(i as int).push(self.textfield@[i as int]@));
            }
            items.push(item);
            i += 1;
        }
        assert(textfield_views(self.textfield@).take(i as int) =~= textfield_views(
            self.textfield@,
        ));
        EmbedContent {
            title: self.title.clone(),
            description: self.description.clone(),
            color: self.color,
            author: self.author.clone(),
            textfield: items,
            snapshot: match &self.snapshot {
                Some(file) => Some(file.copy()),
                None => None,
            },
        }
    }

    /// The fields the embed is written as.
    pub fn to_fields(&self) -> (fields: Vec<Field>)
        ensures
            field_views(fields@) == self@.fields(),
            fields_wf(field_views(fields@)),
            self@.wf(),
    {
        let mut fields: Vec<Field> = Vec::new();
        assert(field_views(fields@) =~= Seq::<FieldView>::empty());
        push_text(&mut fields, EMBED_TITLE, &self.title);
        push_text(&mut fields, EMBED_DESCRIPTION, &self.description);
        push_varint(&mut fields, EMBED_COLOR, int32_to_varint(self.color));
        push_text(&mut fields, EMBED_AUTHOR, &self.author);
        let ghost items = textfield_views(self.textfield@);
        let ghost head = self@.head_fields();
        let mut i: usize = 0;
        while i < self.textfield.len()
            invariant
                0 <= i <= self.textfield@.len(),
                items == textfield_views(self.textfield@),
                field_views(fields@) == with_textfields(head, items.take(i as int)),
                fields_wf(field_views(fields@)),
                textfields_wf(items.take(i as int)),
            decreases self.textfield@.len() - i,
        {
            let bytes = self.textfield[i].encode();
            assert(bytes.len() == bytes@.len());
            proof {
                assert(items.take(i + 1).drop_last() =~= items.take(i as int));
                assert(items.take(i + 1).last() == self.textfield@[i as int]@);
                assert forall|j: int| 0 <= j < i + 1 implies (#[trigger] items.take(i + 1)[j]).wf()
                    && items.take(i + 1)[j].bytes().len() <= u64::MAX by {
                    if j < i {
                        assert(items.take(i + 1)[j] == items.take(i as int)[j]);
                    }
                }
            }
            push_nested(&mut fields, EMBED_TEXTFIELD, bytes);
            i += 1;
        }
        assert(items.take(i as int) =~= items);
        match &self.snapshot {
            Some(file) => {
                let bytes = file.encode();
                assert(bytes.len() == bytes@.len());
                push_nested(&mut fields, EMBED_SNAPSHOT, bytes);
            },
            None => {},
        }
        fields
    }

    /// Reads an embed from its fields.
    pub fn from_fields(fields: &Vec<Field>) -> (r: Option<EmbedContent>)
        ensures
            match r {
                Some(m) => EmbedContentView::of_fields(field_views(fields@)) == Some(m@),
                None => EmbedContentView::of_fields(field_views(fields@)) is None,
            },
    {
        let ghost views = field_views(fields@);
        let ghost step = EmbedContentView::stepper();
        let mut m = EmbedContent::new();
        let mut i: usize = 0;
        while i < fields.len()
            invariant
                0 <= i <= fields@.len(),
                views == field_views(fields@),
                step == EmbedContentView::stepper(),
                fold_fields(views.take(i as int), EmbedContentView::empty(), step) == Some(m@),
            decreases fields@.len() - i,
        {
            let f = &fields[i];
            proof {
                lemma_fold_take(views, i as int, EmbedContentView::empty(), step);
                assert(views[i as int] == f@);
            }
            let ghost before = m@;
            let mut refused = false;
            match bytes_of(f, EMBED_TITLE) {
                Some(b) => match text_from(b) {
                    Some(t) => {
                        m.title = t;
                    },
                    None => {
                        refused = true;
                    },
                },
                None => match bytes_of(f, EMBED_DESCRIPTION) {
                    Some(b) => match text_from(b) {
                        Some(t) => {
                            m.description = t;
                        },
                        None => {
                            refused = true;
                        },
                    },
                    None => match varint_of(f, EMBED_COLOR) {
                        Some(v) => match varint_to_int32(v) {
                            Some(x) => {
                                m.color = x;
                            },
                            None => {
                                refused = true;
                            },
                        },
                        None => match bytes_of(f, EMBED_AUTHOR) {
                            Some(b) => match text_from(b) {
                                Some(t) => {
                                    m.author = t;
                                },
                                None => {
                                    refused = true;
                                },
                            },
                            None => match bytes_of(f, EMBED_TEXTFIELD) {
                                Some(b) => match TextField::decode(b.as_slice()) {
                                    Ok(item) => {
                                        proof {
                                            assert(textfield_views(m.textfield@.push(item))
                                                =~= textfield_views(m.textfield@).push(item@));
                                        }
                                        m.textfield.push(item);
                                    },
                                    Err(_) => {
                                        refused = true;
                                    },
                                },
                                None => match bytes_of(f, EMBED_SNAPSHOT) {
                                    Some(b) => match ProtoFile::decode(b.as_slice()) {
                                        Ok(file) => {
                                            m.snapshot = Some(file);
                                        },
                                        Err(_) => {
                                            refused = true;
                                        },
                                    },
                                    None => {},
                                },
                            },
                        },
                    },
                },
            }
            if refused {
                proof {
                    assert(EmbedContentView::step(before, f@) is None);
                    lemma_fold_refused(views, i + 1, EmbedContentView::empty(), step);
                }
                return None;
            }
            assert(EmbedContentView::step(before, f@) == Some(m@));
            i += 1;
        }
        assert(views.take(i as int) =~= views);
        Some(m)
    }

    /// Serialises the embed.
    pub fn encode(&self) -> (out: Vec<u8>)
        ensures
            out@ == self@.bytes(),
            self@.wf(),
            EmbedContentView::parse(out@) == Some(self@),
    {
        let fields = self.to_fields();
        proof {
            self@.lemma_round_trip();
        }
        encode_fields(&fields)
    }

    /// Reads an embed from bytes.
    pub fn decode(bytes: &[u8]) -> (r: Result<EmbedContent, DecodeError>)
        ensures
            match r {
                Ok(m) => EmbedContentView::parse(bytes@) == Some(m@),
                Err(e) => EmbedContentView::parse(bytes@) is None && (e == DecodeError::Malformed
                    <==> all_fields(bytes@) is None),
            },
    {
        match decode_fields(bytes) {
            Some(fields) => match EmbedContent::from_fields(&fields) {
                Some(m) => Ok(m),
                None => Err(DecodeError::Invalid),
            },
            None => Err(DecodeError::Malformed),
        }
    }
}

} // verus!
