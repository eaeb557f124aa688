//! The request: what the relay sends to a device.

use crate::fields::{
    all_fields, decode_fields, encode_fields, field_views, fields_bytes, fields_wf,
    lemma_all_fields, Field, FieldView,
};
use crate::messages::{ProtoFile, ProtoFileView};
use crate::schema::{
    bytes_at, bytes_field, bytes_of, fold_fields, lemma_fold_push, lemma_fold_refused,
    lemma_fold_take, lemma_text_field, lemma_wf_push, push_nested, push_varint, text_field,
    text_from, text_of, varint_at, varint_field, varint_of, with_varint, DecodeError,
};
use crate::text::text_bytes;
use vstd::prelude::*;
use vstd::utf8::encode_utf8;

verus! {

/// Field number of the user of a request.
pub const REQUEST_USER: u32 = 1;

/// Field number of a command payload.
pub const REQUEST_COMMAND: u32 = 2;

/// Field number of a file payload.
pub const REQUEST_FILE: u32 = 3;

/// The payload of a request.
#[derive(Clone, Debug, PartialEq, Eq)]
pub enum RequestMessage {
    /// A line of text that a user wrote in the device's channel.
    Command(String),
    /// A file that a user uploaded to the device's channel.
    File(ProtoFile),
}

/// A message to a device, with the user it comes from.
#[derive(Clone, Debug, PartialEq, Eq)]
pub struct Request {
    pub user: u64,
    pub message: Option<RequestMessage>,
}

/// Mathematical content of a [`RequestMessage`].
pub enum RequestMessageView {
    Command(Seq<char>),
    File(ProtoFileView),
}

/// Mathematical content of a [`Request`].
pub struct RequestView {
    pub user: u64,
    pub message: Option<RequestMessageView>,
}

impl View for RequestMessage {
    type V = RequestMessageView;

    open spec fn view(&self) -> RequestMessageView {
        match *self {
            RequestMessage::Command(text) => RequestMessageView::Command(text@),
            RequestMessage::File(file) => RequestMessageView::File(file@),
        }
    }
}

impl View for Request {
    type V = RequestView;

    open spec fn view(&self) -> RequestView {
        RequestView {
            user: self.user,
            message: match self.message {
                Some(payload) => Some(payload@),
                None => None,
            },
        }
    }
}

impl RequestMessageView {
    /// The payload is well formed and its bytes have a length that a varint
    /// can spell.
    pub open spec fn wf(self) -> bool {
        match self {
            RequestMessageView::Command(text) => encode_utf8(text).len() <= u64::MAX,
            RequestMessageView::File(file) => file.wf() && file.bytes().len() <= u64::MAX,
        }
    }

    /// The field the payload is written as. A command is written even when
    /// its text is empty.
    pub open spec fn field(self) -> FieldView {
        match self {
            RequestMessageView::Command(text) => text_field(REQUEST_COMMAND, text),
            RequestMessageView::File(file) => bytes_field(REQUEST_FILE, file.bytes()),
        }
    }
}

impl RequestView {
    /// The request from user zero, without a payload.
    pub open spec fn empty() -> RequestView {
        RequestView { user: 0, message: None }
    }

    /// The payload, if any, is well formed.
    pub open spec fn wf(self) -> bool {
        self.message matches Some(payload) ==> payload.wf()
    }

    /// The fields the request is written as.
    pub open spec fn fields(self) -> Seq<FieldView> {
        let head = with_varint(Seq::empty(), REQUEST_USER, self.user);
        match self.message {
            Some(payload) => head.push(payload.field()),
            None => head,
        }
    }

    /// What one more field makes of the request read so far: a payload
    /// replaces the one read before it.
    pub open spec fn step(acc: RequestView, f: FieldView) -> Option<RequestView> {
        if varint_at(f, REQUEST_USER) is Some {
            Some(RequestView { user: varint_at(f, REQUEST_USER).unwrap(), ..acc })
        } else if bytes_at(f, REQUEST_COMMAND) is Some {
            match text_of(bytes_at(f, REQUEST_COMMAND).unwrap()) {
                Some(text) => Some(
                    RequestView { message: Some(RequestMessageView::Command(text)), ..acc },
                ),
                None => None,
            }
        } else if bytes_at(f, REQUEST_FILE) is Some {
            match ProtoFileView::parse(bytes_at(f, REQUEST_FILE).unwrap()) {
                Some(file) => Some(
                    RequestView { message: Some(RequestMessageView::File(file)), ..acc },
                ),
                None => None,
            }
        } else {
            Some(acc)
        }
    }

    /// `step` as a function value, for the walk over the fields.
    pub open spec fn stepper() -> spec_fn(RequestView, FieldView) -> Option<RequestView> {
        |acc: RequestView, f: FieldView| Self::step(acc, f)
    }

    /// The request that a run of fields spells.
    pub open spec fn of_fields(fields: Seq<FieldView>) -> Option<RequestView> {
        fold_fields(fields, Self::empty(), Self::stepper())
    }

    /// The bytes of the request.
    pub open spec fn bytes(self) -> Seq<u8> {
        fields_bytes(self.fields())
    }

    /// The request that bytes spell.
    pub open spec fn parse(s: Seq<u8>) -> Option<RequestView> {
        match all_fields(s) {
            Some(fields) => Self::of_fields(fields),
            None => None,
        }
    }

    /// Decoding the encoding of a request gives the request back.
    pub proof fn lemma_round_trip(self)
        requires
            self.wf(),
        ensures
            fields_wf(self.fields()),
            Self::of_fields(self.fields()) == Some(self),
            Self::parse(self.bytes()) == Some(self),
    {
        let step = Self::stepper();
        let f0 = Seq::<FieldView>::empty();
        let f1 = with_varint(f0, REQUEST_USER, self.user);
        let a0 = Self::empty();
        let a1 = RequestView { user: self.user, ..a0 };
        assert(fold_fields(f0, a0, step) == Some(a0));
        assert(fields_wf(f0));
        lemma_fold_push(f0, varint_field(REQUEST_USER, self.user), a0, step);
        if self.user != 0 {
            lemma_wf_push(f0, varint_field(REQUEST_USER, self.user));
        }
        assert(fold_fields(f1, a0, step) == Some(a1));
        match self.message {
            Some(payload) => {
                match payload {
                    RequestMessageView::Command(text) => {
                        lemma_text_field(REQUEST_COMMAND, text);
                    },
                    RequestMessageView::File(file) => {
                        file.lemma_round_trip();
                    },
                }
                lemma_fold_push(f1, payload.field(), a0, step);
                lemma_wf_push(f1, payload.field());
            },
            None => {},
        }
        assert(Self::of_fields(self.fields()) == Some(self));
        lemma_all_fields(self.fields());
    }
}

impl Request {
    /// A request from user zero, without a payload.
    pub fn new() -> (r: Request)
        ensures
            r@ == RequestView::empty(),
    {
        Request { user: 0, message: None }
    }

    /// The request that carries a line of text from `user`.
    pub fn command(user: u64, text: String) -> (r: Request)
        ensures
            r@ == (RequestView { user, message: Some(RequestMessageView::Command(text@)) }),
    {
        Request { user, message: Some(RequestMessage::Command(text)) }
    }

    /// The request that carries a file from `user`.
    pub fn file(user: u64, filename: String, data: Vec<u8>) -> (r: Request)
        ensures
            r@ == (RequestView {
                user,
                message: Some(
                    RequestMessageView::File(ProtoFileView { filename: filename@, data: data@ }),
                ),
            }),
    {
        Request { user, message: Some(RequestMessage::File(ProtoFile { filename, data })) }
    }

    /// The fields the request is written as.
    pub fn to_fields(&self) -> (fields: Vec<Field>)
        ensures
            field_views(fields@) == self@.fields(),
            fields_wf(field_views(fields@)),
            self@.wf(),
    {
        let mut fields: Vec<Field> = Vec::new();
        assert(field_views(fields@) =~= Seq::<FieldView>::empty());
        push_varint(&mut fields, REQUEST_USER, self.user);
        match &self.message {
            Some(RequestMessage::Command(text)) => {
                let bytes = text_bytes(text);
                assert(bytes.len() == bytes@.len());
                push_nested(&mut fields, REQUEST_COMMAND, bytes);
            },
            Some(RequestMessage::File(file)) => {
                let bytes = file.encode();
                assert(bytes.len() == bytes@.len());
                push_nested(&mut fields, REQUEST_FILE, bytes);
            },
            None => {},
        }
        fields
    }

    /// Reads a request from its fields.
    pub fn from_fields(fields: &Vec<Field>) -> (r: Option<Request>)
        ensures
            match r {
                Some(m) => RequestView::of_fields(field_views(fields@)) == Some(m@),
                None => RequestView::of_fields(field_views(fields@)) is None,
            },
    {
        let ghost views = field_views(fields@);
        let ghost step = RequestView::stepper();
        let mut m = Request::new();
        let mut i: usize = 0;
        while i < fields.len()
            invariant
                0 <= i <= fields@.len(),
                views == field_views(fields@),
                step == RequestView::stepper(),
                fold_fields(views.take(i as int), RequestView::empty(), step) == Some(m@),
            decreases fields@.len() - i,
        {
            let f = &fields[i];
            proof {
                lemma_fold_take(views, i as int, RequestView::empty(), step);
                assert(views[i as int] == f@);
            }
            let ghost before = m@;
            let mut refused = false;
            match varint_of(f, REQUEST_USER) {
                Some(v) => {
                    m.user = v;
                },
                None => match bytes_of(f, REQUEST_COMMAND) {
                    Some(b) => match text_from(b) {
                        Some(text) => {
                            m.message = Some(RequestMessage::Command(text));
                        },
                        None => {
                            refused = true;
                        },
                    },
                    None => match bytes_of(f, REQUEST_FILE) {
                        Some(b) => match ProtoFile::decode(b.as_slice()) {
                            Ok(file) => {
                                m.message = Some(RequestMessage::File(file));
                            },
                            Err(_) => {
                                refused = true;
                            },
                        },
                        None => {},
                    },
                },
            }
            if refused {
                proof {
                    assert(RequestView::step(before, f@) is None);
                    lemma_fold_refused(views, i + 1, RequestView::empty(), step);
                }
                return None;
            }
            assert(RequestView::step(before, f@) == Some(m@));
            i += 1;
        }
        assert(views.take(i as int) =~= views);
        Some(m)
    }

    /// Serialises the request into the payload of a frame.
    pub fn encode(&self) -> (out: Vec<u8>)
        ensures
            out@ == self@.bytes(),
            self@.wf(),
            RequestView::parse(out@) == Some(self@),
    {
        let fields = self.to_fields();
        proof {
            self@.lemma_round_trip();
        }
        encode_fields(&fields)
    }

    /// Reads a request from bytes. `Malformed` when the bytes are not a run
    /// of whole fields, `Invalid` when they are but a field of the schema
    /// cannot be read.
    pub fn decode(bytes: &[u8]) -> (r: Result<Request, DecodeError>)
        ensures
            match r {
                Ok(m) => RequestView::parse(bytes@) == Some(m@),
                Err(e) => RequestView::parse(bytes@) is None && (e == DecodeError::Malformed
                    <==> all_fields(bytes@) is None),
            },
    {
        match decode_fields(bytes) {
            Some(fields) => match Request::from_fields(&fields) {
                Some(m) => Ok(m),
                None => Err(DecodeError::Invalid),
            },
            None => Err(DecodeError::Malformed),
        }
    }
}

} // verus!
