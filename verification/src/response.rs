//! The response: what a device sends to the relay.

use crate::embed::{EmbedContent, EmbedContentView};
use crate::fields::{
    all_fields, decode_fields, encode_fields, field_views, fields_bytes, fields_wf,
    lemma_all_fields, Field, FieldView,
};
use crate::messages::{
    Presence, PresenceView, ProtoFile, ProtoFileView, Settings, SettingsView,
};
use crate::schema::{
    bytes_at, bytes_field, bytes_of, fold_fields, lemma_fold_push, lemma_fold_refused,
    lemma_fold_take, lemma_wf_push, push_nested, DecodeError,
};
use vstd::prelude::*;

verus! {

/// Field number of a file payload.
pub const RESPONSE_FILE: u32 = 1;

/// Field number of an embed payload.
pub const RESPONSE_EMBED: u32 = 2;

/// Field number of a presence payload.
pub const RESPONSE_PRESENCE: u32 = 3;

/// Field number of a settings payload.
pub const RESPONSE_SETTINGS: u32 = 4;

/// The payload of a response.
#[derive(Clone, Debug, PartialEq, Eq)]
pub enum ResponseField {
    /// A file to post in the device's channel.
    File(ProtoFile),
    /// Structured content to post in the device's channel.
    Embed(EmbedContent),
    /// A status line to show.
    Presence(Presence),
    /// New settings for the device's connection.
    Settings(Settings),
}

/// A message from a device. A response without a payload is legal and asks
/// for nothing.
#[derive(Clone, Debug, PartialEq, Eq)]
pub struct Response {
    pub field: Option<ResponseField>,
}

/// Mathematical content of a [`ResponseField`].
pub enum ResponseFieldView {
    File(ProtoFileView),
    Embed(EmbedContentView),
    Presence(PresenceView),
    Settings(SettingsView),
}

/// Mathematical content of a [`Response`].
pub struct ResponseView {
    pub field: Option<ResponseFieldView>,
}

impl View for ResponseField {
    type V = ResponseFieldView;

    open spec fn view(&self) -> ResponseFieldView {
        match *self {
            ResponseField::File(m) => ResponseFieldView::File(m@),
            ResponseField::Embed(m) => ResponseFieldView::Embed(m@),
            ResponseField::Presence(m) => ResponseFieldView::Presence(m@),
            ResponseField::Settings(m) => ResponseFieldView::Settings(m@),
        }
    }
}

impl View for Response {
    type V = ResponseView;

    open spec fn view(&self) -> ResponseView {
        ResponseView {
            field: match self.field {
                Some(payload) => Some(payload@),
                None => None,
            },
        }
    }
}

impl ResponseFieldView {
    /// The payload is well formed and its bytes have a length that a varint
    /// can spell.
    pub open spec fn wf(self) -> bool {
        match self {
            ResponseFieldView::File(m) => m.wf() && m.bytes().len() <= u64::MAX,
            ResponseFieldView::Embed(m) => m.wf() && m.bytes().len() <= u64::MAX,
            ResponseFieldView::Presence(m) => m.wf() && m.bytes().len() <= u64::MAX,
            ResponseFieldView::Settings(m) => m.wf() && m.bytes().len() <= u64::MAX,
        }
    }

    /// The field the payload is written as.
    pub open spec fn field(self) -> FieldView {
        match self {
            ResponseFieldView::File(m) => bytes_field(RESPONSE_FILE, m.bytes()),
            ResponseFieldView::Embed(m) => bytes_field(RESPONSE_EMBED, m.bytes()),
            ResponseFieldView::Presence(m) => bytes_field(RESPONSE_PRESENCE, m.bytes()),
            ResponseFieldView::Settings(m) => bytes_field(RESPONSE_SETTINGS, m.bytes()),
        }
    }
}

impl ResponseView {
    /// The response without a payload.
    pub open spec fn empty() -> ResponseView {
        ResponseView { field: None }
    }

    /// The payload, if any, is well formed.
    pub open spec fn wf(self) -> bool {
        self.field matches Some(payload) ==> payload.wf()
    }

    /// The fields the response is written as.
    pub open spec fn fields(self) -> Seq<FieldView> {
        match self.field {
            Some(payload) => Seq::empty().push(payload.field()),
            None => Seq::empty(),
        }
    }

    /// What one more field makes of the response read so far: a payload
    /// replaces the one read before it.
    pub open spec fn step(acc: ResponseView, f: FieldView) -> Option<ResponseView> {
        if bytes_at(f, RESPONSE_FILE) is Some {
            match ProtoFileView::parse(bytes_at(f, RESPONSE_FILE).unwrap()) {
                Some(m) => Some(ResponseView { field: Some(ResponseFieldView::File(m)) }),
                None => None,
            }
        } else if bytes_at(f, RESPONSE_EMBED) is Some {
            match EmbedContentView::parse(bytes_at(f, RESPONSE_EMBED).unwrap()) {
                Some(m) => Some(ResponseView { field: Some(ResponseFieldView::Embed(m)) }),
                None => None,
            }
        } else if bytes_at(f, RESPONSE_PRESENCE) is Some {
            match PresenceView::parse(bytes_at(f, RESPONSE_PRESENCE).unwrap()) {
                Some(m) => Some(ResponseView { field: Some(ResponseFieldView::Presence(m)) }),
                None => None,
            }
        } else if bytes_at(f, RESPONSE_SETTINGS) is Some {
            match SettingsView::parse(bytes_at(f, RESPONSE_SETTINGS).unwrap()) {
                Some(m) => Some(ResponseView { field: Some(ResponseFieldView::Settings(m)) }),
                None => None,
            }
        } else {
            Some(acc)
        }
    }

    /// `step` as a function value, for the walk over the fields.
    pub open spec fn stepper() -> spec_fn(ResponseView, FieldView) -> Option<ResponseView> {
        |acc: ResponseView, f: FieldView| Self::step(acc, f)
    }

    /// The response that a run of fields spells.
    pub open spec fn of_fields(fields: Seq<FieldView>) -> Option<ResponseView> {
        fold_fields(fields, Self::empty(), Self::stepper())
    }

    /// The bytes of the response.
    pub open spec fn bytes(self) -> Seq<u8> {
        fields_bytes(self.fields())
    }

    /// The response that bytes spell.
    pub open spec fn parse(s: Seq<u8>) -> Option<ResponseView> {
        match all_fields(s) {
            Some(fields) => Self::of_fields(fields),
            None => None,
        }
    }

    /// Decoding the encoding of a response gives the response back.
    pub proof fn lemma_round_trip(self)
        requires
            self.wf(),
        ensures
            fields_wf(self.fields()),
            Self::of_fields(self.fields()) == Some(self),
            Self::parse(self.bytes()) == Some(self),
    {
        let step = Self::stepper();
        let f0 = Seq::<FieldView>::empty();
        let a0 = Self::empty();
        assert(fold_fields(f0, a0, step) == Some(a0));
        assert(fields_wf(f0));
        match self.field {
            Some(payload) => {
                match payload {
                    ResponseFieldView::File(m) => {
                        m.lemma_round_trip();
                    },
                    ResponseFieldView::Embed(m) => {
                        m.lemma_round_trip();
                    },
                    ResponseFieldView::Presence(m) => {
                        m.lemma_round_trip();
                    },
                    ResponseFieldView::Settings(m) => {
                        m.lemma_round_trip();
                    },
                }
                lemma_fold_push(f0, payload.field(), a0, step);
                lemma_wf_push(f0, payload.field());
            },
            None => {},
        }
        assert(Self::of_fields(self.fields()) == Some(self));
        lemma_all_fields(self.fields());
    }
}

impl Response {
    /// A response without a payload.
    pub fn new() -> (r: Response)
        ensures
            r@ == ResponseView::empty(),
    {
        Response { field: None }
    }

    /// The fields the response is written as.
    pub fn to_fields(&self) -> (fields: Vec<Field>)
        ensures
            field_views(fields@) == self@.fields(),
            fields_wf(field_views(fields@)),
            self@.wf(),
    {
        let mut fields: Vec<Field> = Vec::new();
        assert(field_views(fields@) =~= Seq::<FieldView>::empty());
        match &self.field {
            Some(ResponseField::File(m)) => {
                let bytes = m.encode();
                assert(bytes.len() == bytes@.len());
                push_nested(&mut fields, RESPONSE_FILE, bytes);
            },
            Some(ResponseField::Embed(m)) => {
                let bytes = m.encode();
                assert(bytes.len() == bytes@.len());
                push_nested(&mut fields, RESPONSE_EMBED, bytes);
            },
            Some(ResponseField::Presence(m)) => {
                let bytes = m.encode();
                assert(bytes.len() == bytes@.len());
                push_nested(&mut fields, RESPONSE_PRESENCE, bytes);
            },
            Some(ResponseField::Settings(m)) => {
                let bytes = m.encode();
                assert(bytes.len() == bytes@.len());
                push_nested(&mut fields, RESPONSE_SETTINGS, bytes);
            },
            None => {},
        }
        fields
    }

    /// Reads a response from its fields.
    pub fn from_fields(fields: &Vec<Field>) -> (r: Option<Response>)
        ensures
            match r {
                Some(m) => ResponseView::of_fields(field_views(fields@)) == Some(m@),
                None => ResponseView::of_fields(field_views(fields@)) is None,
            },
    {
        let ghost views = field_views(fields@);
        let ghost step = ResponseView::stepper();
        let mut m = Response::new();
        let mut i: usize = 0;
        while i < fields.len()
            invariant
                0 <= i <= fields@.len(),
                views == field_views(fields@),
                step == ResponseView::stepper(),
                fold_fields(views.take(i as int), ResponseView::empty(), step) == Some(m@),
            decreases fields@.len() - i,
        {
            let f = &fields[i];
            proof {
                lemma_fold_take(views, i as int, ResponseView::empty(), step);
                assert(views[i as int] == f@);
            }
            let ghost before = m@;
            let mut refused = false;
            match bytes_of(f, RESPONSE_FILE) {
                Some(b) => match ProtoFile::decode(b.as_slice()) {
                    Ok(payload) => {
                        m.field = Some(ResponseField::File(payload));
                    },
                    Err(_) => {
                        refused = true;
                    },
                },
                None => match bytes_of(f, RESPONSE_EMBED) {
                    Some(b) => match EmbedContent::decode(b.as_slice()) {
                        Ok(payload) => {
                            m.field = Some(ResponseField::Embed(payload));
                        },
                        Err(_) => {
                            refused = true;
                        },
                    },
                    None => match bytes_of(f, RESPONSE_PRESENCE) {
                        Some(b) => match Presence::decode(b.as_slice()) {
                            Ok(payload) => {
                                m.field = Some(ResponseField::Presence(payload));
                            },
                            Err(_) => {
                                refused = true;
                            },
                        },
                        None => match bytes_of(f, RESPONSE_SETTINGS) {
                            Some(b) => match Settings::decode(b.as_slice()) {
                                Ok(payload) => {
                                    m.field = Some(ResponseField::Settings(payload));
                                },
                                Err(_) => {
                                    refused = true;
                                },
                            },
                            None => {},
                        },
                    },
                },
            }
            if refused {
                proof {
                    assert(ResponseView::step(before, f@) is None);
                    lemma_fold_refused(views, i + 1, ResponseView::empty(), step);
                }
                return None;
            }
            assert(ResponseView::step(before, f@) == Some(m@));
            i += 1;
        }
        assert(views.take(i as int) =~= views);
        Some(m)
    }

    /// Serialises the response.
    pub fn encode(&self) -> (out: Vec<u8>)
        ensures
            out@ == self@.bytes(),
            self@.wf(),
            ResponseView::parse(out@) == Some(self@),
    {
        let fields = self.to_fields();
        proof {
            self@.lemma_round_trip();
        }
        encode_fields(&fields)
    }

    /// Reads a response from the payload of a frame. `Malformed` when the
    /// bytes are not a run of whole fields, `Invalid` when they are but a
    /// field of the schema cannot be read.
    pub fn decode(bytes: &[u8]) -> (r: Result<Response, DecodeError>)
        ensures
            match r {
                Ok(m) => ResponseView::parse(bytes@) == Some(m@),
                Err(e) => ResponseView::parse(bytes@) is None && (e == DecodeError::Malformed
                    <==> all_fields(bytes@) is None),
            },
    {
        match decode_fields(bytes) {
            Some(fields) => match Response::from_fields(&fields) {
                Some(m) => Ok(m),
                None => Err(DecodeError::Invalid),
            },
            None => Err(DecodeError::Malformed),
        }
    }
}

} // verus!
