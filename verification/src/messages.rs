//! Message schema: the requests sent to a device and the responses it sends.
//!
//! Every message type comes with its mathematical view, the fields it is
//! written as, the walk that reads it back from fields, and executable
//! `encode` and `decode` that are proved to agree with both.

use crate::fields::{
    all_fields, decode_fields, encode_fields, field_views, fields_bytes, fields_wf,
    lemma_all_fields, Field, FieldView,
};
use crate::schema::{
    bytes_at, bytes_field, bytes_of, fold_fields, int32_of, int32_to_varint, int32_varint,
    lemma_fold_push, lemma_fold_refused, lemma_fold_take, lemma_int32_round_trip,
    lemma_text_field, lemma_wf_push, push_bytes, push_flag, push_text, push_varint,
    text_field, text_from, text_of, varint_at, varint_field, varint_of, varint_to_int32,
    with_bytes, with_flag, with_text, with_varint, DecodeError,
};
use vstd::prelude::*;
use vstd::slice::slice_to_vec;
use vstd::utf8::encode_utf8;

verus! {

/// Field number of the name of a file.
pub const FILE_FILENAME: u32 = 1;

/// Field number of the bytes of a file.
pub const FILE_DATA: u32 = 2;

/// Field number of the title of a text field.
pub const TEXT_TITLE: u32 = 1;

/// Field number of the text of a text field.
pub const TEXT_TEXT: u32 = 2;

/// Field number of the inline hint of a text field.
pub const TEXT_INLINE: u32 = 3;

/// Field number of the text of a presence.
pub const PRESENCE_TEXT: u32 = 1;

/// Field number of the channel in the settings.
pub const SETTINGS_CHANNEL: u32 = 1;

/// Field number of the command prefix in the settings.
pub const SETTINGS_PREFIX: u32 = 2;

/// Field number of the presence cycle time in the settings.
pub const SETTINGS_CYCLE: u32 = 3;

/// Field number of the presence switch in the settings.
pub const SETTINGS_ENABLED: u32 = 4;

// ---------------------------------------------------------------------------
// ProtoFile
// ---------------------------------------------------------------------------

/// A named run of bytes.
#[derive(Clone, Debug, PartialEq, Eq)]
pub struct ProtoFile {
    pub filename: String,
    pub data: Vec<u8>,
}

/// Mathematical content of a [`ProtoFile`].
pub struct ProtoFileView {
    pub filename: Seq<char>,
    pub data: Seq<u8>,
}

impl View for ProtoFile {
    type V = ProtoFileView;

    open spec fn view(&self) -> ProtoFileView {
        ProtoFileView { filename: self.filename@, data: self.data@ }
    }
}

impl ProtoFileView {
    /// The file with every field at its default.
    pub open spec fn empty() -> ProtoFileView {
        ProtoFileView { filename: Seq::empty(), data: Seq::empty() }
    }

    /// Every length-prefixed part has a length that a varint can spell.
    pub open spec fn wf(self) -> bool {
        &&& encode_utf8(self.filename).len() <= u64::MAX
        &&& self.data.len() <= u64::MAX
    }

    /// The fields the file is written as.
    pub open spec fn fields(self) -> Seq<FieldView> {
        with_bytes(
            with_text(Seq::empty(), FILE_FILENAME, self.filename),
            FILE_DATA,
            self.data,
        )
    }

    /// What one more field makes of the file read so far.
    pub open spec fn step(acc: ProtoFileView, f: FieldView) -> Option<ProtoFileView> {
        if bytes_at(f, FILE_FILENAME) is Some {
            match text_of(bytes_at(f, FILE_FILENAME).unwrap()) {
                Some(t) => Some(ProtoFileView { filename: t, ..acc }),
                None => None,
            }
        } else if bytes_at(f, FILE_DATA) is Some {
            Some(ProtoFileView { data: bytes_at(f, FILE_DATA).unwrap(), ..acc })
        } else {
            Some(acc)
        }
    }

    /// `step` as a function value, for the walk over the fields.
    pub open spec fn stepper() -> spec_fn(ProtoFileView, FieldView) -> Option<ProtoFileView> {
        |acc: ProtoFileView, f: FieldView| Self::step(acc, f)
    }

    /// The file that a run of fields spells.
    pub open spec fn of_fields(fields: Seq<FieldView>) -> Option<ProtoFileView> {
        fold_fields(fields, Self::empty(), Self::stepper())
    }

    /// The bytes of the file.
    pub open spec fn bytes(self) -> Seq<u8> {
        fields_bytes(self.fields())
    }

    /// The file that bytes spell.
    pub open spec fn parse(s: Seq<u8>) -> Option<ProtoFileView> {
        match all_fields(s) {
            Some(fields) => Self::of_fields(fields),
            None => None,
        }
    }

    /// Decoding the encoding of a file gives the file back.
    pub proof fn lemma_round_trip(self)
        requires
            self.wf(),
        ensures
            fields_wf(self.fields()),
            Self::of_fields(self.fields()) == Some(self),
            Self::parse(self.bytes()) == Some(self),
    {
        let step = Self::stepper();
        let f0 = Seq::<FieldView>::empty();
        let f1 = with_text(f0, FILE_FILENAME, self.filename);
        let f2 = with_bytes(f1, FILE_DATA, self.data);
        let a0 = Self::empty();
        let a1 = ProtoFileView { filename: self.filename, ..a0 };
        let a2 = ProtoFileView { data: self.data, ..a1 };
        assert(fold_fields(f0, a0, step) == Some(a0));
        assert(fields_wf(f0));
        lemma_fold_push(f0, text_field(FILE_FILENAME, self.filename), a0, step);
        lemma_text_field(FILE_FILENAME, self.filename);
        if self.filename.len() > 0 {
            lemma_wf_push(f0, text_field(FILE_FILENAME, self.filename));
        } else {
            assert(self.filename =~= Seq::empty());
        }
        assert(fold_fields(f1, a0, step) == Some(a1));
        lemma_fold_push(f1, bytes_field(FILE_DATA, self.data), a0, step);
        if self.data.len() > 0 {
            lemma_wf_push(f1, bytes_field(FILE_DATA, self.data));
        } else {
            assert(self.data =~= Seq::empty());
        }
        assert(fold_fields(f2, a0, step) == Some(a2));
        assert(a2 == self);
        lemma_all_fields(self.fields());
    }
}

impl ProtoFile {
    /// A file with no name and no bytes.
    pub fn new() -> (r: ProtoFile)
        ensures
            r@ == ProtoFileView::empty(),
    {
        ProtoFile { filename: String::new(), data: Vec::new() }
    }

    /// A copy of the file.
    pub fn copy(&self) -> (r: ProtoFile)
        ensures
            r@ == self@,
    {
        ProtoFile { filename: self.filename.clone(), data: slice_to_vec(self.data.as_slice()) }
    }

    /// The fields the file is written as.
    pub fn to_fields(&self) -> (fields: Vec<Field>)
        ensures
            field_views(fields@) == self@.fields(),
            fields_wf(field_views(fields@)),
            self@.wf(),
    {
        let mut fields: Vec<Field> = Vec::new();
        assert(field_views(fields@) =~= Seq::<FieldView>::empty());
        push_text(&mut fields, FILE_FILENAME, &self.filename);
        assert(self.data.len() == self.data@.len());
        push_bytes(&mut fields, FILE_DATA, slice_to_vec(self.data.as_slice()));
        fields
    }

    /// Reads a file from its fields.
    pub fn from_fields(fields: &Vec<Field>) -> (r: Option<ProtoFile>)
        ensures
            match r {
                Some(m) => ProtoFileView::of_fields(field_views(fields@)) == Some(m@),
                None => ProtoFileView::of_fields(field_views(fields@)) is None,
            },
    {
        let ghost views = field_views(fields@);
        let ghost step = ProtoFileView::stepper();
        let mut m = ProtoFile::new();
        let mut i: usize = 0;
        while i < fields.len()
            invariant
                0 <= i <= fields@.len(),
                views == field_views(fields@),
                step == ProtoFileView::stepper(),
                fold_fields(views.take(i as int), ProtoFileView::empty(), step) == Some(m@),
            decreases fields@.len() - i,
        {
            let f = &fields[i];
            proof {
                lemma_fold_take(views, i as int, ProtoFileView::empty(), step);
                assert(views[i as int] == f@);
            }
            match bytes_of(f, FILE_FILENAME) {
                Some(b) => match text_from(b) {
                    Some(t) => {
                        m.filename = t;
                    },
                    None => {
                        proof {
                            lemma_fold_refused(views, i + 1, ProtoFileView::empty(), step);
                        }
                        return None;
                    },
                },
                None => match bytes_of(f, FILE_DATA) {
                    Some(b) => {
                        m.data = slice_to_vec(b.as_slice());
                    },
                    None => {},
                },
            }
            i += 1;
        }
        assert(views.take(i as int) =~= views);
        Some(m)
    }

    /// Serialises the file.
    pub fn encode(&self) -> (out: Vec<u8>)
        ensures
            out@ == self@.bytes(),
            self@.wf(),
            ProtoFileView::parse(out@) == Some(self@),
    {
        let fields = self.to_fields();
        proof {
            self@.lemma_round_trip();
        }
        encode_fields(&fields)
    }

    /// Reads a file from bytes.
    pub fn decode(bytes: &[u8]) -> (r: Result<ProtoFile, DecodeError>)
        ensures
            match r {
                Ok(m) => ProtoFileView::parse(bytes@) == Some(m@),
                Err(e) => ProtoFileView::parse(bytes@) is None && (e == DecodeError::Malformed
                    <==> all_fields(bytes@) is None),
            },
    {
        match decode_fields(bytes) {
            Some(fields) => match ProtoFile::from_fields(&fields) {
                Some(m) => Ok(m),
                None => Err(DecodeError::Invalid),
            },
            None => Err(DecodeError::Malformed),
        }
    }
}

// ---------------------------------------------------------------------------
// Settings
// ---------------------------------------------------------------------------

/// What a device asks the relay to remember about its connection.
#[derive(Clone, Debug, PartialEq, Eq)]
pub struct Settings {
    pub channel_id: u64,
    pub command_prefix: String,
    pub cycle_time: i32,
    pub presence_enabled: bool,
}

/// Mathematical content of [`Settings`].
pub struct SettingsView {
    pub channel_id: u64,
    pub command_prefix: Seq<char>,
    pub cycle_time: i32,
    pub presence_enabled: bool,
}

impl View for Settings {
    type V = SettingsView;

    open spec fn view(&self) -> SettingsView {
        SettingsView {
            channel_id: self.channel_id,
            command_prefix: self.command_prefix@,
            cycle_time: self.cycle_time,
            presence_enabled: self.presence_enabled,
        }
    }
}

impl SettingsView {
    /// The settings with every field at its default.
    pub open spec fn empty() -> SettingsView {
        SettingsView {
            channel_id: 0,
            command_prefix: Seq::empty(),
            cycle_time: 0,
            presence_enabled: false,
        }
    }

    /// Every length-prefixed part has a length that a varint can spell.
    pub open spec fn wf(self) -> bool {
        encode_utf8(self.command_prefix).len() <= u64::MAX
    }

    /// The fields the settings are written as.
    pub open spec fn fields(self) -> Seq<FieldView> {
        with_flag(
            with_varint(
                with_text(
                    with_varint(Seq::empty(), SETTINGS_CHANNEL, self.channel_id),
                    SETTINGS_PREFIX,
                    self.command_prefix,
                ),
                SETTINGS_CYCLE,
                int32_varint(self.cycle_time),
            ),
            SETTINGS_ENABLED,
            self.presence_enabled,
        )
    }

    /// What one more field makes of the settings read so far.
    pub open spec fn step(acc: SettingsView, f: FieldView) -> Option<SettingsView> {
        if varint_at(f, SETTINGS_CHANNEL) is Some {
            Some(SettingsView { channel_id: varint_at(f, SETTINGS_CHANNEL).unwrap(), ..acc })
        } else if bytes_at(f, SETTINGS_PREFIX) is Some {
            match text_of(bytes_at(f, SETTINGS_PREFIX).unwrap()) {
                Some(t) => Some(SettingsView { command_prefix: t, ..acc }),
                None => None,
            }
        } else if varint_at(f, SETTINGS_CYCLE) is Some {
            match int32_of(varint_at(f, SETTINGS_CYCLE).unwrap()) {
                Some(x) => Some(SettingsView { cycle_time: x, ..acc }),
                None => None,
            }
        } else if varint_at(f, SETTINGS_ENABLED) is Some {
            Some(
                SettingsView {
                    presence_enabled: varint_at(f, SETTINGS_ENABLED).unwrap() != 0,
                    ..acc
                },
            )
        } else {
            Some(acc)
        }
    }

    /// `step` as a function value, for the walk over the fields.
    pub open spec fn stepper() -> spec_fn(SettingsView, FieldView) -> Option<SettingsView> {
        |acc: SettingsView, f: FieldView| Self::step(acc, f)
    }

    /// The settings that a run of fields spells.
    pub open spec fn of_fields(fields: Seq<FieldView>) -> Option<SettingsView> {
        fold_fields(fields, Self::empty(), Self::stepper())
    }

    /// The bytes of the settings.
    pub open spec fn bytes(self) -> Seq<u8> {
        fields_bytes(self.fields())
    }

    /// The settings that bytes spell.
    pub open spec fn parse(s: Seq<u8>) -> Option<SettingsView> {
        match all_fields(s) {
            Some(fields) => Self::of_fields(fields),
            None => None,
        }
    }

    /// Decoding the encoding of settings gives the settings back.
    pub proof fn lemma_round_trip(self)
        requires
            self.wf(),
        ensures
            fields_wf(self.fields()),
            Self::of_fields(self.fields()) == Some(self),
            Self::parse(self.bytes()) == Some(self),
    {
        let step = Self::stepper();
        let cycle = int32_varint(self.cycle_time);
        let f0 = Seq::<FieldView>::empty();
        let f1 = with_varint(f0, SETTINGS_CHANNEL, self.channel_id);
        let f2 = with_text(f1, SETTINGS_PREFIX, self.command_prefix);
        let f3 = with_varint(f2, SETTINGS_CYCLE, cycle);
        let f4 = with_flag(f3, SETTINGS_ENABLED, self.presence_enabled);
        let a0 = Self::empty();
        let a1 = SettingsView { channel_id: self.channel_id, ..a0 };
        let a2 = SettingsView { command_prefix: self.command_prefix, ..a1 };
        let a3 = SettingsView { cycle_time: self.cycle_time, ..a2 };
        let a4 = SettingsView { presence_enabled: self.presence_enabled, ..a3 };
        assert(fold_fields(f0, a0, step) == Some(a0));
        assert(fields_wf(f0));
        lemma_fold_push(f0, varint_field(SETTINGS_CHANNEL, self.channel_id), a0, step);
        if self.channel_id != 0 {
            lemma_wf_push(f0, varint_field(SETTINGS_CHANNEL, self.channel_id));
        }
        assert(fold_fields(f1, a0, step) == Some(a1));
        lemma_fold_push(f1, text_field(SETTINGS_PREFIX, self.command_prefix), a0, step);
        lemma_text_field(SETTINGS_PREFIX, self.command_prefix);
        if self.command_prefix.len() > 0 {
            lemma_wf_push(f1, text_field(SETTINGS_PREFIX, self.command_prefix));
        } else {
            assert(self.command_prefix =~= Seq::empty());
        }
        assert(fold_fields(f2, a0, step) == Some(a2));
        lemma_fold_push(f2, varint_field(SETTINGS_CYCLE, cycle), a0, step);
        lemma_int32_round_trip(self.cycle_time);
        if cycle != 0 {
            lemma_wf_push(f2, varint_field(SETTINGS_CYCLE, cycle));
        }
        assert(fold_fields(f3, a0, step) == Some(a3));
        lemma_fold_push(f3, varint_field(SETTINGS_ENABLED, 1), a0, step);
        if self.presence_enabled {
            lemma_wf_push(f3, varint_field(SETTINGS_ENABLED, 1));
        }
        assert(fold_fields(f4, a0, step) == Some(a4));
        assert(a4 == self);
        lemma_all_fields(self.fields());
    }
}

impl Settings {
    /// Settings with every field at its default.
    pub fn new() -> (r: Settings)
        ensures
            r@ == SettingsView::empty(),
    {
        Settings {
            channel_id: 0,
            command_prefix: String::new(),
            cycle_time: 0,
            presence_enabled: false,
        }
    }

    /// The fields the settings are written as.
    pub fn to_fields(&self) -> (fields: Vec<Field>)
        ensures
            field_views(fields@) == self@.fields(),
            fields_wf(field_views(fields@)),
            self@.wf(),
    {
        let mut fields: Vec<Field> = Vec::new();
        assert(field_views(fields@) =~= Seq::<FieldView>::empty());
        push_varint(&mut fields, SETTINGS_CHANNEL, self.channel_id);
        push_text(&mut fields, SETTINGS_PREFIX, &self.command_prefix);
        push_varint(&mut fields, SETTINGS_CYCLE, int32_to_varint(self.cycle_time));
        push_flag(&mut fields, SETTINGS_ENABLED, self.presence_enabled);
        fields
    }

    /// Reads settings from their fields.
    pub fn from_fields(fields: &Vec<Field>) -> (r: Option<Settings>)
        ensures
            match r {
                Some(m) => SettingsView::of_fields(field_views(fields@)) == Some(m@),
                None => SettingsView::of_fields(field_views(fields@)) is None,
            },
    {
        let ghost views = field_views(fields@);
        let ghost step = SettingsView::stepper();
        let mut m = Settings::new();
        let mut i: usize = 0;
        while i < fields.len()
            invariant
                0 <= i <= fields@.len(),
                views == field_views(fields@),
                step == SettingsView::stepper(),
                fold_fields(views.take(i as int), SettingsView::empty(), step) == Some(m@),
            decreases fields@.len() - i,
        {
            let f = &fields[i];
            proof {
                lemma_fold_take(views, i as int, SettingsView::empty(), step);
                assert(views[i as int] == f@);
            }
            match varint_of(f, SETTINGS_CHANNEL) {
                Some(v) => {
                    m.channel_id = v;
                },
                None => match bytes_of(f, SETTINGS_PREFIX) {
                    Some(b) => match text_from(b) {
                        Some(t) => {
                            m.command_prefix = t;
                        },
                        None => {
                            proof {
                                lemma_fold_refused(views, i + 1, SettingsView::empty(), step);
                            }
                            return None;
                        },
                    },
                    None => match varint_of(f, SETTINGS_CYCLE) {
                        Some(v) => match varint_to_int32(v) {
                            Some(x) => {
                                m.cycle_time = x;
                            },
                            None => {
                                proof {
                                    lemma_fold_refused(views, i + 1, SettingsView::empty(), step);
                                }
                                return None;
                            },
                        },
                        None => match varint_of(f, SETTINGS_ENABLED) {
                            Some(v) => {
                                m.presence_enabled = v != 0;
                            },
                            None => {},
                        },
                    },
                },
            }
            i += 1;
        }
        assert(views.take(i as int) =~= views);
        Some(m)
    }

    /// Serialises the settings.
    pub fn encode(&self) -> (out: Vec<u8>)
        ensures
            out@ == self@.bytes(),
            self@.wf(),
            SettingsView::parse(out@) == Some(self@),
    {
        let fields = self.to_fields();
        proof {
            self@.lemma_round_trip();
        }
        encode_fields(&fields)
    }

    /// Reads settings from bytes.
    pub fn decode(bytes: &[u8]) -> (r: Result<Settings, DecodeError>)
        ensures
            match r {
                Ok(m) => SettingsView::parse(bytes@) == Some(m@),
                Err(e) => SettingsView::parse(bytes@) is None && (e == DecodeError::Malformed
                    <==> all_fields(bytes@) is None),
            },
    {
        match decode_fields(bytes) {
            Some(fields) => match Settings::from_fields(&fields) {
                Some(m) => Ok(m),
                None => Err(DecodeError::Invalid),
            },
            None => Err(DecodeError::Malformed),
        }
    }
}

// ---------------------------------------------------------------------------
// Presence
// ---------------------------------------------------------------------------

/// The status line a device wants shown.
#[derive(Clone, Debug, PartialEq, Eq)]
pub struct Presence {
    pub presence: String,
}

/// Mathematical content of a [`Presence`].
pub struct PresenceView {
    pub presence: Seq<char>,
}

impl View for Presence {
    type V = PresenceView;

    open spec fn view(&self) -> PresenceView {
        PresenceView { presence: self.presence@ }
    }
}

impl PresenceView {
    /// The presence with its text at the default.
    pub open spec fn empty() -> PresenceView {
        PresenceView { presence: Seq::empty() }
    }

    /// Every length-prefixed part has a length that a varint can spell.
    pub open spec fn wf(self) -> bool {
        encode_utf8(self.presence).len() <= u64::MAX
    }

    /// The fields the presence is written as.
    pub open spec fn fields(self) -> Seq<FieldView> {
        with_text(Seq::empty(), PRESENCE_TEXT, self.presence)
    }

    /// What one more field makes of the presence read so far.
    pub open spec fn step(acc: PresenceView, f: FieldView) -> Option<PresenceView> {
        if bytes_at(f, PRESENCE_TEXT) is Some {
            match text_of(bytes_at(f, PRESENCE_TEXT).unwrap()) {
                Some(t) => Some(PresenceView { presence: t }),
                None => None,
            }
        } else {
            Some(acc)
        }
    }

    /// `step` as a function value, for the walk over the fields.
    pub open spec fn stepper() -> spec_fn(PresenceView, FieldView) -> Option<PresenceView> {
        |acc: PresenceView, f: FieldView| Self::step(acc, f)
    }

    /// The presence that a run of fields spells.
    pub open spec fn of_fields(fields: Seq<FieldView>) -> Option<PresenceView> {
        fold_fields(fields, Self::empty(), Self::stepper())
    }

    /// The bytes of the presence.
    pub open spec fn bytes(self) -> Seq<u8> {
        fields_bytes(self.fields())
    }

    /// The presence that bytes spell.
    pub open spec fn parse(s: Seq<u8>) -> Option<PresenceView> {
        match all_fields(s) {
            Some(fields) => Self::of_fields(fields),
            None => None,
        }
    }

    /// Decoding the encoding of a presence gives the presence back.
    pub proof fn lemma_round_trip(self)
        requires
            self.wf(),
        ensures
            fields_wf(self.fields()),
            Self::of_fields(self.fields()) == Some(self),
            Self::parse(self.bytes()) == Some(self),
    {
        let step = Self::stepper();
        let f0 = Seq::<FieldView>::empty();
        let f1 = with_text(f0, PRESENCE_TEXT, self.presence);
        let a0 = Self::empty();
        assert(fold_fields(f0, a0, step) == Some(a0));
        assert(fields_wf(f0));
        lemma_fold_push(f0, text_field(PRESENCE_TEXT, self.presence), a0, step);
        lemma_text_field(PRESENCE_TEXT, self.presence);
        if self.presence.len() > 0 {
            lemma_wf_push(f0, text_field(PRESENCE_TEXT, self.presence));
        } else {
            assert(self.presence =~= Seq::empty());
        }
        assert(fold_fields(f1, a0, step) == Some(self));
        lemma_all_fields(self.fields());
    }
}

impl Presence {
    /// A presence with no text.
    pub fn new() -> (r: Presence)
        ensures
            r@ == PresenceView::empty(),
    {
        Presence { presence: String::new() }
    }

    /// The fields the presence is written as.
    pub fn to_fields(&self) -> (fields: Vec<Field>)
        ensures
            field_views(fields@) == self@.fields(),
            fields_wf(field_views(fields@)),
            self@.wf(),
    {
        let mut fields: Vec<Field> = Vec::new();
        assert(field_views(fields@) =~= Seq::<FieldView>::empty());
        push_text(&mut fields, PRESENCE_TEXT, &self.presence);
        fields
    }

    /// Reads a presence from its fields.
    pub fn from_fields(fields: &Vec<Field>) -> (r: Option<Presence>)
        ensures
            match r {
                Some(m) => PresenceView::of_fields(field_views(fields@)) == Some(m@),
                None => PresenceView::of_fields(field_views(fields@)) is None,
            },
    {
        let ghost views = field_views(fields@);
        let ghost step = PresenceView::stepper();
        let mut m = Presence::new();
        let mut i: usize = 0;
        while i < fields.len()
            invariant
                0 <= i <= fields@.len(),
                views == field_views(fields@),
                step == PresenceView::stepper(),
                fold_fields(views.take(i as int), PresenceView::empty(), step) == Some(m@),
            decreases fields@.len() - i,
        {
            let f = &fields[i];
            proof {
                lemma_fold_take(views, i as int, PresenceView::empty(), step);
                assert(views[i as int] == f@);
            }
            match bytes_of(f, PRESENCE_TEXT) {
                Some(b) => match text_from(b) {
                    Some(t) => {
                        m.presence = t;
                    },
                    None => {
                        proof {
                            lemma_fold_refused(views, i + 1, PresenceView::empty(), step);
                        }
                        return None;
                    },
                },
                None => {},
            }
            i += 1;
        }
        assert(views.take(i as int) =~= views);
        Some(m)
    }

    /// Serialises the presence.
    pub fn encode(&self) -> (out: Vec<u8>)
        ensures
            out@ == self@.bytes(),
            self@.wf(),
            PresenceView::parse(out@) == Some(self@),
    {
        let fields = self.to_fields();
        proof {
            self@.lemma_round_trip();
        }
        encode_fields(&fields)
    }

    /// Reads a presence from bytes.
    pub fn decode(bytes: &[u8]) -> (r: Result<Presence, DecodeError>)
        ensures
            match r {
                Ok(m) => PresenceView::parse(bytes@) == Some(m@),
                Err(e) => PresenceView::parse(bytes@) is None && (e == DecodeError::Malformed
                    <==> all_fields(bytes@) is None),
            },
    {
        match decode_fields(bytes) {
            Some(fields) => match Presence::from_fields(&fields) {
                Some(m) => Ok(m),
                None => Err(DecodeError::Invalid),
            },
            None => Err(DecodeError::Malformed),
        }
    }
}

// ---------------------------------------------------------------------------
// TextField
// ---------------------------------------------------------------------------

/// One titled piece of text of an embed, shown inline or as a block.
#[derive(Clone, Debug, PartialEq, Eq)]
pub struct TextField {
    pub title: String,
    pub text: String,
    pub inline: bool,
}

/// Mathematical content of a [`TextField`].
pub struct TextFieldView {
    pub title: Seq<char>,
    pub text: Seq<char>,
    pub inline: bool,
}

impl View for TextField {
    type V = TextFieldView;

    open spec fn view(&self) -> TextFieldView {
        TextFieldView { title: self.title@, text: self.text@, inline: self.inline }
    }
}

impl TextFieldView {
    /// The text field with every field at its default.
    pub open spec fn empty() -> TextFieldView {
        TextFieldView { title: Seq::empty(), text: Seq::empty(), inline: false }
    }

    /// Every length-prefixed part has a length that a varint can spell.
    pub open spec fn wf(self) -> bool {
        &&& encode_utf8(self.title).len() <= u64::MAX
        &&& encode_utf8(self.text).len() <= u64::MAX
    }

    /// The fields the text field is written as.
    pub open spec fn fields(self) -> Seq<FieldView> {
        with_flag(
            with_text(with_text(Seq::empty(), TEXT_TITLE, self.title), TEXT_TEXT, self.text),
            TEXT_INLINE,
            self.inline,
        )
    }

    /// What one more field makes of the text field read so far.
    pub open spec fn step(acc: TextFieldView, f: FieldView) -> Option<TextFieldView> {
        if bytes_at(f, TEXT_TITLE) is Some {
            match text_of(bytes_at(f, TEXT_TITLE).unwrap()) {
                Some(t) => Some(TextFieldView { title: t, ..acc }),
                None => None,
            }
        } else if bytes_at(f, TEXT_TEXT) is Some {
            match text_of(bytes_at(f, TEXT_TEXT).unwrap()) {
                Some(t) => Some(TextFieldView { text: t, ..acc }),
                None => None,
            }
        } else if varint_at(f, TEXT_INLINE) is Some {
            Some(TextFieldView { inline: varint_at(f, TEXT_INLINE).unwrap() != 0, ..acc })
        } else {
            Some(acc)
        }
    }

    /// `step` as a function value, for the walk over the fields.
    pub open spec fn stepper() -> spec_fn(TextFieldView, FieldView) -> Option<TextFieldView> {
        |acc: TextFieldView, f: FieldView| Self::step(acc, f)
    }

    /// The text field that a run of fields spells.
    pub open spec fn of_fields(fields: Seq<FieldView>) -> Option<TextFieldView> {
        fold_fields(fields, Self::empty(), Self::stepper())
    }

    /// The bytes of the text field.
    pub open spec fn bytes(self) -> Seq<u8> {
        fields_bytes(self.fields())
    }

    /// The text field that bytes spell.
    pub open spec fn parse(s: Seq<u8>) -> Option<TextFieldView> {
        match all_fields(s) {
            Some(fields) => Self::of_fields(fields),
            None => None,
        }
    }

    /// Decoding the encoding of a text field gives the text field back.
    pub proof fn lemma_round_trip(self)
        requires
            self.wf(),
        ensures
            fields_wf(self.fields()),
            Self::of_fields(self.fields()) == Some(self),
            Self::parse(self.bytes()) == Some(self),
    {
        let step = Self::stepper();
        let f0 = Seq::<FieldView>::empty();
        let f1 = with_text(f0, TEXT_TITLE, self.title);
        let f2 = with_text(f1, TEXT_TEXT, self.text);
        let f3 = with_flag(f2, TEXT_INLINE, self.inline);
        let a0 = Self::empty();
        let a1 = TextFieldView { title: self.title, ..a0 };
        let a2 = TextFieldView { text: self.text, ..a1 };
        let a3 = TextFieldView { inline: self.inline, ..a2 };
        assert(fold_fields(f0, a0, step) == Some(a0));
        assert(fields_wf(f0));
        lemma_fold_push(f0, text_field(TEXT_TITLE, self.title), a0, step);
        lemma_text_field(TEXT_TITLE, self.title);
        if self.title.len() > 0 {
            lemma_wf_push(f0, text_field(TEXT_TITLE, self.title));
        } else {
            assert(self.title =~= Seq::empty());
        }
        assert(fold_fields(f1, a0, step) == Some(a1));
        lemma_fold_push(f1, text_field(TEXT_TEXT, self.text), a0, step);
        lemma_text_field(TEXT_TEXT, self.text);
        if self.text.len() > 0 {
            lemma_wf_push(f1, text_field(TEXT_TEXT, self.text));
        } else {
            assert(self.text =~= Seq::empty());
        }
        assert(fold_fields(f2, a0, step) == Some(a2));
        lemma_fold_push(f2, varint_field(TEXT_INLINE, 1), a0, step);
        if self.inline {
            lemma_wf_push(f2, varint_field(TEXT_INLINE, 1));
        }
        assert(fold_fields(f3, a0, step) == Some(a3));
        assert(a3 == self);
        lemma_all_fields(self.fields());
    }
}

impl TextField {
    /// A text field with no title and no text, shown as a block.
    pub fn new() -> (r: TextField)
        ensures
            r@ == TextFieldView::empty(),
    {
        TextField { title: String::new(), text: String::new(), inline: false }
    }

    /// A copy of the text field.
    pub fn copy(&self) -> (r: TextField)
        ensures
            r@ == self@,
    {
        TextField { title: self.title.clone(), text: self.text.clone(), inline: self.inline }
    }

    /// The fields the text field is written as.
    pub fn to_fields(&self) -> (fields: Vec<Field>)
        ensures
            field_views(fields@) == self@.fields(),
            fields_wf(field_views(fields@)),
            self@.wf(),
    {
        let mut fields: Vec<Field> = Vec::new();
        assert(field_views(fields@) =~= Seq::<FieldView>::empty());
        push_text(&mut fields, TEXT_TITLE, &self.title);
        push_text(&mut fields, TEXT_TEXT, &self.text);
        push_flag(&mut fields, TEXT_INLINE, self.inline);
        fields
    }

    /// Reads a text field from its fields.
    pub fn from_fields(fields: &Vec<Field>) -> (r: Option<TextField>)
        ensures
            match r {
                Some(m) => TextFieldView::of_fields(field_views(fields@)) == Some(m@),
                None => TextFieldView::of_fields(field_views(fields@)) is None,
            },
    {
        let ghost views = field_views(fields@);
        let ghost step = TextFieldView::stepper();
        let mut m = TextField::new();
        let mut i: usize = 0;
        while i < fields.len()
            invariant
                0 <= i <= fields@.len(),
                views == field_views(fields@),
                step == TextFieldView::stepper(),
                fold_fields(views.take(i as int), TextFieldView::empty(), step) == Some(m@),
            decreases fields@.len() - i,
        {
            let f = &fields[i];
            proof {
                lemma_fold_take(views, i as int, TextFieldView::empty(), step);
                assert(views[i as int] == f@);
            }
            match bytes_of(f, TEXT_TITLE) {
                Some(b) => match text_from(b) {
                    Some(t) => {
                        m.title = t;
                    },
                    None => {
                        proof {
                            lemma_fold_refused(views, i + 1, TextFieldView::empty(), step);
                        }
                        return None;
                    },
                },
                None => match bytes_of(f, TEXT_TEXT) {
                    Some(b) => match text_from(b) {
                        Some(t) => {
                            m.text = t;
                        },
                        None => {
                            proof {
                                lemma_fold_refused(views, i + 1, TextFieldView::empty(), step);
                            }
                            return None;
                        },
                    },
                    None => match varint_of(f, TEXT_INLINE) {
                        Some(v) => {
                            m.inline = v != 0;
                        },
                        None => {},
                    },
                },
            }
            i += 1;
        }
        assert(views.take(i as int) =~= views);
        Some(m)
    }

    /// Serialises the text field.
    pub fn encode(&self) -> (out: Vec<u8>)
        ensures
            out@ == self@.bytes(),
            self@.wf(),
            TextFieldView::parse(out@) == Some(self@),
    {
        let fields = self.to_fields();
        proof {
            self@.lemma_round_trip();
        }
        encode_fields(&fields)
    }

    /// Reads a text field from bytes.
    pub fn decode(bytes: &[u8]) -> (r: Result<TextField, DecodeError>)
        ensures
            match r {
                Ok(m) => TextFieldView::parse(bytes@) == Some(m@),
                Err(e) => TextFieldView::parse(bytes@) is None && (e == DecodeError::Malformed
                    <==> all_fields(bytes@) is None),
            },
    {
        match decode_fields(bytes) {
            Some(fields) => match TextField::from_fields(&fields) {
                Some(m) => Ok(m),
                None => Err(DecodeError::Invalid),
            },
            None => Err(DecodeError::Malformed),
        }
    }
}

} // verus!
