//! Dispatch: what the relay does with one response of a device.

use crate::embedbuilder::{
    build_content_units, chunk_views, content_units, file_chunks, split_file, unit_views,
    ContentUnit, ContentUnitView, FileChunk, FileChunkView, ATTACHMENT_CEILING,
};
use crate::registry::{configured_at, counted_at, counters_fit, has_handle, Registry};
use crate::response::{Response, ResponseField, ResponseFieldView, ResponseView};
use crate::schema::DecodeError;
use crate::session::SessionView;
use crate::text::copy_string;
use vstd::prelude::*;

verus! {

/// What a response asks the platform for.
#[derive(Clone, Debug, PartialEq, Eq)]
pub enum Outbound {
    /// The pieces of a file, to post one by one, each with its label.
    Files(Vec<FileChunk>),
    /// The units of an embed, to post one by one.
    Content(Vec<ContentUnit>),
    /// A status line to show.
    Presence(String),
    /// Nothing.
    Nothing,
}

/// Mathematical content of an [`Outbound`].
pub enum OutboundView {
    Files(Seq<FileChunkView>),
    Content(Seq<ContentUnitView>),
    Presence(Seq<char>),
    Nothing,
}

impl View for Outbound {
    type V = OutboundView;

    open spec fn view(&self) -> OutboundView {
        match *self {
            Outbound::Files(chunks) => OutboundView::Files(chunk_views(chunks@)),
            Outbound::Content(units) => OutboundView::Content(unit_views(units@)),
            Outbound::Presence(text) => OutboundView::Presence(text@),
            Outbound::Nothing => OutboundView::Nothing,
        }
    }
}

/// What a response asks the platform for: the pieces of a file, the units of
/// an embed, a status line, or nothing for settings and for a response
/// without a payload. A relay that serves the devices of many users
/// (`cloud`) shows the status line of none of them.
pub open spec fn planned(response: ResponseView, cloud: bool) -> OutboundView {
    match response.field {
        Some(ResponseFieldView::File(file)) => OutboundView::Files(
            file_chunks(file.filename, file.data, ATTACHMENT_CEILING as nat),
        ),
        Some(ResponseFieldView::Embed(embed)) => OutboundView::Content(content_units(embed)),
        Some(ResponseFieldView::Presence(presence)) => if cloud {
            OutboundView::Nothing
        } else {
            OutboundView::Presence(presence.presence)
        },
        Some(ResponseFieldView::Settings(_)) => OutboundView::Nothing,
        None => OutboundView::Nothing,
    }
}

/// The size of a response as it is counted: the length of its encoding.
pub open spec fn message_size(response: ResponseView) -> u64 {
    response.bytes().len() as u64
}

/// The sessions after the one with this handle handled `response`: the frame
/// is counted, and settings are taken over.
pub open spec fn handled(sessions: Seq<SessionView>, handle: u64, response: ResponseView) -> Seq<
    SessionView,
> {
    let counted = counted_at(sessions, handle, message_size(response));
    match response.field {
        Some(ResponseFieldView::Settings(settings)) => configured_at(counted, handle, settings),
        _ => counted,
    }
}

/// The channel of the session with this handle, if it is live.
pub open spec fn channel_of(sessions: Seq<SessionView>, handle: u64) -> Option<u64> {
    if has_handle(sessions, handle) {
        Some(
            sessions[choose|i: int|
                0 <= i < sessions.len() && (#[trigger] sessions[i]).handle == handle].channel,
        )
    } else {
        None
    }
}

/// What came of one response: the channel the session was bound to when the
/// response arrived, and what is to be sent there. Pieces and units are sent
/// one by one, in order; the first that the platform refuses ends the
/// connection.
#[derive(Clone, Debug, PartialEq, Eq)]
pub struct Task {
    pub channel: u64,
    pub outbound: Outbound,
}

/// Why a payload led to no task.
#[derive(Clone, Copy, Debug, PartialEq, Eq, Structural)]
pub enum ReceiveError {
    /// The payload is no response.
    Decode(DecodeError),
    /// No live session has the handle.
    NoSession,
    /// The counters of the session cannot take the frame.
    CountersFull,
}

/// The size of a response as it is counted.
pub fn size_of(response: &Response) -> (size: u64)
    ensures
        size == message_size(response@),
{
    let bytes = response.encode();
    bytes.len() as u64
}

/// Lays out what a response asks the platform for.
pub fn plan(response: &Response, cloud: bool) -> (outbound: Outbound)
    ensures
        outbound@ == planned(response@, cloud),
{
    match &response.field {
        Some(ResponseField::File(file)) => Outbound::Files(
            split_file(file.filename.as_str(), file.data.as_slice()),
        ),
        Some(ResponseField::Embed(embed)) => Outbound::Content(build_content_units(embed)),
        Some(ResponseField::Presence(presence)) => if cloud {
            Outbound::Nothing
        } else {
            Outbound::Presence(copy_string(&presence.presence))
        },
        Some(ResponseField::Settings(_)) => Outbound::Nothing,
        None => Outbound::Nothing,
    }
}

/// Handles one response of the session with this handle: counts the frame,
/// takes over settings, and lays out what is to be sent to the channel the
/// session was bound to when the response arrived. `None`, and nothing
/// changed, when no live session has the handle.
pub fn handle_task(registry: &mut Registry, handle: u64, response: &Response, cloud: bool) -> (r:
    Option<Task>)
    requires
        old(registry).wf(),
        counters_fit(old(registry)@, handle, message_size(response@)),
    ensures
        final(registry).wf(),
        final(registry)@ == handled(old(registry)@, handle, response@),
        final(registry).next_handle == old(registry).next_handle,
        r is Some <==> has_handle(old(registry)@, handle),
        r matches Some(task) ==> Some(task.channel) == channel_of(old(registry)@, handle)
            && task.outbound@ == planned(response@, cloud),
{
    let channel = match registry.position(handle) {
        Some(i) => {
            assert(registry@[i as int] == registry.sessions@[i as int]@);
            proof {
                let k = choose|k: int|
                    0 <= k < registry@.len() && (#[trigger] registry@[k]).handle == handle;
                assert(k == i);
            }
            registry.sessions[i].channel
        },
        None => {
            proof {
                assert(counted_at(registry@, handle, message_size(response@)) =~= registry@);
                assert(configured_at(
                    registry@,
                    handle,
                    crate::messages::SettingsView::empty(),
                ).len() == registry@.len());
                match response@.field {
                    Some(ResponseFieldView::Settings(settings)) => {
                        assert(configured_at(registry@, handle, settings) =~= registry@);
                    },
                    _ => {},
                }
            }
            return None;
        },
    };
    let size = size_of(response);
    registry.record_frame(handle, size);
    match &response.field {
        Some(ResponseField::Settings(settings)) => {
            registry.apply_settings(handle, settings);
        },
        _ => {},
    }
    Some(Task { channel, outbound: plan(response, cloud) })
}

/// What becomes of the payload of one frame from the session with this
/// handle. A payload that is no response, a handle that is not live and
/// counters that are full leave the registry as it was.
pub fn receive(registry: &mut Registry, handle: u64, payload: &[u8], cloud: bool) -> (r: Result<
    Task,
    ReceiveError,
>)
    requires
        old(registry).wf(),
    ensures
        final(registry).wf(),
        final(registry).next_handle == old(registry).next_handle,
        match r {
            Ok(task) => ResponseView::parse(payload@) matches Some(response) && has_handle(
                old(registry)@,
                handle,
            ) && counters_fit(old(registry)@, handle, message_size(response)) && final(registry)@
                == handled(old(registry)@, handle, response) && Some(task.channel) == channel_of(
                old(registry)@,
                handle,
            ) && task.outbound@ == planned(response, cloud),
            Err(ReceiveError::Decode(e)) => ResponseView::parse(payload@) is None && (e
                == DecodeError::Malformed <==> crate::fields::all_fields(payload@) is None)
                && final(registry)@ == old(registry)@,
            Err(ReceiveError::NoSession) => ResponseView::parse(payload@) is Some && !has_handle(
                old(registry)@,
                handle,
            ) && final(registry)@ == old(registry)@,
            Err(ReceiveError::CountersFull) => ResponseView::parse(payload@) matches Some(
                response,
            ) && has_handle(old(registry)@, handle) && !counters_fit(
                old(registry)@,
                handle,
                message_size(response),
            ) && final(registry)@ == old(registry)@,
        },
{
    let response = match Response::decode(payload) {
        Ok(response) => response,
        Err(e) => {
            return Err(ReceiveError::Decode(e));
        },
    };
    if registry.position(handle).is_none() {
        return Err(ReceiveError::NoSession);
    }
    if !registry.can_count(handle, size_of(&response)) {
        return Err(ReceiveError::CountersFull);
    }
    match handle_task(registry, handle, &response, cloud) {
        Some(task) => Ok(task),
        None => Err(ReceiveError::NoSession),
    }
}

} // verus!
