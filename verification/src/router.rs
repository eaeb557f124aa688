//! Routing of what users write in a channel to the devices bound to it.

use crate::frame::{frame_of, write_frame};
use crate::registry::{routed, Registry};
use crate::request::{Request, RequestMessageView, RequestView};
use crate::messages::ProtoFileView;
use vstd::prelude::*;

verus! {

/// A frame and the sessions to write it to, in registry order.
#[derive(Clone, Debug, PartialEq, Eq)]
pub struct Delivery {
    pub frame: Vec<u8>,
    pub targets: Vec<u64>,
}

/// What is sent for `data` on `channel`: nothing when `data` is too long for
/// the length prefix of a frame, else its frame and the sessions bound to
/// the channel.
pub open spec fn delivery_of(sessions: Seq<crate::session::SessionView>, channel: u64, data: Seq<
    u8,
>) -> Option<(Seq<u8>, Seq<u64>)> {
    if data.len() <= u32::MAX {
        Some((frame_of(data), routed(sessions, channel)))
    } else {
        None
    }
}

/// The view of a delivery, if there is one.
pub open spec fn delivery_view(delivery: Option<Delivery>) -> Option<(Seq<u8>, Seq<u64>)> {
    match delivery {
        Some(d) => Some((d.frame@, d.targets@)),
        None => None,
    }
}

/// Frames `data` and picks the sessions bound to `channel`. A failed write
/// to one of them is no reason to leave out the others.
pub fn send_data(registry: &Registry, channel: u64, data: &[u8]) -> (r: Option<Delivery>)
    ensures
        delivery_view(r) == delivery_of(registry@, channel, data@),
{
    if data.len() > u32::MAX as usize {
        return None;
    }
    let frame = write_frame(data);
    let targets = registry.route_outbound(channel);
    Some(Delivery { frame, targets })
}

/// Sends a line of text that `user` wrote in `channel` to the devices bound
/// to the channel.
pub fn send_command(registry: &Registry, channel: u64, user: u64, command: String) -> (r: Option<
    Delivery,
>)
    ensures
        delivery_view(r) == delivery_of(
            registry@,
            channel,
            (RequestView { user, message: Some(RequestMessageView::Command(command@)) }).bytes(),
        ),
{
    let request = Request::command(user, command);
    let data = request.encode();
    send_data(registry, channel, data.as_slice())
}

/// Sends a file that `user` uploaded to `channel` to the devices bound to
/// the channel.
pub fn send_file(
    registry: &Registry,
    channel: u64,
    user: u64,
    filename: String,
    file: Vec<u8>,
) -> (r: Option<Delivery>)
    ensures
        delivery_view(r) == delivery_of(
            registry@,
            channel,
            (RequestView {
                user,
                message: Some(
                    RequestMessageView::File(ProtoFileView { filename: filename@, data: file@ }),
                ),
            }).bytes(),
        ),
{
    let request = Request::file(user, filename, file);
    let data = request.encode();
    send_data(registry, channel, data.as_slice())
}

} // verus!
