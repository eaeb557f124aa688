//! Inbound chat events: what the relay does with a message that the chat
//! platform delivers.

use crate::text::{copy_string, string_views};
use vstd::prelude::*;
use vstd::string::StringExecFns;

verus! {

/// The text that asks for the statistics report.
pub const STATS_COMMAND: &'static str = "/stats";

/// A message as the chat platform delivers it, reduced to what the relay
/// looks at.
#[derive(Clone, Debug, PartialEq, Eq)]
pub struct ChatMessage {
    /// Channel the message was written in.
    pub channel: u64,
    /// User who wrote it.
    pub author: u64,
    /// Its text.
    pub content: String,
    /// Whether the relay's own account wrote it.
    pub is_own: bool,
    /// Whether it was written in a private conversation.
    pub is_private: bool,
    /// The title of each of its embeds, where the embed has one.
    pub embed_titles: Vec<Option<String>>,
    /// The file name of each of its attachments.
    pub attachments: Vec<String>,
}

/// Mathematical content of a [`ChatMessage`].
pub struct ChatMessageView {
    pub channel: u64,
    pub author: u64,
    pub content: Seq<char>,
    pub is_own: bool,
    pub is_private: bool,
    pub embed_titles: Seq<Option<Seq<char>>>,
    pub attachments: Seq<Seq<char>>,
}

/// The view of a title that may be missing.
pub open spec fn title_view(title: Option<String>) -> Option<Seq<char>> {
    match title {
        Some(t) => Some(t@),
        None => None,
    }
}

impl View for ChatMessage {
    type V = ChatMessageView;

    open spec fn view(&self) -> ChatMessageView {
        ChatMessageView {
            channel: self.channel,
            author: self.author,
            content: self.content@,
            is_own: self.is_own,
            is_private: self.is_private,
            embed_titles: self.embed_titles@.map_values(|t: Option<String>| title_view(t)),
            attachments: string_views(self.attachments@),
        }
    }
}

/// One thing to do about a message.
#[derive(Clone, Debug, PartialEq, Eq)]
pub enum Inbound {
    /// Post the statistics report in the channel.
    SendStats { channel: u64 },
    /// Route a line of text to the devices of the channel.
    SendCommand { channel: u64, user: u64, command: String },
    /// Fetch attachment `index` of the message and route it, under its file
    /// name, to the devices of the channel.
    SendAttachment { channel: u64, user: u64, index: usize, filename: String },
}

/// Mathematical content of an [`Inbound`].
pub enum InboundView {
    SendStats { channel: u64 },
    SendCommand { channel: u64, user: u64, command: Seq<char> },
    SendAttachment { channel: u64, user: u64, index: usize, filename: Seq<char> },
}

impl View for Inbound {
    type V = InboundView;

    open spec fn view(&self) -> InboundView {
        match *self {
            Inbound::SendStats { channel } => InboundView::SendStats { channel },
            Inbound::SendCommand { channel, user, command } => InboundView::SendCommand {
                channel,
                user,
                command: command@,
            },
            Inbound::SendAttachment { channel, user, index, filename } => {
                InboundView::SendAttachment { channel, user, index, filename: filename@ }
            },
        }
    }
}

/// The views of a run of inbound items.
pub open spec fn inbound_views(items: Seq<Inbound>) -> Seq<InboundView> {
    items.map_values(|a: Inbound| a@)
}

/// Whether the message asks for the statistics report: `/stats`, written in
/// the control channel.
pub open spec fn asks_for_stats(msg: ChatMessageView, control: u64) -> bool {
    msg.channel == control && msg.content == STATS_COMMAND@
}

/// The marker of a health-check message: the title of its one embed, for a
/// message of the relay's own account in the control channel.
pub open spec fn health_marker(msg: ChatMessageView, control: u64) -> Option<Seq<char>> {
    if msg.is_own && msg.channel == control && msg.embed_titles.len() == 1 {
        msg.embed_titles[0]
    } else {
        None
    }
}

/// The attachments of a message, each to be routed to the devices of the
/// channel.
pub open spec fn attachment_items(msg: ChatMessageView) -> Seq<InboundView> {
    Seq::new(
        msg.attachments.len(),
        |i: int|
            InboundView::SendAttachment {
                channel: msg.channel,
                user: msg.author,
                index: i as usize,
                filename: msg.attachments[i],
            },
    )
}

/// What is done about a message, in order. A request for statistics is
/// answered whoever wrote it. After that, a message of the relay's own
/// account is passed on only as a health check, that is as the command its
/// marker spells; a private message is passed over; and any other message is
/// routed as a command, followed by its attachments.
pub open spec fn planned_inbound(msg: ChatMessageView, control: u64) -> Seq<InboundView> {
    let stats = if asks_for_stats(msg, control) {
        seq![InboundView::SendStats { channel: msg.channel }]
    } else {
        Seq::empty()
    };
    if msg.is_own {
        match health_marker(msg, control) {
            Some(marker) => stats.push(
                InboundView::SendCommand {
                    channel: msg.channel,
                    user: msg.author,
                    command: marker,
                },
            ),
            None => stats,
        }
    } else if msg.is_private {
        stats
    } else {
        stats.push(
            InboundView::SendCommand {
                channel: msg.channel,
                user: msg.author,
                command: msg.content,
            },
        ) + attachment_items(msg)
    }
}

/// Decides what to do about a message, given the control channel.
pub fn message(msg: &ChatMessage, control: u64) -> (items: Vec<Inbound>)
    ensures
        inbound_views(items@) == planned_inbound(msg@, control),
{
    let mut items: Vec<Inbound> = Vec::new();
    assert(inbound_views(items@) =~= Seq::<InboundView>::empty());
    let stats_command = String::from_str(STATS_COMMAND);
    if msg.channel == control && msg.content == stats_command {
        items.push(Inbound::SendStats { channel: msg.channel });
        assert(inbound_views(items@) =~= seq![InboundView::SendStats { channel: msg.channel }]);
    }
    let ghost stats = inbound_views(items@);
    if msg.is_own {
        if msg.channel == control && msg.embed_titles.len() == 1 {
            assert(msg@.embed_titles[0] == title_view(msg.embed_titles@[0]));
            match &msg.embed_titles[0] {
                Some(marker) => {
                    let item = Inbound::SendCommand {
                        channel: msg.channel,
                        user: msg.author,
                        command: copy_string(marker),
                    };
                    assert(inbound_views(items@.push(item)) =~= stats.push(item@));
                    items.push(item);
                },
                None => {},
            }
        }
        return items;
    }
    if msg.is_private {
        return items;
    }
    let item = Inbound::SendCommand {
        channel: msg.channel,
        user: msg.author,
        command: copy_string(&msg.content),
    };
    assert(inbound_views(items@.push(item)) =~= stats.push(item@));
    items.push(item);
    let ghost head = inbound_views(items@);
    let ghost rest = attachment_items(msg@);
    let mut i: usize = 0;
    while i < msg.attachments.len()
        invariant
            0 <= i <= msg.attachments@.len(),
            rest == attachment_items(msg@),
            inbound_views(items@) =~= head + rest.take(i as int),
        decreases msg.attachments@.len() - i,
    {
        let next = Inbound::SendAttachment {
            channel: msg.channel,
            user: msg.author,
            index: i,
            filename: copy_string(&msg.attachments[i]),
        };
        proof {
            assert(msg@.attachments[i as int] == msg.attachments@[i as int]@);
            assert(next@ == rest[i as int]);
            assert(inbound_views(items@.push(next)) =~= inbound_views(items@).push(next@));
            assert(rest.take(i + 1) =~= rest.take(i as int).push(rest[i as int]));
        }
        items.push(next);
        i += 1;
    }
    assert(rest.take(i as int) =~= rest);
    items
}

/// A private message of another user is passed over, and so is a message of
/// the relay's own account outside the control channel: neither reaches a
/// device.
pub proof fn lemma_passed_over(msg: ChatMessageView, control: u64)
    requires
        (msg.is_own && msg.channel != control) || (!msg.is_own && msg.is_private),
    ensures
        forall|i: int|
            0 <= i < planned_inbound(msg, control).len() ==> (#[trigger] planned_inbound(
                msg,
                control,
            )[i]) is SendStats,
{
}

} // verus!
