use discordshim::connection::{step, ConnectionAction, ConnectionEvent, ConnectionState};
use discordshim::dispatch::{handle_task, plan, receive, size_of, Outbound, ReceiveError};
use discordshim::embed::EmbedContent;
use discordshim::frame::FrameError;
use discordshim::inbound::{message, ChatMessage, Inbound};
use discordshim::messages::{Presence, ProtoFile, Settings, TextField};
use discordshim::presence::{presence_summary, PresenceThrottle, PresenceUpdate};
use discordshim::registry::Registry;
use discordshim::response::{Response, ResponseField};
use discordshim::schema::DecodeError;
use discordshim::server::Server;

const SECOND: u128 = 1_000_000_000;

fn settings_response(channel: u64) -> Response {
    Response {
        field: Some(ResponseField::Settings(Settings {
            channel_id: channel,
            command_prefix: "!".to_string(),
            cycle_time: 10,
            presence_enabled: false,
        })),
    }
}

fn chat(channel: u64, content: &str) -> ChatMessage {
    ChatMessage {
        channel,
        author: 7,
        content: content.to_string(),
        is_own: false,
        is_private: false,
        embed_titles: Vec::new(),
        attachments: Vec::new(),
    }
}

#[test]
fn presence_is_throttled_to_one_update_per_cooldown() {
    let mut throttle = PresenceThrottle::new();
    let start = 1_700_000_000 * SECOND;
    assert_eq!(
        PresenceUpdate::Updated("to 3 instances".to_string()),
        throttle.maybe_update_presence(start, 3)
    );
    assert_eq!(PresenceUpdate::Skipped, throttle.maybe_update_presence(start + 59 * SECOND, 4));
    assert_eq!(
        PresenceUpdate::Skipped,
        throttle.maybe_update_presence(start + 60 * SECOND - 1, 4)
    );
    assert_eq!(start, throttle.last_update);
    assert_eq!(
        PresenceUpdate::Updated("to 4 instances".to_string()),
        throttle.maybe_update_presence(start + 60 * SECOND, 4)
    );
    assert_eq!(start + 60 * SECOND, throttle.last_update);
}

#[test]
fn presence_clock_that_went_back_is_skipped() {
    let mut throttle = PresenceThrottle { last_update: 100 * SECOND };
    assert_eq!(PresenceUpdate::Skipped, throttle.maybe_update_presence(50 * SECOND, 1));
    assert_eq!(100 * SECOND, throttle.last_update);
}

#[test]
fn presence_summary_text() {
    assert_eq!("to 0 instances", presence_summary(0));
    assert_eq!("to 12 instances", presence_summary(12));
}

#[test]
fn connection_life() {
    let (state, action) = step(ConnectionState::Connecting, ConnectionEvent::Registered);
    assert_eq!((ConnectionState::Active, ConnectionAction::ReadFrame), (state, action));
    let (state, action) = step(state, ConnectionEvent::FrameHandled);
    assert_eq!((ConnectionState::Active, ConnectionAction::ReadFrame), (state, action));
    let (state, action) = step(state, ConnectionEvent::Decode(DecodeError::Malformed));
    assert_eq!((ConnectionState::Closed, ConnectionAction::Deregister), (state, action));
    for event in [
        ConnectionEvent::Registered,
        ConnectionEvent::FrameHandled,
        ConnectionEvent::Framing(FrameError::ShortRead),
        ConnectionEvent::Decode(DecodeError::Invalid),
        ConnectionEvent::Delivery,
        ConnectionEvent::StreamClosed,
    ] {
        assert_eq!((ConnectionState::Closed, ConnectionAction::Nothing), step(state, event));
    }
}

#[test]
fn connection_every_failure_closes() {
    for event in [
        ConnectionEvent::Framing(FrameError::ShortRead),
        ConnectionEvent::Framing(FrameError::IoError),
        ConnectionEvent::Decode(DecodeError::Malformed),
        ConnectionEvent::Decode(DecodeError::Invalid),
        ConnectionEvent::Delivery,
        ConnectionEvent::StreamClosed,
    ] {
        for state in [ConnectionState::Connecting, ConnectionState::Active] {
            assert_eq!((ConnectionState::Closed, ConnectionAction::Deregister), step(state, event));
        }
    }
    assert_eq!(
        (ConnectionState::Connecting, ConnectionAction::Nothing),
        step(ConnectionState::Connecting, ConnectionEvent::FrameHandled)
    );
}

#[test]
fn task_settings_bind_the_session() {
    let mut registry = Registry::new();
    let handle = registry.register("peer".to_string());
    let response = settings_response(5);
    let task = handle_task(&mut registry, handle, &response, false).unwrap();
    assert_eq!(0, task.channel);
    assert_eq!(Outbound::Nothing, task.outbound);
    let session = &registry.sessions[0];
    assert_eq!(5, session.channel);
    assert_eq!("!", session.prefix);
    assert_eq!(10, session.cycle_time);
    assert_eq!(1, session.num_messages);
    assert_eq!(response.encode().len() as u64, session.total_data);
    assert_eq!(size_of(&response), session.total_data);
    assert_eq!(vec![handle], registry.route_outbound(5));
}

#[test]
fn task_file_is_split_for_the_channel() {
    let mut registry = Registry::new();
    let handle = registry.register("peer".to_string());
    handle_task(&mut registry, handle, &settings_response(9), false).unwrap();
    let response = Response {
        field: Some(ResponseField::File(ProtoFile {
            filename: "a.gcode".to_string(),
            data: vec![1, 2, 3],
        })),
    };
    let task = handle_task(&mut registry, handle, &response, false).unwrap();
    assert_eq!(9, task.channel);
    match &task.outbound {
        Outbound::Files(chunks) => {
            assert_eq!(1, chunks.len());
            assert_eq!("a.gcode", chunks[0].label);
            assert_eq!("a.gcode", chunks[0].filename);
            assert_eq!(vec![1u8, 2, 3], chunks[0].data);
        }
        _ => panic!("a file was expected"),
    }
    assert_eq!(2, registry.sessions[0].num_messages);
}

#[test]
fn task_embed_becomes_content_units() {
    let mut registry = Registry::new();
    let handle = registry.register("peer".to_string());
    let embed = EmbedContent {
        title: "done <@42>".to_string(),
        description: String::new(),
        color: 1,
        author: "a".to_string(),
        textfield: vec![TextField { title: "t".to_string(), text: "v".to_string(), inline: true }],
        snapshot: None,
    };
    let response = Response { field: Some(ResponseField::Embed(embed.clone())) };
    let outbound = plan(&response, true);
    match &outbound {
        Outbound::Content(units) => {
            assert_eq!(1, units.len());
            assert_eq!("<@42> ", units[0].mentions);
            assert_eq!(embed, units[0].embed);
            assert_eq!(None, units[0].image_url);
        }
        _ => panic!("content was expected"),
    }
    assert_eq!(
        Some(outbound),
        handle_task(&mut registry, handle, &response, true).map(|t| t.outbound)
    );
}

#[test]
fn task_presence_and_empty_response() {
    let response = Response {
        field: Some(ResponseField::Presence(Presence { presence: "Printing".to_string() })),
    };
    assert_eq!(Outbound::Presence("Printing".to_string()), plan(&response, false));
    assert_eq!(Outbound::Nothing, plan(&response, true));
    assert_eq!(Outbound::Nothing, plan(&Response::new(), false));
    let mut registry = Registry::new();
    let handle = registry.register("peer".to_string());
    let task = handle_task(&mut registry, handle, &Response::new(), false).unwrap();
    assert_eq!(Outbound::Nothing, task.outbound);
    assert_eq!(1, registry.sessions[0].num_messages);
    assert_eq!(0, registry.sessions[0].total_data);
}

#[test]
fn task_for_a_session_that_is_gone() {
    let mut registry = Registry::new();
    let handle = registry.register("peer".to_string());
    registry.deregister(handle);
    assert_eq!(None, handle_task(&mut registry, handle, &settings_response(5), false));
    assert_eq!(0, registry.len());
}

#[test]
fn receive_decodes_and_handles() {
    let mut registry = Registry::new();
    let handle = registry.register("peer".to_string());
    let payload = settings_response(5).encode();
    let task = receive(&mut registry, handle, &payload, false).unwrap();
    assert_eq!(Outbound::Nothing, task.outbound);
    assert_eq!(5, registry.sessions[0].channel);
    assert_eq!(payload.len() as u64, registry.sessions[0].total_data);
}

#[test]
fn receive_errors_change_nothing() {
    let mut registry = Registry::new();
    let handle = registry.register("peer".to_string());
    assert_eq!(
        Err(ReceiveError::Decode(DecodeError::Malformed)),
        receive(&mut registry, handle, &[0x22], false)
    );
    assert_eq!(
        Err(ReceiveError::Decode(DecodeError::Invalid)),
        receive(&mut registry, handle, &[0x22, 0x01, 0x08], false)
    );
    let payload = settings_response(5).encode();
    assert_eq!(Err(ReceiveError::NoSession), receive(&mut registry, handle + 1, &payload, false));
    registry.sessions[0].num_messages = u64::MAX;
    assert_eq!(Err(ReceiveError::CountersFull), receive(&mut registry, handle, &payload, false));
    assert_eq!(0, registry.sessions[0].channel);
    assert_eq!(0, registry.sessions[0].total_data);
}

#[test]
fn decode_error_removes_the_session_once() {
    let mut server = Server::new();
    let (first, _) = server.connect("a".to_string(), 100 * SECOND, true);
    let (second, _) = server.connect("b".to_string(), 101 * SECOND, true);
    receive(&mut server.clients, first, &settings_response(5).encode(), true).unwrap();
    receive(&mut server.clients, second, &settings_response(5).encode(), true).unwrap();
    let mut state = step(ConnectionState::Connecting, ConnectionEvent::Registered).0;
    let mut removals = 0;
    let error = receive(&mut server.clients, second, &[0xff], true).unwrap_err();
    let event = match error {
        ReceiveError::Decode(e) => ConnectionEvent::Decode(e),
        _ => panic!("a decode error was expected"),
    };
    for event in [event, ConnectionEvent::StreamClosed, ConnectionEvent::Delivery] {
        let (next, action) = step(state, event);
        state = next;
        if action == ConnectionAction::Deregister {
            removals += 1;
            server.disconnect(second, 102 * SECOND, true);
        }
    }
    assert_eq!(1, removals);
    assert_eq!(ConnectionState::Closed, state);
    assert_eq!(vec![first], server.clients.route_outbound(5));
    assert_eq!(1, server.clients.len());
}

#[test]
fn server_connect_and_disconnect() {
    let mut server = Server::new();
    let (a, line) = server.connect("a".to_string(), 1_000 * SECOND, true);
    assert_eq!(Some("to 1 instances".to_string()), line);
    let (b, line) = server.connect("b".to_string(), 1_010 * SECOND, true);
    assert_eq!(None, line);
    assert!(a != b);
    assert_eq!(2, server.clients.len());
    assert_eq!(b, server.clients.sessions[0].handle);
    assert_eq!(None, server.disconnect(a, 1_059 * SECOND, true));
    assert_eq!(1, server.clients.len());
    assert_eq!(Some("to 0 instances".to_string()), server.disconnect(b, 1_060 * SECOND, true));
    assert_eq!(None, server.disconnect(b, 1_061 * SECOND, true));
    assert_eq!(0, server.clients.len());
    assert_eq!(None, server.update_presence(1_100 * SECOND, true));
    assert_eq!(Some("to 0 instances".to_string()), server.update_presence(1_120 * SECOND, true));
}

#[test]
fn server_of_one_user_keeps_its_summary_to_itself() {
    let mut server = Server::new();
    assert_eq!(None, server.update_presence(1_000 * SECOND, false));
    assert_eq!(1_000 * SECOND, server.last_presence_update.last_update);
    assert_eq!(None, server.update_presence(1_030 * SECOND, true));
    assert_eq!(Some("to 0 instances".to_string()), server.update_presence(1_060 * SECOND, true));
}

#[test]
fn server_stats_report() {
    let mut server = Server::new();
    let (a, _) = server.connect("10.0.0.1:1".to_string(), 0, false);
    server.connect("10.0.0.2:2".to_string(), 0, false);
    let payload = settings_response(5).encode();
    receive(&mut server.clients, a, &payload, true).unwrap();
    let expected = format!(
        "ip,num_messages,total_data\n10.0.0.2:2,0,0\n10.0.0.1:1,1,{}\n",
        payload.len()
    );
    assert_eq!(expected, String::from_utf8(server.send_stats()).unwrap());
}

#[test]
fn inbound_plain_message_is_a_command_with_its_attachments() {
    let mut msg = chat(5, "status");
    msg.attachments = vec!["a.gcode".to_string(), "b.stl".to_string()];
    assert_eq!(
        vec![
            Inbound::SendCommand { channel: 5, user: 7, command: "status".to_string() },
            Inbound::SendAttachment {
                channel: 5,
                user: 7,
                index: 0,
                filename: "a.gcode".to_string()
            },
            Inbound::SendAttachment {
                channel: 5,
                user: 7,
                index: 1,
                filename: "b.stl".to_string()
            },
        ],
        message(&msg, 1)
    );
}

#[test]
fn inbound_stats_request_in_the_control_channel() {
    assert_eq!(
        vec![
            Inbound::SendStats { channel: 1 },
            Inbound::SendCommand { channel: 1, user: 7, command: "/stats".to_string() },
        ],
        message(&chat(1, "/stats"), 1)
    );
    assert_eq!(
        vec![Inbound::SendCommand { channel: 2, user: 7, command: "/stats".to_string() }],
        message(&chat(2, "/stats"), 1)
    );
    let mut private = chat(1, "/stats");
    private.is_private = true;
    assert_eq!(vec![Inbound::SendStats { channel: 1 }], message(&private, 1));
}

#[test]
fn inbound_health_check_is_echoed_as_a_command() {
    let mut msg = chat(1, "");
    msg.is_own = true;
    msg.embed_titles = vec![Some("flag-123".to_string())];
    assert_eq!(
        vec![Inbound::SendCommand { channel: 1, user: 7, command: "flag-123".to_string() }],
        message(&msg, 1)
    );
    msg.embed_titles = vec![None];
    assert!(message(&msg, 1).is_empty());
    msg.embed_titles = vec![Some("a".to_string()), Some("b".to_string())];
    assert!(message(&msg, 1).is_empty());
    msg.embed_titles = Vec::new();
    assert!(message(&msg, 1).is_empty());
    msg.embed_titles = vec![Some("flag".to_string())];
    msg.channel = 2;
    assert!(message(&msg, 1).is_empty());
}

#[test]
fn inbound_private_message_is_passed_over() {
    let mut msg = chat(5, "status");
    msg.is_private = true;
    msg.attachments = vec!["a.gcode".to_string()];
    assert!(message(&msg, 1).is_empty());
}
