use discordshim::messages::Settings;
use discordshim::registry::{count_reached, Registry};
use discordshim::router::{send_command, send_data, send_file};
use discordshim::request::Request;
use discordshim::frame::{read_frame, write_frame};
use discordshim::session::{Session, Stats};
use discordshim::stats::{format_stats, header_row, join_records, stats_row};

fn settings(channel: u64) -> Settings {
    Settings {
        channel_id: channel,
        command_prefix: "!".to_string(),
        cycle_time: 30,
        presence_enabled: true,
    }
}

fn registry_with_channels(channels: &[u64]) -> (Registry, Vec<u64>) {
    let mut registry = Registry::new();
    let mut handles = Vec::new();
    for (i, channel) in channels.iter().enumerate() {
        let handle = registry.register(format!("10.0.0.{i}:5000"));
        assert!(registry.apply_settings(handle, &settings(*channel)));
        handles.push(handle);
    }
    (registry, handles)
}

#[test]
fn session_starts_unset() {
    let s = Session::new(3, "127.0.0.1:1".to_string());
    assert_eq!(3, s.handle);
    assert_eq!(0, s.channel);
    assert_eq!("", s.prefix);
    assert_eq!(0, s.cycle_time);
    assert!(!s.enabled);
    assert_eq!(0, s.num_messages);
    assert_eq!(0, s.total_data);
    assert_eq!(s, s.copy());
}

#[test]
fn session_counts_and_configures() {
    let mut s = Session::new(0, "peer".to_string());
    assert!(s.can_count(10));
    s.record_frame(10);
    s.record_frame(0);
    s.record_frame(5);
    assert_eq!(3, s.num_messages);
    assert_eq!(15, s.total_data);
    s.apply_settings(&settings(77));
    assert_eq!(77, s.channel);
    assert_eq!("!", s.prefix);
    assert_eq!(30, s.cycle_time);
    assert!(s.enabled);
    assert_eq!(3, s.num_messages);
    assert_eq!(15, s.total_data);
    assert_eq!(
        Stats { ip: "peer".to_string(), num_messages: 3, total_data: 15 },
        s.get_stats()
    );
    assert!(s.can_count(u64::MAX - 15));
    assert!(!s.can_count(u64::MAX - 14));
    s.num_messages = u64::MAX;
    assert!(!s.can_count(0));
}

#[test]
fn register_puts_the_newest_session_first() {
    let mut registry = Registry::new();
    assert_eq!(0, registry.len());
    let a = registry.register("a".to_string());
    let b = registry.register("b".to_string());
    let c = registry.register("c".to_string());
    assert!(a != b && b != c && a != c);
    assert_eq!(3, registry.len());
    let order: Vec<u64> = registry.sessions.iter().map(|s| s.handle).collect();
    assert_eq!(vec![c, b, a], order);
    assert_eq!(Some(0), registry.position(c));
    assert_eq!(Some(2), registry.position(a));
    assert_eq!(None, registry.position(c + 1));
    assert!(registry.can_register());
}

#[test]
fn routing_reaches_the_sessions_of_the_channel() {
    let (registry, handles) = registry_with_channels(&[5, 0, 5]);
    assert_eq!(vec![handles[2], handles[0]], registry.route_outbound(5));
    assert_eq!(2, registry.route_outbound(5).len());
    assert_eq!(Vec::<u64>::new(), registry.route_outbound(0));
    assert_eq!(Vec::<u64>::new(), registry.route_outbound(6));
}

#[test]
fn routing_to_the_unset_channel_reaches_no_one() {
    let (registry, _) = registry_with_channels(&[0, 0, 1, 0]);
    assert!(registry.route_outbound(0).is_empty());
    assert!(Registry::new().route_outbound(0).is_empty());
    let mut fresh = Registry::new();
    fresh.register("peer".to_string());
    assert!(fresh.route_outbound(0).is_empty());
}

#[test]
fn deregister_removes_by_identity_and_is_idempotent() {
    let (mut registry, handles) = registry_with_channels(&[5, 5, 5]);
    assert!(registry.deregister(handles[1]));
    assert_eq!(vec![handles[2], handles[0]], registry.route_outbound(5));
    assert!(!registry.deregister(handles[1]));
    assert_eq!(vec![handles[2], handles[0]], registry.route_outbound(5));
    assert_eq!(2, registry.len());
    assert!(registry.deregister(handles[0]));
    assert!(registry.deregister(handles[2]));
    assert_eq!(0, registry.len());
    assert!(registry.route_outbound(5).is_empty());
    let again = registry.register("late".to_string());
    assert!(!handles.contains(&again));
}

#[test]
fn registry_counts_frames_of_one_session() {
    let (mut registry, handles) = registry_with_channels(&[1, 2]);
    assert!(registry.can_count(handles[0], 100));
    assert!(registry.record_frame(handles[0], 100));
    assert!(registry.record_frame(handles[0], 20));
    assert!(!registry.record_frame(handles[1] + 10, 1));
    let rows = registry.broadcast_stats();
    assert_eq!(
        vec![
            Stats { ip: "10.0.0.1:5000".to_string(), num_messages: 0, total_data: 0 },
            Stats { ip: "10.0.0.0:5000".to_string(), num_messages: 2, total_data: 120 },
        ],
        rows
    );
    assert!(!registry.apply_settings(handles[1] + 10, &settings(9)));
    assert!(!registry.can_count(handles[0], u64::MAX));
    assert!(registry.can_count(handles[1] + 10, u64::MAX));
}

#[test]
fn count_reached_counts_successes() {
    assert_eq!(0, count_reached(&Vec::new()));
    assert_eq!(2, count_reached(&vec![true, false, true]));
    assert_eq!(0, count_reached(&vec![false, false]));
    assert_eq!(3, count_reached(&vec![true, true, true]));
}

#[test]
fn send_command_frames_the_request_for_the_channel() {
    let (registry, handles) = registry_with_channels(&[5, 0, 5]);
    let delivery = send_command(&registry, 5, 42, "status".to_string()).unwrap();
    assert_eq!(vec![handles[2], handles[0]], delivery.targets);
    let (payload, used) = read_frame(&delivery.frame).unwrap();
    assert_eq!(delivery.frame.len(), used);
    assert_eq!(Ok(Request::command(42, "status".to_string())), Request::decode(&payload));
    let nobody = send_command(&registry, 0, 42, "status".to_string()).unwrap();
    assert!(nobody.targets.is_empty());
}

#[test]
fn send_file_frames_the_request_for_the_channel() {
    let (registry, handles) = registry_with_channels(&[8]);
    let delivery = send_file(&registry, 8, 1, "a.gcode".to_string(), vec![1, 2, 3]).unwrap();
    assert_eq!(vec![handles[0]], delivery.targets);
    let (payload, _) = read_frame(&delivery.frame).unwrap();
    assert_eq!(
        Ok(Request::file(1, "a.gcode".to_string(), vec![1, 2, 3])),
        Request::decode(&payload)
    );
}

#[test]
fn send_data_frames_any_bytes() {
    let (registry, _) = registry_with_channels(&[8]);
    let delivery = send_data(&registry, 9, &[1, 2, 3]).unwrap();
    assert_eq!(write_frame(&[1, 2, 3]), delivery.frame);
    assert!(delivery.targets.is_empty());
}

#[test]
fn stats_report_has_a_header_and_a_row_per_session() {
    let rows = vec![
        Stats { ip: "127.0.0.1:1234".to_string(), num_messages: 3, total_data: 100 },
        Stats { ip: "[::1]:80".to_string(), num_messages: 0, total_data: u64::MAX },
    ];
    assert_eq!(
        "ip,num_messages,total_data\n127.0.0.1:1234,3,100\n[::1]:80,0,18446744073709551615\n",
        String::from_utf8(format_stats(&rows)).unwrap()
    );
}

#[test]
fn stats_report_without_sessions_is_the_header() {
    assert_eq!(
        "ip,num_messages,total_data\n",
        String::from_utf8(format_stats(&Vec::new())).unwrap()
    );
}

#[test]
fn stats_report_quotes_what_needs_quoting() {
    let rows = vec![Stats { ip: "a,\"b\"".to_string(), num_messages: 1, total_data: 2 }];
    assert_eq!(
        "ip,num_messages,total_data\n\"a,\"\"b\"\"\",1,2\n",
        String::from_utf8(format_stats(&rows)).unwrap()
    );
}

#[test]
fn stats_rows_and_records() {
    assert_eq!(vec!["ip", "num_messages", "total_data"], header_row());
    let row = Stats { ip: "peer".to_string(), num_messages: 12, total_data: 345 };
    assert_eq!(vec!["peer", "12", "345"], stats_row(&row));
    assert_eq!(vec![1u8, 2, 3], join_records(&vec![vec![1], vec![], vec![2, 3]]));
    assert_eq!(Vec::<u8>::new(), join_records(&Vec::new()));
}
