use discordshim::embed::EmbedContent;
use discordshim::messages::{Presence, ProtoFile, Settings, TextField};
use discordshim::request::{Request, RequestMessage};
use discordshim::response::{Response, ResponseField};
use discordshim::schema::DecodeError;

fn sample_embed() -> EmbedContent {
    EmbedContent {
        title: "Print done <@42>".to_string(),
        description: "benchy.gcode took 1h 02m — ✓".to_string(),
        color: 0x00ff00,
        author: "OctoPrint".to_string(),
        textfield: vec![
            TextField { title: "Bed".to_string(), text: "60 °C".to_string(), inline: true },
            TextField { title: "".to_string(), text: "".to_string(), inline: false },
            TextField { title: "Tool".to_string(), text: "210 °C".to_string(), inline: false },
        ],
        snapshot: Some(ProtoFile {
            filename: "snapshot.png".to_string(),
            data: vec![0, 1, 2, 255],
        }),
    }
}

#[test]
fn request_command_exact_bytes() {
    let r = Request::command(42, "hi".to_string());
    assert_eq!(vec![0x08u8, 0x2a, 0x12, 0x02, 0x68, 0x69], r.encode());
    let r = Request::command(0, String::new());
    assert_eq!(vec![0x12u8, 0x00], r.encode());
    assert_eq!(Vec::<u8>::new(), Request::new().encode());
}

#[test]
fn request_file_exact_bytes() {
    let r = Request::file(1, "a.g".to_string(), vec![9, 8]);
    assert_eq!(
        vec![0x08u8, 0x01, 0x1a, 0x09, 0x0a, 0x03, 0x61, 0x2e, 0x67, 0x12, 0x02, 9, 8],
        r.encode()
    );
}

#[test]
fn request_round_trip() {
    let requests = vec![
        Request::new(),
        Request { user: u64::MAX, message: None },
        Request::command(7, "/status".to_string()),
        Request::command(0, String::new()),
        Request::command(1 << 40, "héllo wörld ✓".to_string()),
        Request::file(3, "model.gcode".to_string(), vec![0; 1000]),
        Request::file(0, String::new(), Vec::new()),
    ];
    for r in requests {
        assert_eq!(Ok(r.clone()), Request::decode(&r.encode()));
    }
}

#[test]
fn response_round_trip() {
    let responses = vec![
        Response::new(),
        Response { field: Some(ResponseField::File(ProtoFile::new())) },
        Response {
            field: Some(ResponseField::File(ProtoFile {
                filename: "timelapse.mp4".to_string(),
                data: (0..5000).map(|i| (i % 256) as u8).collect(),
            })),
        },
        Response { field: Some(ResponseField::Embed(EmbedContent::new())) },
        Response { field: Some(ResponseField::Embed(sample_embed())) },
        Response { field: Some(ResponseField::Presence(Presence::new())) },
        Response {
            field: Some(ResponseField::Presence(Presence { presence: "Printing 42%".to_string() })),
        },
        Response { field: Some(ResponseField::Settings(Settings::new())) },
        Response {
            field: Some(ResponseField::Settings(Settings {
                channel_id: 467700763775205396,
                command_prefix: "!".to_string(),
                cycle_time: -1,
                presence_enabled: true,
            })),
        },
        Response {
            field: Some(ResponseField::Settings(Settings {
                channel_id: u64::MAX,
                command_prefix: "/octo ".to_string(),
                cycle_time: i32::MIN,
                presence_enabled: false,
            })),
        },
    ];
    for r in responses {
        assert_eq!(Ok(r.clone()), Response::decode(&r.encode()));
    }
}

#[test]
fn response_settings_exact_bytes() {
    let r = Response {
        field: Some(ResponseField::Settings(Settings {
            channel_id: 5,
            command_prefix: "!".to_string(),
            cycle_time: 0,
            presence_enabled: true,
        })),
    };
    assert_eq!(vec![0x22u8, 0x07, 0x08, 0x05, 0x12, 0x01, 0x21, 0x20, 0x01], r.encode());
    let r = Response { field: Some(ResponseField::Settings(Settings::new())) };
    assert_eq!(vec![0x22u8, 0x00], r.encode());
}

#[test]
fn settings_negative_cycle_time_takes_ten_bytes() {
    let s = Settings {
        channel_id: 0,
        command_prefix: String::new(),
        cycle_time: -1,
        presence_enabled: false,
    };
    assert_eq!(
        vec![0x18u8, 0xff, 0xff, 0xff, 0xff, 0xff, 0xff, 0xff, 0xff, 0xff, 0x01],
        s.encode()
    );
    assert_eq!(Ok(s.clone()), Settings::decode(&s.encode()));
}

#[test]
fn embed_round_trip_keeps_field_order() {
    let e = sample_embed();
    let back = EmbedContent::decode(&e.encode()).unwrap();
    assert_eq!(e, back);
    assert_eq!("Bed", back.textfield[0].title);
    assert_eq!("Tool", back.textfield[2].title);
    assert_eq!(e, e.copy());
}

#[test]
fn decode_malformed_payload() {
    assert_eq!(Err(DecodeError::Malformed), Response::decode(&[0x22]));
    assert_eq!(Err(DecodeError::Malformed), Response::decode(&[0x22, 0x05, 0x08]));
    assert_eq!(Err(DecodeError::Malformed), Response::decode(&[0x00]));
    assert_eq!(Err(DecodeError::Malformed), Request::decode(&[0x08]));
    assert_eq!(Err(DecodeError::Malformed), Request::decode(&[0x12, 0x02, 0x68]));
    let whole = Response { field: Some(ResponseField::Embed(sample_embed())) }.encode();
    assert_eq!(Err(DecodeError::Malformed), Response::decode(&whole[..whole.len() - 1]));
}

#[test]
fn decode_invalid_payload() {
    assert_eq!(Err(DecodeError::Invalid), Request::decode(&[0x12, 0x02, 0xff, 0xfe]));
    assert_eq!(Err(DecodeError::Invalid), Response::decode(&[0x22, 0x01, 0x08]));
    assert_eq!(Err(DecodeError::Invalid), Response::decode(&[0x1a, 0x03, 0x0a, 0x01, 0x80]));
    assert_eq!(
        Err(DecodeError::Invalid),
        Settings::decode(&[0x18, 0x80, 0x80, 0x80, 0x80, 0x08])
    );
    assert_eq!(Err(DecodeError::Invalid), ProtoFile::decode(&[0x0a, 0x01, 0xc0]));
}

#[test]
fn decode_passes_over_unknown_fields() {
    let bytes = [0x08u8, 0x07, 0x78, 0x01, 0x9a, 0x01, 0x02, 0x41, 0x42, 0x12, 0x01, 0x61];
    assert_eq!(Ok(Request::command(7, "a".to_string())), Request::decode(&bytes));
    let wrong_wire_type = [0x0au8, 0x01, 0x61, 0x10, 0x05];
    assert_eq!(Ok(Request::new()), Request::decode(&wrong_wire_type));
}

#[test]
fn decode_last_payload_wins() {
    let mut bytes = Request::command(1, "first".to_string()).encode();
    bytes.extend_from_slice(&Request::file(2, "f".to_string(), vec![1]).encode());
    let back = Request::decode(&bytes).unwrap();
    assert_eq!(2, back.user);
    assert_eq!(
        Some(RequestMessage::File(ProtoFile { filename: "f".to_string(), data: vec![1] })),
        back.message
    );
}

#[test]
fn request_agrees_with_protobuf() {
    let mut theirs = Vec::new();
    {
        let mut os = protobuf::CodedOutputStream::vec(&mut theirs);
        os.write_uint64(1, 467700763775205396).unwrap();
        os.write_string(2, "/status ✓").unwrap();
        os.flush().unwrap();
    }
    let ours = Request::command(467700763775205396, "/status ✓".to_string()).encode();
    assert_eq!(theirs, ours);
    let mut is = protobuf::CodedInputStream::from_bytes(&ours);
    assert_eq!(Some(8), is.read_raw_tag_or_eof().unwrap());
    assert_eq!(467700763775205396, is.read_uint64().unwrap());
    assert_eq!(Some(18), is.read_raw_tag_or_eof().unwrap());
    assert_eq!("/status ✓", is.read_string().unwrap());
    assert_eq!(None, is.read_raw_tag_or_eof().unwrap());
}

#[test]
fn settings_agree_with_protobuf() {
    let mut inner = Vec::new();
    {
        let mut os = protobuf::CodedOutputStream::vec(&mut inner);
        os.write_uint64(1, 99).unwrap();
        os.write_string(2, "!").unwrap();
        os.write_int32(3, -30).unwrap();
        os.write_bool(4, true).unwrap();
        os.flush().unwrap();
    }
    let mut theirs = Vec::new();
    {
        let mut os = protobuf::CodedOutputStream::vec(&mut theirs);
        os.write_bytes(4, &inner).unwrap();
        os.flush().unwrap();
    }
    let settings = Settings {
        channel_id: 99,
        command_prefix: "!".to_string(),
        cycle_time: -30,
        presence_enabled: true,
    };
    assert_eq!(inner, settings.encode());
    let response = Response { field: Some(ResponseField::Settings(settings)) };
    assert_eq!(theirs, response.encode());
    assert_eq!(Ok(response), Response::decode(&theirs));
    let mut is = protobuf::CodedInputStream::from_bytes(&inner);
    assert_eq!(Some(8), is.read_raw_tag_or_eof().unwrap());
    assert_eq!(99, is.read_uint64().unwrap());
    assert_eq!(Some(18), is.read_raw_tag_or_eof().unwrap());
    assert_eq!("!", is.read_string().unwrap());
    assert_eq!(Some(24), is.read_raw_tag_or_eof().unwrap());
    assert_eq!(-30, is.read_int32().unwrap());
    assert_eq!(Some(32), is.read_raw_tag_or_eof().unwrap());
    assert!(is.read_bool().unwrap());
}
