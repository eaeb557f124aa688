use discordshim::embed::EmbedContent;
use discordshim::embedbuilder::{
    build_content_units, build_embeds, content_unit, split_file, split_file_at, ATTACHMENT_CEILING,
    MAX_FIELDS,
};
use discordshim::messages::{ProtoFile, TextField};
use discordshim::text::decimal_string;

fn fields(n: usize) -> Vec<TextField> {
    (0..n)
        .map(|i| TextField { title: format!("t{i}"), text: format!("v{i}"), inline: i % 2 == 0 })
        .collect()
}

#[test]
fn decimal_numerals() {
    assert_eq!("0", decimal_string(0));
    assert_eq!("7", decimal_string(7));
    assert_eq!("10", decimal_string(10));
    assert_eq!("1234567890", decimal_string(1234567890));
    assert_eq!("18446744073709551615", decimal_string(u64::MAX));
}

#[test]
fn split_small_file_keeps_its_name() {
    for size in [0usize, 1, 9, 10] {
        let data = vec![5u8; size];
        let chunks = split_file_at("a.gcode", &data, 10);
        assert_eq!(1, chunks.len());
        assert_eq!("a.gcode", chunks[0].label);
        assert_eq!(data, chunks[0].data);
    }
}

#[test]
fn split_counts_and_labels() {
    let data: Vec<u8> = (0..25).collect();
    let chunks = split_file_at("a.gcode", &data, 10);
    assert_eq!(3, chunks.len());
    assert_eq!("a.gcode (part 1/3)", chunks[0].label);
    assert_eq!("a.gcode (part 2/3)", chunks[1].label);
    assert_eq!("a.gcode (part 3/3)", chunks[2].label);
    assert_eq!("a.gcode", chunks[0].filename);
    assert_eq!("a.gcode", chunks[2].filename);
    assert_eq!((0..10).collect::<Vec<u8>>(), chunks[0].data);
    assert_eq!((10..20).collect::<Vec<u8>>(), chunks[1].data);
    assert_eq!((20..25).collect::<Vec<u8>>(), chunks[2].data);
}

#[test]
fn split_number_of_chunks_is_size_over_ceiling_rounded_up() {
    for ceiling in [1usize, 2, 3, 7, 10] {
        for size in 1usize..40 {
            let data: Vec<u8> = (0..size).map(|i| i as u8).collect();
            let chunks = split_file_at("f", &data, ceiling);
            assert_eq!((size + ceiling - 1) / ceiling, chunks.len());
            let mut joined = Vec::new();
            for c in &chunks {
                assert!(!c.data.is_empty() && c.data.len() <= ceiling);
                joined.extend_from_slice(&c.data);
            }
            assert_eq!(data, joined);
        }
    }
}

#[test]
fn split_at_the_platform_ceiling() {
    assert_eq!(8 * 1024 * 1024, ATTACHMENT_CEILING);
    let data = vec![1u8; ATTACHMENT_CEILING];
    let chunks = split_file("big.bin", &data);
    assert_eq!(1, chunks.len());
    assert_eq!("big.bin", chunks[0].label);
    let data = vec![1u8; ATTACHMENT_CEILING + 1];
    let chunks = split_file("big.bin", &data);
    assert_eq!(2, chunks.len());
    assert_eq!("big.bin (part 1/2)", chunks[0].label);
    assert_eq!(ATTACHMENT_CEILING, chunks[0].data.len());
    assert_eq!("big.bin (part 2/2)", chunks[1].label);
    assert_eq!(1, chunks[1].data.len());
}

#[test]
fn split_into_ten_or_more_parts() {
    let data = vec![0u8; 12];
    let chunks = split_file_at("x", &data, 1);
    assert_eq!(12, chunks.len());
    assert_eq!("x (part 1/12)", chunks[0].label);
    assert_eq!("x (part 10/12)", chunks[9].label);
    assert_eq!("x (part 12/12)", chunks[11].label);
}

#[test]
fn embeds_of_content_without_fields() {
    let mut content = EmbedContent::new();
    content.title = "title".to_string();
    let embeds = build_embeds(&content);
    assert_eq!(vec![content], embeds);
}

#[test]
fn embeds_hold_at_most_the_platform_number_of_fields() {
    assert_eq!(25, MAX_FIELDS);
    for n in [1usize, 24, 25, 26, 50, 51, 60] {
        let content = EmbedContent {
            title: "title".to_string(),
            description: "description".to_string(),
            color: -7,
            author: "author".to_string(),
            textfield: fields(n),
            snapshot: Some(ProtoFile { filename: "s.png".to_string(), data: vec![1, 2] }),
        };
        let embeds = build_embeds(&content);
        assert_eq!((n + 24) / 25, embeds.len());
        let mut joined = Vec::new();
        for (k, e) in embeds.iter().enumerate() {
            assert!(e.textfield.len() <= 25);
            assert_eq!(-7, e.color);
            assert_eq!("author", e.author);
            if k == 0 {
                assert_eq!("title", e.title);
                assert_eq!("description", e.description);
                assert_eq!(content.snapshot, e.snapshot);
            } else {
                assert_eq!("", e.title);
                assert_eq!("", e.description);
                assert_eq!(None, e.snapshot);
            }
            joined.extend(e.textfield.iter().cloned());
        }
        assert_eq!(content.textfield, joined);
    }
}

#[test]
fn content_unit_refers_to_its_snapshot() {
    let mut embed = EmbedContent::new();
    embed.title = "done <@1>".to_string();
    embed.description = "<@two>".to_string();
    embed.snapshot = Some(ProtoFile { filename: "snap.png".to_string(), data: vec![1] });
    let unit = content_unit(embed.clone());
    assert_eq!("<@1> <@two> ", unit.mentions);
    assert_eq!(Some("attachment://snap.png".to_string()), unit.image_url);
    assert_eq!(embed, unit.embed);
    let unit = content_unit(EmbedContent::new());
    assert_eq!("", unit.mentions);
    assert_eq!(None, unit.image_url);
}

#[test]
fn content_units_mention_once() {
    let content = EmbedContent {
        title: "<@a>".to_string(),
        description: String::new(),
        color: 0,
        author: String::new(),
        textfield: fields(30),
        snapshot: Some(ProtoFile { filename: "s.png".to_string(), data: vec![1] }),
    };
    let units = build_content_units(&content);
    assert_eq!(2, units.len());
    assert_eq!("<@a> ", units[0].mentions);
    assert_eq!(Some("attachment://s.png".to_string()), units[0].image_url);
    assert_eq!(25, units[0].embed.textfield.len());
    assert_eq!("", units[1].mentions);
    assert_eq!(None, units[1].image_url);
    assert_eq!(5, units[1].embed.textfield.len());
    assert_eq!("t25", units[1].embed.textfield[0].title);
}
