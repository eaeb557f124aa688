use discordshim::embed::EmbedContent;
use discordshim::mentions::{extract_mentions, join_mentions, mentions_in};

#[test]
fn test_extract_mentions_empty() {
    let e = EmbedContent::new();
    let mentions = extract_mentions(&e);
    assert_eq!("", mentions);
}

#[test]
fn test_extract_mentions_title() {
    let mut e = EmbedContent::new();
    e.title = "<@12345678910> <@Everyone>".to_string();
    let mentions = extract_mentions(&e);
    assert_eq!("<@12345678910> <@Everyone> ", mentions);
}

#[test]
fn test_extract_mentions_description() {
    let mut e = EmbedContent::new();
    e.description = "<@12345678910> <@Everyone>".to_string();
    let mentions = extract_mentions(&e);
    assert_eq!("<@12345678910> <@Everyone> ", mentions);
}

#[test]
fn mentions_title_then_description_without_dedup() {
    let mut e = EmbedContent::new();
    e.title = "hello <@bob> and <@alice>".to_string();
    e.description = "again <@bob>, then <@carol>".to_string();
    assert_eq!("<@bob> <@alice> <@bob> <@carol> ", extract_mentions(&e));
}

#[test]
fn mentions_absent_give_empty_line() {
    let mut e = EmbedContent::new();
    e.title = "printer finished".to_string();
    e.description = "no one to tell, a < b and b > a, mail@example.org".to_string();
    assert_eq!("", extract_mentions(&e));
}

#[test]
fn mentions_need_the_closing_bracket_right_after_the_name() {
    assert_eq!("", mentions_in("<@bob"));
    assert_eq!("", mentions_in("<@bob smith>"));
    assert_eq!("", mentions_in("<@bob!>"));
    assert_eq!("", mentions_in("< @bob>"));
    assert_eq!("", mentions_in("<bob>"));
}

#[test]
fn mentions_may_have_an_empty_name() {
    assert_eq!("<@> ", mentions_in("<@>"));
}

#[test]
fn mentions_start_at_the_leftmost_opening() {
    assert_eq!("<@abc> ", mentions_in("<@<@abc>"));
    assert_eq!("<@a> <@b> ", mentions_in("<@a><@b>"));
    assert_eq!("<@a> ", mentions_in("x<@a>>"));
}

#[test]
fn mentions_among_text_that_is_not_ascii() {
    assert_eq!("<@Zoë> ".replace("ë", "e"), mentions_in("héllo → <@Zoe> ✓"));
    assert_eq!("", mentions_in("<@Zoë>"));
}

#[test]
fn join_mentions_puts_a_space_after_each() {
    let tokens = vec!["<@a>".to_string(), "<@b>".to_string()];
    assert_eq!("<@a> <@b> ", join_mentions(&tokens));
    assert_eq!("", join_mentions(&Vec::new()));
}
