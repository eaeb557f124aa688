//! Mention extraction: the `<@name>` tokens of an embed's headline and body,
//! gathered into a line of plain text so that the platform notifies the
//! users they name.

use crate::embed::EmbedContent;
use crate::text::string_views;
use vstd::prelude::*;
use vstd::string::StringExecFns;

verus! {

/// The pattern of a mention token: `<@`, letters and digits, `>`.
pub const MENTION_PATTERN: &'static str = "(<@[0-9a-zA-Z]*>)";

/// A character that can stand inside a mention: an ASCII letter or digit.
pub open spec fn is_mention_char(c: char) -> bool {
    ||| 0x30 <= c as u32 <= 0x39
    ||| 0x41 <= c as u32 <= 0x5a
    ||| 0x61 <= c as u32 <= 0x7a
}

/// The index just past the run of letters and digits that starts at `i`.
pub open spec fn word_end(text: Seq<char>, i: int) -> int
    decreases text.len() - i,
{
    if 0 <= i < text.len() && is_mention_char(text[i]) {
        word_end(text, i + 1)
    } else {
        i
    }
}

/// Where the mention that starts at `i` ends, if one starts there: `<@`, the
/// longest run of letters and digits, and `>` right after it.
pub open spec fn mention_end(text: Seq<char>, i: int) -> Option<int> {
    if 0 <= i && i + 2 <= text.len() && text[i] == '<' && text[i + 1] == '@' {
        let j = word_end(text, i + 2);
        if j < text.len() && text[j] == '>' {
            Some(j + 1)
        } else {
            None
        }
    } else {
        None
    }
}

/// The mentions of `text` from index `i` on, leftmost first and without
/// overlap.
pub open spec fn mentions_from(text: Seq<char>, i: int) -> Seq<Seq<char>>
    decreases text.len() - i,
{
    if i < 0 || i >= text.len() {
        Seq::empty()
    } else {
        match mention_end(text, i) {
            Some(j) => if i < j <= text.len() {
                seq![text.subrange(i, j)] + mentions_from(text, j)
            } else {
                Seq::empty()
            },
            None => mentions_from(text, i + 1),
        }
    }
}

/// The mentions of `text`, in the order in which they appear.
pub open spec fn mentions_of(text: Seq<char>) -> Seq<Seq<char>> {
    mentions_from(text, 0)
}

/// The tokens in order, each followed by one space.
pub open spec fn mention_line(tokens: Seq<Seq<char>>) -> Seq<char>
    decreases tokens.len(),
{
    if tokens.len() == 0 {
        Seq::empty()
    } else {
        mention_line(tokens.drop_last()) + tokens.last() + seq![' ']
    }
}

/// `regex::Regex::new` on the mention pattern, then `Regex::captures_iter`
/// and `Captures::extract` on `text`. The iterator yields the successive
/// non-overlapping matches, leftmost first; the one group of the pattern
/// spans the whole match. For this pattern a match can only start at `<@`
/// and then runs through every letter and digit up to the `>` that must
/// follow them, which is what `mentions_of` spells out. `requires` admits
/// this pattern only: `Regex::new` fails on text that is no pattern, and
/// `extract` panics unless the pattern has exactly one group.
#[verifier::external_body]
fn find_mentions(pattern: &str, text: &str) -> (found: Vec<String>)
    requires
        pattern@ == MENTION_PATTERN@,
    ensures
        string_views(found@) == mentions_of(text@),
{
    let re = regex::Regex::new(pattern).unwrap();
    re.captures_iter(text).map(|c| c.extract::<1>().1[0].to_string()).collect()
}

/// Joins tokens into one line, a space after each.
pub fn join_mentions(tokens: &Vec<String>) -> (line: String)
    ensures
        line@ == mention_line(string_views(tokens@)),
{
    let ghost views = string_views(tokens@);
    let mut line = String::new();
    let mut i: usize = 0;
    while i < tokens.len()
        invariant
            0 <= i <= tokens@.len(),
            views == string_views(tokens@),
            line@ == mention_line(views.take(i as int)),
        decreases tokens@.len() - i,
    {
        proof {
            assert(views.take(i + 1).drop_last() =~= views.take(i as int));
            assert(views.take(i + 1).last() == tokens@[i as int]@);
        }
        line.append(tokens[i].as_str());
        line.push(' ');
        assert(line@ =~= mention_line(views.take(i + 1)));
        i += 1;
    }
    assert(views.take(i as int) =~= views);
    line
}

/// The mentions of one piece of text, joined into a line.
pub fn mentions_in(text: &str) -> (line: String)
    ensures
        line@ == mention_line(mentions_of(text@)),
{
    let found = find_mentions(MENTION_PATTERN, text);
    join_mentions(&found)
}

/// The mention line of an embed: the mentions of its title, then those of its
/// description, each followed by one space; repeats stay. Text without a
/// mention gives the empty line.
pub fn extract_mentions(e: &EmbedContent) -> (mentions: String)
    ensures
        mentions@ == mention_line(mentions_of(e@.title)) + mention_line(
            mentions_of(e@.description),
        ),
{
    let mut mentions = mentions_in(e.title.as_str());
    let rest = mentions_in(e.description.as_str());
    mentions.append(rest.as_str());
    mentions
}

/// Text in which no mention starts has no mentions from `i` on.
pub proof fn lemma_no_mentions_from(text: Seq<char>, i: int)
    requires
        forall|k: int| mention_end(text, k) is None,
    ensures
        mentions_from(text, i) == Seq::<Seq<char>>::empty(),
    decreases text.len() - i,
{
    if 0 <= i < text.len() {
        assert(mention_end(text, i) is None);
        lemma_no_mentions_from(text, i + 1);
    }
}

/// An embed whose title and description hold no mention has the empty
/// mention line.
pub proof fn lemma_no_mentions(title: Seq<char>, description: Seq<char>)
    requires
        forall|k: int| mention_end(title, k) is None,
        forall|k: int| mention_end(description, k) is None,
    ensures
        mention_line(mentions_of(title)) + mention_line(mentions_of(description)) == Seq::<
            char,
        >::empty(),
{
    lemma_no_mentions_from(title, 0);
    lemma_no_mentions_from(description, 0);
    assert(mention_line(Seq::<Seq<char>>::empty()) + mention_line(Seq::<Seq<char>>::empty())
        =~= Seq::<char>::empty());
}

/// Text without the character `<` holds no mention.
pub proof fn lemma_no_bracket_no_mention(text: Seq<char>)
    requires
        forall|k: int| 0 <= k < text.len() ==> text[k] != '<',
    ensures
        forall|k: int| mention_end(text, k) is None,
{
}

} // verus!
