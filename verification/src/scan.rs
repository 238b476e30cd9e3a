//! Finding room references in message text.

use vstd::prelude::*;
use vstd::string::*;
use crate::order::same_text;
use crate::queries::texts;

verus! {

/// The successive non-overlapping matches of a regular expression in a
/// text, leftmost first; none where the expression does not compile.
pub uninterp spec fn regex_matches(pattern: Seq<char>, text: Seq<char>) -> Option<Seq<Seq<char>>>;

/// The error of `regex::Regex::new`.
#[verifier::external_type_specification]
#[verifier::external_body]
pub struct ExRegexError(regex::Error);

/// Calls `regex::Regex::new` and then `regex::Regex::find_iter`. Whether
/// the expression compiles, and what it matches, depends on the expression
/// and the text alone.
#[verifier::external_body]
fn regex_find_all(pattern: &str, text: &str) -> (r: Result<Vec<String>, regex::Error>)
    ensures
        match r {
            Ok(found) => regex_matches(pattern@, text@) == Some(texts(found@)),
            Err(_) => regex_matches(pattern@, text@) is None,
        },
{
    let expression = regex::Regex::new(pattern)?;
    Ok(expression.find_iter(text).map(|found| found.as_str().to_string()).collect())
}

/// The expression that a room reference matches: a `#` or `!`, the local
/// part, a colon, and a server name that ends in a letter or digit.
pub open spec fn room_reference() -> Seq<char> {
    r"[#!](?:[\p{Emoji}--\p{Ascii}]|[a-zA-Z0-9.\-_#=])+:[a-zA-Z0-9.\-_]+[a-zA-Z0-9]"@
}

/// The room references in a text, in the order in which they occur.
pub open spec fn spec_extract(text: Seq<char>) -> Seq<Seq<char>> {
    match regex_matches(room_reference(), text) {
        Some(found) => found,
        None => Seq::empty(),
    }
}

/// The room references in a message body.
pub fn extract_identifiers(text: &str) -> (found: Vec<String>)
    ensures
        texts(found@) == spec_extract(text@),
{
    match regex_find_all(
        r"[#!](?:[\p{Emoji}--\p{Ascii}]|[a-zA-Z0-9.\-_#=])+:[a-zA-Z0-9.\-_]+[a-zA-Z0-9]",
        text,
    ) {
        Ok(found) => found,
        Err(_) => {
            let none: Vec<String> = Vec::new();
            assert(texts(none@) =~= Seq::<Seq<char>>::empty());
            none
        },
    }
}

/// Whether an identifier is one of those that are known to break the
/// backfill of the room they name.
pub open spec fn known_bad(identifier: Seq<char>) -> bool {
    ||| identifier == "#emacs:matrix.org"@
    ||| identifier == "!TEwfEWdDwdaFazXmwD:matrix.org"@
    ||| identifier == "#nextcloud_:matrix.org"@
    ||| identifier == "#Nextcloud:matrix.org"@
    ||| identifier == "#NEXTCLOUD:matrix.org"@
    ||| identifier == "#NextCloud:matrix.org"@
    ||| identifier == "!UGYpXmlyESJlkXkarj:matrix.org"@
}

/// Whether an identifier is never to be crawled.
pub fn is_known_bad(identifier: &str) -> (r: bool)
    ensures
        r == known_bad(identifier@),
{
    same_text(identifier, "#emacs:matrix.org") || same_text(
        identifier,
        "!TEwfEWdDwdaFazXmwD:matrix.org",
    ) || same_text(identifier, "#nextcloud_:matrix.org") || same_text(
        identifier,
        "#Nextcloud:matrix.org",
    ) || same_text(identifier, "#NEXTCLOUD:matrix.org") || same_text(
        identifier,
        "#NextCloud:matrix.org",
    ) || same_text(identifier, "!UGYpXmlyESJlkXkarj:matrix.org")
}

/// A message of a room's history. `body` is the text of a text message and
/// `None` for every other kind.
#[derive(Clone, Debug, PartialEq, Eq)]
pub struct ChatMessage {
    pub sender: String,
    pub body: Option<String>,
}

/// Whether a message is searched for room references: it is a text message
/// that the crawler did not send itself.
pub open spec fn searched(message: ChatMessage, own_user_id: Seq<char>) -> bool {
    message.body is Some && message.sender@ != own_user_id
}

/// The bodies of the messages that are searched, in their order.
pub open spec fn spec_bodies(messages: Seq<ChatMessage>, own_user_id: Seq<char>) -> Seq<Seq<char>>
    decreases messages.len(),
{
    if messages.len() == 0 {
        Seq::empty()
    } else {
        let rest = spec_bodies(messages.drop_last(), own_user_id);
        if searched(messages.last(), own_user_id) {
            rest.push(messages.last().body->0@)
        } else {
            rest
        }
    }
}

/// The bodies, of one page of history, that are searched for room
/// references.
pub fn discoverable_bodies(messages: &Vec<ChatMessage>, own_user_id: &str) -> (bodies: Vec<String>)
    ensures
        texts(bodies@) == spec_bodies(messages@, own_user_id@),
{
    let mut bodies: Vec<String> = Vec::new();
    let mut i: usize = 0;
    assert(texts(bodies@) =~= Seq::<Seq<char>>::empty());
    while i < messages.len()
        invariant
            i <= messages@.len(),
            texts(bodies@) == spec_bodies(messages@.take(i as int), own_user_id@),
        decreases messages@.len() - i,
    {
        let ghost before = bodies@;
        proof {
            assert(messages@.take(i + 1).drop_last() =~= messages@.take(i as int));
        }
        match &messages[i].body {
            Some(body) => {
                if !same_text(messages[i].sender.as_str(), own_user_id) {
                    bodies.push(body.clone());
                    assert(texts(bodies@) =~= texts(before).push(body@));
                }
            },
            None => {},
        }
        i += 1;
    }
    proof {
        assert(messages@.take(i as int) =~= messages@);
    }
    bodies
}

} // verus!
