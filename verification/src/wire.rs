//! The chat protocol's texts, exactly as they go over the wire.

use crate::username::Username;
use vstd::prelude::*;

verus! {

/// The prompt every new connection is greeted with.
pub const WELCOME: &'static str = "Welcome to budgetchat! What shall I call you? \n";

/// Sent to a peer that asks for a name somebody in the room already has.
pub const ALREADY_TAKEN: &'static str = "username is already taken\n";

/// What the others read when `name` joins.
pub open spec fn entered_notice(name: Seq<char>) -> Seq<char> {
    "* "@ + name + " has entered the room\n"@
}

/// What the others read when `name` is gone.
pub open spec fn left_notice(name: Seq<char>) -> Seq<char> {
    "* "@ + name + " has left the room\n"@
}

/// A line said by `name`, as the others read it. The line keeps whatever
/// line ending it came with.
pub open spec fn chat_message(name: Seq<char>, line: Seq<char>) -> Seq<char> {
    "["@ + name + "] "@ + line
}

/// The names one after another, with a comma and a space between neighbours.
pub open spec fn comma_separated(names: Seq<Seq<char>>) -> Seq<char>
    decreases names.len(),
{
    if names.len() == 0 {
        Seq::empty()
    } else if names.len() == 1 {
        names[0]
    } else {
        comma_separated(names.drop_last()) + ", "@ + names.last()
    }
}

/// What a newcomer reads: who is in the room.
pub open spec fn roster_message(names: Seq<Seq<char>>) -> Seq<char> {
    "* The room contains: "@ + comma_separated(names) + "\n"@
}

/// The texts of a sequence of usernames.
pub open spec fn texts(usernames: Seq<Username>) -> Seq<Seq<char>> {
    usernames.map_values(|u: Username| u@)
}

/// Builds the notice that `name` has entered.
pub fn format_entered(name: &str) -> (text: String)
    ensures
        text@ == entered_notice(name@),
{
    let mut text = String::from_str("* ");
    text.append(name);
    text.append(" has entered the room\n");
    text
}

/// Builds the notice that `name` has left.
pub fn format_left(name: &str) -> (text: String)
    ensures
        text@ == left_notice(name@),
{
    let mut text = String::from_str("* ");
    text.append(name);
    text.append(" has left the room\n");
    text
}

/// Builds the message that carries `line`, said by `name`, to the others.
pub fn format_chat(name: &str, line: &str) -> (text: String)
    ensures
        text@ == chat_message(name@, line@),
{
    let mut text = String::from_str("[");
    text.append(name);
    text.append("] ");
    text.append(line);
    text
}

/// Builds the roster message for a newcomer from the names in the room.
pub fn format_roster(names: &Vec<Username>) -> (text: String)
    ensures
        text@ == roster_message(texts(names@)),
{
    let mut text = String::from_str("* The room contains: ");
    let mut i: usize = 0;
    while i < names.len()
        invariant
            i <= names.len(),
            text@ == "* The room contains: "@ + comma_separated(texts(names@.take(i as int))),
        decreases names.len() - i,
    {
        proof {
            let before = texts(names@.take(i as int));
            let after = texts(names@.take(i + 1));
            assert(after.drop_last() == before);
            assert(after.last() == names@[i as int]@);
        }
        if i > 0 {
            text.append(", ");
        }
        text.append(names[i].as_str());
        i += 1;
    }
    assert(names@.take(names.len() as int) == names@);
    text.append("\n");
    text
}

} // verus!
