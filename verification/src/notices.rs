//! The texts the server sends: replies to one client and notices to a room.

use crate::text::{decimal, push_decimal};
use vstd::prelude::*;

verus! {

/// The room every client starts in.
pub const MAIN: &'static str = "main";

/// The first line a client receives.
pub const WELCOME: &'static str = "Welcome!";

/// The help text, sent on arrival and on `/help`.
pub const HELP_MSG: &'static str = "/help - show this help\n\
/quit - leave the server\n\
/print - list every name in use\n\
/rooms - list the rooms and how many are in each\n\
/users - list the members of your room\n\
/join <room> - move to a room\n\
/name <name> - take a new name\n\
anything else is said to your room";

/// The reply to `/join` without a room name.
pub const JOIN_USAGE: &'static str = "usage: /join <room>";

/// The reply to `/name` without a name.
pub const NAME_USAGE: &'static str = "usage: /name <name>";

/// The second line a client receives: its assigned name.
pub open spec fn you_are(name: Seq<char>) -> Seq<char> {
    "You are "@ + name
}

/// The notice a room receives when `name` arrives in it.
pub open spec fn joined_notice(name: Seq<char>, room: Seq<char>) -> Seq<char> {
    name + " joined "@ + room + " room"@
}

/// The notice a room receives when `name` departs from it.
pub open spec fn left_notice(name: Seq<char>, room: Seq<char>) -> Seq<char> {
    name + " left "@ + room + " room"@
}

/// What `name` says to its room with the line `text`.
pub open spec fn chat_line(name: Seq<char>, text: Seq<char>) -> Seq<char> {
    name + ": "@ + text
}

/// The reply to `/rooms`, given the summary line.
pub open spec fn rooms_line(summary: Seq<char>) -> Seq<char> {
    "Rooms: "@ + summary
}

/// The reply to `/users`, given the room and its listing.
pub open spec fn users_line(room: Seq<char>, listing: Seq<char>) -> Seq<char> {
    "Users in "@ + room + ": "@ + listing
}

/// The reply to `/join` with the room the client is in.
pub open spec fn already_in(room: Seq<char>) -> Seq<char> {
    "you are already in "@ + room
}

/// The reply to a `/name` that succeeded.
pub open spec fn name_changed(name: Seq<char>) -> Seq<char> {
    "Your name has been changed to "@ + name
}

/// The reply to a `/name` for a name somebody holds.
pub open spec fn name_taken(name: Seq<char>) -> Seq<char> {
    "This name "@ + name + " has been used"@
}

/// The notice to a client that fell behind and lost `count` broadcasts.
pub open spec fn missed_notice(count: nat) -> Seq<char> {
    "missed "@ + decimal(count) + " messages"@
}

/// `first` followed by `second`.
fn pair(first: &str, second: &str) -> (text: String)
    ensures
        text@ == first@ + second@,
{
    let mut text = first.to_owned();
    text.append(second);
    text
}

/// `first`, `second`, `third` and `fourth`, one after the other.
fn quad(first: &str, second: &str, third: &str, fourth: &str) -> (text: String)
    ensures
        text@ == first@ + second@ + third@ + fourth@,
{
    let mut text = first.to_owned();
    text.append(second);
    text.append(third);
    text.append(fourth);
    text
}

/// Builds the line that tells a client its name.
pub fn make_you_are(name: &str) -> (text: String)
    ensures
        text@ == you_are(name@),
{
    pair("You are ", name)
}

/// Builds the arrival notice of `name` for `room`.
pub fn make_joined_notice(name: &str, room: &str) -> (text: String)
    ensures
        text@ == joined_notice(name@, room@),
{
    quad(name, " joined ", room, " room")
}

/// Builds the departure notice of `name` for `room`.
pub fn make_left_notice(name: &str, room: &str) -> (text: String)
    ensures
        text@ == left_notice(name@, room@),
{
    quad(name, " left ", room, " room")
}

/// Builds what `name` says with the line `text`.
pub fn make_chat_line(name: &str, text: &str) -> (line: String)
    ensures
        line@ == chat_line(name@, text@),
{
    let mut line = pair(name, ": ");
    line.append(text);
    line
}

/// Builds the reply to `/rooms`.
pub fn make_rooms_line(summary: &str) -> (text: String)
    ensures
        text@ == rooms_line(summary@),
{
    pair("Rooms: ", summary)
}

/// Builds the reply to `/users`.
pub fn make_users_line(room: &str, listing: &str) -> (text: String)
    ensures
        text@ == users_line(room@, listing@),
{
    quad("Users in ", room, ": ", listing)
}

/// Builds the reply to `/join` with the current room.
pub fn make_already_in(room: &str) -> (text: String)
    ensures
        text@ == already_in(room@),
{
    pair("you are already in ", room)
}

/// Builds the reply to a `/name` that succeeded.
pub fn make_name_changed(name: &str) -> (text: String)
    ensures
        text@ == name_changed(name@),
{
    pair("Your name has been changed to ", name)
}

/// Builds the reply to a `/name` for a name somebody holds.
pub fn make_name_taken(name: &str) -> (text: String)
    ensures
        text@ == name_taken(name@),
{
    let mut text = pair("This name ", name);
    text.append(" has been used");
    text
}

/// Builds the notice for `count` lost broadcasts.
pub fn make_missed_notice(count: usize) -> (text: String)
    ensures
        text@ == missed_notice(count as nat),
{
    let mut text = "missed ".to_owned();
    push_decimal(&mut text, count);
    text.append(" messages");
    text
}

} // verus!
