//! The commands a client can send, and how a line is read as one.
//!
//! A line is a command when it is exactly one of the bare keywords, or when it
//! begins with `/join` or `/name`; the argument of these two is the second of
//! the fields that single spaces separate. Every other line is chat.

use crate::text::same_text;
use vstd::prelude::*;
use vstd::std_specs::iter::IteratorSpec;

verus! {

/// What a client asks for with one line.
#[derive(Debug, PartialEq, Eq)]
pub enum Command {
    /// Show the help text.
    Help,
    /// End the connection.
    Quit,
    /// List every name in use.
    Print,
    /// List the rooms with their live counts.
    Rooms,
    /// List the members of the current room.
    Users,
    /// Move to the room with the given name.
    Join(String),
    /// `/join` without a room name.
    JoinWithoutRoom,
    /// Take the given display name.
    Name(String),
    /// `/name` without a name.
    NameWithoutName,
    /// Say the whole line to the current room.
    Say,
}

/// A command as plain values.
pub enum CommandView {
    Help,
    Quit,
    Print,
    Rooms,
    Users,
    Join(Seq<char>),
    JoinWithoutRoom,
    Name(Seq<char>),
    NameWithoutName,
    Say,
}

impl View for Command {
    type V = CommandView;

    open spec fn view(&self) -> CommandView {
        match self {
            Command::Help => CommandView::Help,
            Command::Quit => CommandView::Quit,
            Command::Print => CommandView::Print,
            Command::Rooms => CommandView::Rooms,
            Command::Users => CommandView::Users,
            Command::Join(room) => CommandView::Join(room@),
            Command::JoinWithoutRoom => CommandView::JoinWithoutRoom,
            Command::Name(name) => CommandView::Name(name@),
            Command::NameWithoutName => CommandView::NameWithoutName,
            Command::Say => CommandView::Say,
        }
    }
}

/// The number of characters of `s` before its first space, or all of them
/// if it has none.
pub open spec fn field_len(s: Seq<char>) -> nat
    decreases s.len(),
{
    if s.len() == 0 || s[0] == ' ' {
        0
    } else {
        1 + field_len(s.drop_first())
    }
}

/// The second of the fields of `line` that single spaces separate, if the
/// line has a space at all. The field is empty when two spaces meet or the
/// line ends in its first space.
pub open spec fn argument(line: Seq<char>) -> Option<Seq<char>> {
    let first = field_len(line) as int;
    if first >= line.len() {
        None
    } else {
        let rest = line.skip(first + 1);
        Some(rest.take(field_len(rest) as int))
    }
}

/// Whether `line` begins with `keyword`.
pub open spec fn begins_with(line: Seq<char>, keyword: Seq<char>) -> bool {
    keyword.len() <= line.len() && line.take(keyword.len() as int) == keyword
}

/// The command that `line` stands for.
pub open spec fn parsed(line: Seq<char>) -> CommandView {
    if line == "/help"@ {
        CommandView::Help
    } else if line == "/quit"@ {
        CommandView::Quit
    } else if line == "/print"@ {
        CommandView::Print
    } else if line == "/rooms"@ {
        CommandView::Rooms
    } else if line == "/users"@ {
        CommandView::Users
    } else if begins_with(line, "/join"@) {
        match argument(line) {
            Some(room) => CommandView::Join(room),
            None => CommandView::JoinWithoutRoom,
        }
    } else if begins_with(line, "/name"@) {
        match argument(line) {
            Some(name) => CommandView::Name(name),
            None => CommandView::NameWithoutName,
        }
    } else {
        CommandView::Say
    }
}

/// A field ends where the text ends or at a space, and holds no space.
proof fn lemma_field_len(s: Seq<char>)
    ensures
        field_len(s) <= s.len(),
        field_len(s) < s.len() ==> s[field_len(s) as int] == ' ',
        forall|k: int| 0 <= k < field_len(s) ==> s[k] != ' ',
    decreases s.len(),
{
    if s.len() > 0 && s[0] != ' ' {
        lemma_field_len(s.drop_first());
        assert forall|k: int| 0 <= k < field_len(s) implies s[k] != ' ' by {
            if k > 0 {
                assert(s[k] == s.drop_first()[k - 1]);
            }
        }
    }
}

/// The argument of a command holds no space, and a line without an argument
/// holds no space at all.
pub proof fn law_argument_holds_no_space(line: Seq<char>)
    ensures
        match argument(line) {
            Some(arg) => !arg.contains(' '),
            None => !line.contains(' '),
        },
{
    lemma_field_len(line);
    let first = field_len(line) as int;
    if first < line.len() {
        let rest = line.skip(first + 1);
        lemma_field_len(rest);
        let arg = rest.take(field_len(rest) as int);
        assert forall|k: int| 0 <= k < arg.len() implies arg[k] != ' ' by {
            assert(arg[k] == rest[k]);
        }
    }
}

/// The first position of `s`, from `k` on, that holds a space or ends the
/// text, is the length of the first field when no space comes before `k`.
proof fn lemma_field_len_at(s: Seq<char>, k: int)
    requires
        0 <= k <= s.len(),
        forall|j: int| 0 <= j < k ==> s[j] != ' ',
        k == s.len() || s[k] == ' ',
    ensures
        field_len(s) == k,
    decreases s.len(),
{
    if k > 0 {
        assert(s[0] != ' ');
        assert forall|j: int| 0 <= j < k - 1 implies s.drop_first()[j] != ' ' by {
            assert(s.drop_first()[j] == s[j + 1]);
        }
        lemma_field_len_at(s.drop_first(), k - 1);
    }
}

/// The number of characters of `s` before its first space.
fn first_field(s: &str) -> (n: usize)
    ensures
        n == field_len(s@),
        n <= s@.len(),
{
    let total = s.unicode_len();
    let mut rest = s.chars();
    let mut k: usize = 0;
    loop
        invariant
            k <= total,
            total == s@.len(),
            rest.remaining() == s@.skip(k as int),
            rest.obeys_prophetic_iter_laws(),
            forall|j: int| 0 <= j < k ==> s@[j] != ' ',
        decreases total - k,
    {
        match rest.next() {
            None => {
                proof {
                    lemma_field_len_at(s@, k as int);
                }
                return k;
            },
            Some(c) => {
                if c == ' ' {
                    proof {
                        lemma_field_len_at(s@, k as int);
                    }
                    return k;
                }
                proof {
                    assert(s@.skip(k as int).drop_first() =~= s@.skip(k as int + 1));
                }
                k = k + 1;
            },
        }
    }
}

/// The argument of a command line, if it has one.
fn read_argument(line: &str) -> (arg: Option<String>)
    ensures
        match arg {
            Some(a) => argument(line@) == Some(a@),
            None => argument(line@) is None,
        },
{
    let total = line.unicode_len();
    let first = first_field(line);
    if first >= total {
        None
    } else {
        let rest = line.substring_char(first + 1, total);
        assert(rest@ =~= line@.skip(first as int + 1));
        let len = first_field(rest);
        Some(rest.substring_char(0, len).to_owned())
    }
}

/// Whether `line` begins with `keyword`.
fn has_keyword(line: &str, keyword: &str) -> (found: bool)
    ensures
        found == begins_with(line@, keyword@),
{
    let total = line.unicode_len();
    let len = keyword.unicode_len();
    len <= total && same_text(line.substring_char(0, len), keyword)
}

/// Reads `line` as a command.
pub fn parse(line: &str) -> (command: Command)
    ensures
        command@ == parsed(line@),
{
    if same_text(line, "/help") {
        Command::Help
    } else if same_text(line, "/quit") {
        Command::Quit
    } else if same_text(line, "/print") {
        Command::Print
    } else if same_text(line, "/rooms") {
        Command::Rooms
    } else if same_text(line, "/users") {
        Command::Users
    } else if has_keyword(line, "/join") {
        match read_argument(line) {
            Some(room) => Command::Join(room),
            None => Command::JoinWithoutRoom,
        }
    } else if has_keyword(line, "/name") {
        match read_argument(line) {
            Some(name) => Command::Name(name),
            None => Command::NameWithoutName,
        }
    } else {
        Command::Say
    }
}

} // verus!
