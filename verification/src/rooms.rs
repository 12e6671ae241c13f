//! Rooms and the registry that owns them.
//!
//! A room is a broadcast channel together with the listing of the display
//! names inside it. The listing is for display only: whether a room is still
//! in use is decided by the number of live receivers of its channel.

use crate::channel::{live_receivers, open_channel, share_sender, subscribe, ROOM_CAPACITY};
use crate::names::{claimed, released};
use crate::summary::{
    lemma_same_rows_same_rooms, names_of, render_summary, rows_view, sort_summary, summarizes,
    summary_text,
};
use crate::text::{copy_lines, join_spaced, spaced, texts};
use tokio::sync::broadcast::{Receiver, Sender};
use vstd::prelude::*;

verus! {

/// One room: its channel and the names listed in it.
pub struct Room {
    tx: Sender<String>,
    users: Vec<String>,
}

impl Room {
    /// The names listed in the room, in the order in which they joined.
    pub closed spec fn members(&self) -> Seq<Seq<char>> {
        texts(self.users@)
    }

    /// The sending side of the room's channel.
    pub closed spec fn sender(&self) -> Sender<String> {
        self.tx
    }

    /// No name is listed twice.
    pub open spec fn wf(&self) -> bool {
        self.members().no_duplicates()
    }

    /// A room with a channel of its own and nobody listed.
    pub fn new() -> (room: Room)
        ensures
            room.wf(),
            room.members() == Seq::<Seq<char>>::empty(),
    {
        let (tx, _first) = open_channel(ROOM_CAPACITY);
        let room = Room { tx, users: Vec::new() };
        assert(room.members() =~= Seq::<Seq<char>>::empty());
        room
    }

    /// The position of `name` in the listing, if it is listed.
    fn position(&self, name: &str) -> (at: Option<usize>)
        ensures
            match at {
                Some(i) => i < self.members().len() && self.members()[i as int] == name@
                    && forall|k: int| 0 <= k < i ==> self.members()[k] != name@,
                None => !self.members().contains(name@),
            },
    {
        let wanted = name.to_owned();
        let mut i: usize = 0;
        while i < self.users.len()
            invariant
                i <= self.users.len(),
                wanted@ == name@,
                forall|k: int| 0 <= k < i ==> self.members()[k] != name@,
            decreases self.users.len() - i,
        {
            if self.users[i] == wanted {
                return Some(i);
            }
            i = i + 1;
        }
        None
    }

    /// Lists `name` in the room; nothing changes if it is listed already.
    pub fn join(&mut self, name: &str)
        requires
            old(self).wf(),
        ensures
            final(self).wf(),
            final(self).members() == claimed(old(self).members(), name@),
            final(self).sender() == old(self).sender(),
    {
        if self.position(name).is_none() {
            self.users.push(name.to_owned());
            assert(self.members() =~= old(self).members().push(name@));
        }
    }

    /// Takes `name` off the listing; nothing changes if it is not listed.
    pub fn leave(&mut self, name: &str)
        requires
            old(self).wf(),
        ensures
            final(self).wf(),
            final(self).members() == released(old(self).members(), name@),
            final(self).sender() == old(self).sender(),
    {
        proof {
            old(self).members().index_of_first_ensures(name@);
        }
        match self.position(name) {
            Some(i) => {
                self.users.remove(i);
                assert(self.members() =~= old(self).members().remove(i as int));
            },
            None => {},
        }
    }

    /// A snapshot of the listing.
    pub fn list(&self) -> (snapshot: Vec<String>)
        ensures
            texts(snapshot@) == self.members(),
    {
        copy_lines(&self.users)
    }

    /// The listing as one line: every name followed by a space.
    pub fn to_string(&self) -> (line: String)
        ensures
            line@ == spaced(self.members()),
    {
        join_spaced(&self.users)
    }

    /// A further handle for publishing to the room.
    pub fn publisher(&self) -> (handle: Sender<String>)
        ensures
            handle == self.sender(),
    {
        share_sender(&self.tx)
    }

    /// A new subscription to the room; it sees what is published from now on.
    fn subscribe(&self) -> (subscription: Receiver<String>)
    {
        subscribe(&self.tx)
    }

    /// The number of subscriptions to the room that are alive right now.
    fn live_count(&self) -> (live: usize)
    {
        live_receivers(&self.tx)
    }
}

/// The listing of `room`; nobody is in a room that does not exist.
pub open spec fn members_of(rooms: Map<Seq<char>, Seq<Seq<char>>>, room: Seq<char>) -> Seq<
    Seq<char>,
> {
    if rooms.contains_key(room) {
        rooms[room]
    } else {
        Seq::empty()
    }
}

/// The listings after `user` joins `room`: a room that is not there yet is
/// created with `user` as its only member.
pub open spec fn joined(
    rooms: Map<Seq<char>, Seq<Seq<char>>>,
    user: Seq<char>,
    room: Seq<char>,
) -> Map<Seq<char>, Seq<Seq<char>>> {
    rooms.insert(room, claimed(members_of(rooms, room), user))
}

/// The listings after `user` leaves `room` while `live` subscriptions to the
/// room are alive, the leaver's own among them: with at most one alive the
/// room goes, otherwise only the leaver's name does. A room that is not there
/// stays absent.
pub open spec fn departed(
    rooms: Map<Seq<char>, Seq<Seq<char>>>,
    user: Seq<char>,
    room: Seq<char>,
    live: usize,
) -> Map<Seq<char>, Seq<Seq<char>>> {
    if !rooms.contains_key(room) {
        rooms
    } else if live <= 1 {
        rooms.remove(room)
    } else {
        rooms.insert(room, released(rooms[room], user))
    }
}

/// The listings after the member `user` of `room` takes the name `new_name`.
/// A room that is not there stays absent.
pub open spec fn renamed(
    rooms: Map<Seq<char>, Seq<Seq<char>>>,
    user: Seq<char>,
    new_name: Seq<char>,
    room: Seq<char>,
) -> Map<Seq<char>, Seq<Seq<char>>> {
    if rooms.contains_key(room) {
        rooms.insert(room, claimed(released(rooms[room], user), new_name))
    } else {
        rooms
    }
}

/// A room under its name.
struct Entry {
    name: String,
    room: Room,
}

/// The names of the stored rooms, oldest room first.
spec fn names_in(entries: Seq<Entry>) -> Seq<Seq<char>> {
    entries.map_values(|e: Entry| e.name@)
}

/// No two stored rooms share a name, and no room lists a name twice.
spec fn well_formed(entries: Seq<Entry>) -> bool {
    &&& names_in(entries).no_duplicates()
    &&& forall|i: int| 0 <= i < entries.len() ==> (#[trigger] entries[i]).room.wf()
}

/// The listing of every stored room, by the room's name.
spec fn listings_in(entries: Seq<Entry>) -> Map<Seq<char>, Seq<Seq<char>>> {
    Map::new(
        |name: Seq<char>| names_in(entries).contains(name),
        |name: Seq<char>| entries[names_in(entries).index_of(name)].room.members(),
    )
}

/// The sending side of the stored room called `name`.
spec fn sender_in(entries: Seq<Entry>, name: Seq<char>) -> Sender<String> {
    entries[names_in(entries).index_of(name)].room.sender()
}

/// What the listings and the senders say of the room stored at position `i`.
proof fn lemma_entry(entries: Seq<Entry>, i: int)
    requires
        well_formed(entries),
        0 <= i < entries.len(),
    ensures
        listings_in(entries).contains_key(entries[i].name@),
        listings_in(entries)[entries[i].name@] == entries[i].room.members(),
        sender_in(entries, entries[i].name@) == entries[i].room.sender(),
        names_in(entries).index_of(entries[i].name@) == i,
{
    let names = names_in(entries);
    assert(names[i] == entries[i].name@);
    let j = names.index_of(names[i]);
    assert(0 <= j < names.len() && names[j] == names[i]);
}

/// A room that is listed is stored at some position.
proof fn lemma_stored(entries: Seq<Entry>, name: Seq<char>) -> (i: int)
    requires
        well_formed(entries),
        listings_in(entries).contains_key(name),
    ensures
        0 <= i < entries.len(),
        entries[i].name@ == name,
        listings_in(entries)[name] == entries[i].room.members(),
        sender_in(entries, name) == entries[i].room.sender(),
{
    let i = names_in(entries).index_of(name);
    lemma_entry(entries, i);
    i
}

/// Replacing the room stored at position `i` by another of the same name
/// replaces its listing and its sender, and nothing else.
proof fn lemma_replace(entries: Seq<Entry>, i: int, entry: Entry)
    requires
        well_formed(entries),
        0 <= i < entries.len(),
        entry.name@ == entries[i].name@,
        entry.room.wf(),
    ensures
        well_formed(entries.update(i, entry)),
        listings_in(entries.update(i, entry)) == listings_in(entries).insert(
            entry.name@,
            entry.room.members(),
        ),
        sender_in(entries.update(i, entry), entry.name@) == entry.room.sender(),
        forall|other: Seq<char>|
            other != entry.name@ && listings_in(entries).contains_key(other) ==> sender_in(
                entries.update(i, entry),
                other,
            ) == sender_in(entries, other),
{
    let after = entries.update(i, entry);
    assert(names_in(after) =~= names_in(entries));
    assert(well_formed(after));
    lemma_entry(after, i);
    assert forall|other: Seq<char>| #[trigger]
        listings_in(after).contains_key(other) && other != entry.name@ implies listings_in(
        after,
    )[other] == listings_in(entries)[other] && sender_in(after, other) == sender_in(
        entries,
        other,
    ) by {
        let k = lemma_stored(after, other);
        lemma_entry(entries, k);
    }
    assert(listings_in(after) =~= listings_in(entries).insert(entry.name@, entry.room.members()));
}

/// Storing a room under a name that is not in use adds its listing and its
/// sender, and changes nothing else.
proof fn lemma_append(entries: Seq<Entry>, entry: Entry)
    requires
        well_formed(entries),
        !listings_in(entries).contains_key(entry.name@),
        entry.room.wf(),
    ensures
        well_formed(entries.push(entry)),
        listings_in(entries.push(entry)) == listings_in(entries).insert(
            entry.name@,
            entry.room.members(),
        ),
        sender_in(entries.push(entry), entry.name@) == entry.room.sender(),
        forall|other: Seq<char>|
            listings_in(entries).contains_key(other) ==> sender_in(entries.push(entry), other)
                == sender_in(entries, other),
{
    let after = entries.push(entry);
    let last = entries.len() as int;
    assert(names_in(after) =~= names_in(entries).push(entry.name@));
    assert(well_formed(after));
    lemma_entry(after, last);
    assert forall|other: Seq<char>| #[trigger]
        listings_in(entries).contains_key(other) implies listings_in(after).contains_key(other)
        && listings_in(after)[other] == listings_in(entries)[other] && sender_in(after, other)
        == sender_in(entries, other) by {
        let k = lemma_stored(entries, other);
        lemma_entry(after, k);
    }
    assert forall|other: Seq<char>| #[trigger]
        listings_in(after).contains_key(other) && other != entry.name@ implies listings_in(
        entries,
    ).contains_key(other) by {
        let k = lemma_stored(after, other);
        lemma_entry(entries, k);
    }
    assert(listings_in(after) =~= listings_in(entries).insert(entry.name@, entry.room.members()));
}

/// Taking out the room stored at position `i` removes its listing, and
/// changes nothing else.
proof fn lemma_take_out(entries: Seq<Entry>, i: int)
    requires
        well_formed(entries),
        0 <= i < entries.len(),
    ensures
        well_formed(entries.remove(i)),
        listings_in(entries.remove(i)) == listings_in(entries).remove(entries[i].name@),
        forall|other: Seq<char>|
            listings_in(entries.remove(i)).contains_key(other) ==> sender_in(
                entries.remove(i),
                other,
            ) == sender_in(entries, other),
{
    let after = entries.remove(i);
    let gone = entries[i].name@;
    lemma_entry(entries, i);
    assert(names_in(after) =~= names_in(entries).remove(i));
    assert(well_formed(after));
    assert forall|other: Seq<char>| #[trigger] listings_in(after).contains_key(other) implies other
        != gone && listings_in(entries).contains_key(other) && listings_in(after)[other]
        == listings_in(entries)[other] && sender_in(after, other) == sender_in(entries, other) by {
        let k = lemma_stored(after, other);
        if k < i {
            lemma_entry(entries, k);
        } else {
            lemma_entry(entries, k + 1);
        }
    }
    assert forall|other: Seq<char>| #[trigger]
        listings_in(entries).contains_key(other) && other != gone implies listings_in(
        after,
    ).contains_key(other) by {
        let k = lemma_stored(entries, other);
        if k < i {
            lemma_entry(after, k);
        } else {
            lemma_entry(after, k - 1);
        }
    }
    assert(listings_in(after) =~= listings_in(entries).remove(gone));
}

/// The rooms that exist, each under a name of its own.
pub struct Rooms {
    entries: Vec<Entry>,
}

impl View for Rooms {
    type V = Map<Seq<char>, Seq<Seq<char>>>;

    /// The listing of every room, by the room's name.
    closed spec fn view(&self) -> Map<Seq<char>, Seq<Seq<char>>> {
        listings_in(self.entries@)
    }
}

impl Rooms {
    /// The sending side of the channel of the room called `name`.
    pub closed spec fn sender_of(&self, name: Seq<char>) -> Sender<String> {
        sender_in(self.entries@, name)
    }

    /// No two rooms share a name, and no room lists a name twice.
    pub closed spec fn wf(&self) -> bool {
        well_formed(self.entries@)
    }

    /// In every state the registry holds finitely many rooms, and none of
    /// them lists a name twice.
    pub proof fn law_listings_distinct(&self)
        requires
            self.wf(),
        ensures
            self@.dom().finite(),
            forall|name: Seq<char>|
                self@.contains_key(name) ==> (#[trigger] self@[name]).no_duplicates(),
    {
        let names = names_in(self.entries@);
        assert(self@.dom() =~= names.to_set());
        vstd::seq_lib::seq_to_set_is_finite(names);
        assert forall|name: Seq<char>| self@.contains_key(name) implies (#[trigger] self@[
            name
        ]).no_duplicates() by {
            let i = lemma_stored(self.entries@, name);
        }
    }

    /// A registry without rooms.
    pub fn new() -> (rooms: Rooms)
        ensures
            rooms.wf(),
            rooms@ == Map::<Seq<char>, Seq<Seq<char>>>::empty(),
    {
        let rooms = Rooms { entries: Vec::new() };
        assert(names_in(rooms.entries@) =~= Seq::<Seq<char>>::empty());
        assert(rooms@ =~= Map::<Seq<char>, Seq<Seq<char>>>::empty());
        rooms
    }

    /// The number of rooms.
    pub fn len(&self) -> (count: usize)
        requires
            self.wf(),
        ensures
            count == self@.len(),
    {
        proof {
            let names = names_in(self.entries@);
            assert(self@.dom() =~= names.to_set());
            names.unique_seq_to_set();
        }
        self.entries.len()
    }

    /// The position of the room called `name`, if there is one.
    fn position(&self, name: &str) -> (at: Option<usize>)
        requires
            self.wf(),
        ensures
            match at {
                Some(i) => i < self.entries@.len() && self.entries@[i as int].name@ == name@
                    && self@.contains_key(name@),
                None => !self@.contains_key(name@),
            },
    {
        let wanted = name.to_owned();
        let mut i: usize = 0;
        while i < self.entries.len()
            invariant
                i <= self.entries.len(),
                self.wf(),
                wanted@ == name@,
                forall|k: int| 0 <= k < i ==> names_in(self.entries@)[k] != name@,
            decreases self.entries.len() - i,
        {
            if self.entries[i].name == wanted {
                proof {
                    lemma_entry(self.entries@, i as int);
                }
                return Some(i);
            }
            i = i + 1;
        }
        None
    }

    /// Whether a room called `name` exists.
    pub fn contains(&self, name: &str) -> (found: bool)
        requires
            self.wf(),
        ensures
            found == self@.contains_key(name@),
    {
        self.position(name).is_some()
    }

    /// Lists `user_name` in the room called `room_name`, creating the room if it
    /// does not exist, and returns a publishing handle and a new subscription
    /// for that room.
    pub fn join(&mut self, user_name: &str, room_name: &str) -> (handles: (
        Sender<String>,
        Receiver<String>,
    ))
        requires
            old(self).wf(),
        ensures
            final(self).wf(),
            final(self)@ == joined(old(self)@, user_name@, room_name@),
            handles.0 == final(self).sender_of(room_name@),
            forall|other: Seq<char>|
                old(self)@.contains_key(other) ==> final(self).sender_of(other) == old(
                    self,
                ).sender_of(other),
    {
        match self.position(room_name) {
            Some(i) => {
                let mut entry = self.entries.remove(i);
                entry.room.join(user_name);
                let handles = (entry.room.publisher(), entry.room.subscribe());
                proof {
                    lemma_entry(old(self).entries@, i as int);
                    lemma_replace(old(self).entries@, i as int, entry);
                    assert(self.entries@.insert(i as int, entry) =~= old(self).entries@.update(
                        i as int,
                        entry,
                    ));
                }
                self.entries.insert(i, entry);
                handles
            },
            None => {
                let mut room = Room::new();
                room.join(user_name);
                let handles = (room.publisher(), room.subscribe());
                let entry = Entry { name: room_name.to_owned(), room };
                proof {
                    lemma_append(old(self).entries@, entry);
                }
                self.entries.push(entry);
                handles
            },
        }
    }

    /// Takes `user_name` out of the room called `room_name`, given the number
    /// `live` of subscriptions to that room that are alive, the leaver's own
    /// among them. With at most one alive the room is deleted. A room that
    /// does not exist is left alone.
    pub fn leave_counted(&mut self, user_name: &str, room_name: &str, live: usize)
        requires
            old(self).wf(),
        ensures
            final(self).wf(),
            final(self)@ == departed(old(self)@, user_name@, room_name@, live),
            forall|other: Seq<char>|
                final(self)@.contains_key(other) ==> final(self).sender_of(other) == old(
                    self,
                ).sender_of(other),
    {
        match self.position(room_name) {
            Some(i) => {
                let mut entry = self.entries.remove(i);
                proof {
                    lemma_entry(old(self).entries@, i as int);
                    lemma_take_out(old(self).entries@, i as int);
                }
                if live > 1 {
                    entry.room.leave(user_name);
                    proof {
                        lemma_replace(old(self).entries@, i as int, entry);
                        assert(self.entries@.insert(i as int, entry) =~= old(self).entries@.update(
                            i as int,
                            entry,
                        ));
                    }
                    self.entries.insert(i, entry);
                }
            },
            None => {},
        }
    }

    /// Takes `user_name` out of the room called `room_name`, and deletes the
    /// room when the leaver's subscription is the last one alive. The caller
    /// still holds that subscription during the call and drops it afterwards.
    pub fn leave(&mut self, user_name: &str, room_name: &str)
        requires
            old(self).wf(),
        ensures
            final(self).wf(),
            exists|live: usize| final(self)@ == departed(old(self)@, user_name@, room_name@, live),
            forall|other: Seq<char>|
                final(self)@.contains_key(other) ==> final(self).sender_of(other) == old(
                    self,
                ).sender_of(other),
    {
        let live = match self.position(room_name) {
            Some(i) => self.entries[i].room.live_count(),
            None => 0,
        };
        self.leave_counted(user_name, room_name, live);
    }

    /// Moves `user_name` from the room `prev_room` to the room `next_room`: a
    /// leave followed by a join.
    pub fn change(&mut self, user_name: &str, prev_room: &str, next_room: &str) -> (handles: (
        Sender<String>,
        Receiver<String>,
    ))
        requires
            old(self).wf(),
        ensures
            final(self).wf(),
            exists|live: usize|
                final(self)@ == joined(
                    departed(old(self)@, user_name@, prev_room@, live),
                    user_name@,
                    next_room@,
                ),
            handles.0 == final(self).sender_of(next_room@),
    {
        self.leave(user_name, prev_room);
        self.join(user_name, next_room)
    }

    /// Replaces `user_name` by `new_name` in the listing of the room called
    /// `room_name`. No channel and no subscription is touched.
    pub fn change_name(&mut self, user_name: &str, new_name: &str, room_name: &str)
        requires
            old(self).wf(),
        ensures
            final(self).wf(),
            final(self)@ == renamed(old(self)@, user_name@, new_name@, room_name@),
            forall|other: Seq<char>|
                old(self)@.contains_key(other) ==> final(self).sender_of(other) == old(
                    self,
                ).sender_of(other),
    {
        match self.position(room_name) {
            Some(i) => {
                let mut entry = self.entries.remove(i);
                entry.room.leave(user_name);
                entry.room.join(new_name);
                proof {
                    lemma_entry(old(self).entries@, i as int);
                    lemma_replace(old(self).entries@, i as int, entry);
                    assert(self.entries@.insert(i as int, entry) =~= old(self).entries@.update(
                        i as int,
                        entry,
                    ));
                }
                self.entries.insert(i, entry);
            },
            None => {},
        }
    }

    /// The listing of the room called `room_name` as one line, every name
    /// followed by a space. A room that does not exist has nobody in it.
    pub fn get_users(&self, room_name: &str) -> (line: String)
        requires
            self.wf(),
        ensures
            line@ == spaced(members_of(self@, room_name@)),
    {
        match self.position(room_name) {
            Some(i) => {
                proof {
                    lemma_entry(self.entries@, i as int);
                }
                self.entries[i].room.to_string()
            },
            None => String::new(),
        }
    }

    /// A snapshot of the listing of the room called `room_name`. A room that
    /// does not exist has nobody in it.
    pub fn list_users(&self, room_name: &str) -> (snapshot: Vec<String>)
        requires
            self.wf(),
        ensures
            texts(snapshot@) == members_of(self@, room_name@),
    {
        match self.position(room_name) {
            Some(i) => {
                proof {
                    lemma_entry(self.entries@, i as int);
                }
                self.entries[i].room.list()
            },
            None => {
                let nobody: Vec<String> = Vec::new();
                assert(texts(nobody@) =~= Seq::<Seq<char>>::empty());
                nobody
            },
        }
    }

    /// Every room with the number of subscriptions to it that are alive right
    /// now, in summary order: highest count first, equal counts by name.
    pub fn summary(&self) -> (rows: Vec<(String, usize)>)
        requires
            self.wf(),
        ensures
            summarizes(rows_view(rows@), self@.dom()),
    {
        let ghost names = names_in(self.entries@);
        let mut rows: Vec<(String, usize)> = Vec::new();
        let mut i: usize = 0;
        while i < self.entries.len()
            invariant
                i <= self.entries.len(),
                names == names_in(self.entries@),
                names_of(rows_view(rows@)) == names.take(i as int),
            decreases self.entries.len() - i,
        {
            let ghost before = rows_view(rows@);
            let live = self.entries[i].room.live_count();
            rows.push((self.entries[i].name.clone(), live));
            proof {
                assert(rows_view(rows@) =~= before.push((names[i as int], live)));
                assert(names_of(rows_view(rows@)) =~= names_of(before).push(names[i as int]));
                assert(names.take(i as int + 1) =~= names.take(i as int).push(names[i as int]));
            }
            i = i + 1;
        }
        let sorted = sort_summary(rows);
        proof {
            assert(names.take(i as int) =~= names);
            assert(self@.dom() =~= names.to_set());
            lemma_same_rows_same_rooms(rows_view(rows@), rows_view(sorted@));
        }
        sorted
    }

    /// The summary as one line: for every room its name, its live count in
    /// parentheses, and a space.
    pub fn to_string(&self) -> (line: String)
        requires
            self.wf(),
        ensures
            exists|rows: Seq<(Seq<char>, usize)>|
                summarizes(rows, self@.dom()) && line@ == summary_text(rows),
    {
        let rows = self.summary();
        render_summary(&rows)
    }
}

/// Joining a room that does not exist creates it with the joiner as its only
/// member, and leaves every other room as it was.
pub proof fn law_first_join_creates(
    rooms: Map<Seq<char>, Seq<Seq<char>>>,
    user: Seq<char>,
    room: Seq<char>,
)
    requires
        !rooms.contains_key(room),
    ensures
        joined(rooms, user, room).contains_key(room),
        joined(rooms, user, room)[room] == seq![user],
        joined(rooms, user, room).remove(room) == rooms,
{
    assert(Seq::<Seq<char>>::empty().push(user) =~= seq![user]);
    assert(joined(rooms, user, room).remove(room) =~= rooms);
}

/// When the last subscriber leaves, the room leaves the registry, and a
/// summary of the registry no longer lists it.
pub proof fn law_last_leave_deletes(
    rooms: Map<Seq<char>, Seq<Seq<char>>>,
    user: Seq<char>,
    room: Seq<char>,
    live: usize,
    rows: Seq<(Seq<char>, usize)>,
)
    requires
        live <= 1,
        summarizes(rows, departed(rooms, user, room, live).dom()),
    ensures
        !departed(rooms, user, room, live).contains_key(room),
        forall|other: Seq<char>|
            other != room && rooms.contains_key(other) ==> departed(
                rooms,
                user,
                room,
                live,
            ).contains_key(other) && departed(rooms, user, room, live)[other] == rooms[other],
        !names_of(rows).contains(room),
{
    if names_of(rows).contains(room) {
        assert(names_of(rows).to_set().contains(room));
    }
}

/// While other subscribers remain, a leave takes only the leaver's name off
/// the listing: the room stays.
pub proof fn law_leave_keeps_busy_room(
    rooms: Map<Seq<char>, Seq<Seq<char>>>,
    user: Seq<char>,
    room: Seq<char>,
    live: usize,
)
    requires
        rooms.contains_key(room),
        live > 1,
    ensures
        departed(rooms, user, room, live).dom() == rooms.dom(),
        departed(rooms, user, room, live)[room] == released(rooms[room], user),
{
    assert(departed(rooms, user, room, live).dom() =~= rooms.dom());
}

/// A client that creates a room and leaves it as its last subscriber leaves
/// the registry as it found it.
pub proof fn law_join_then_last_leave(
    rooms: Map<Seq<char>, Seq<Seq<char>>>,
    user: Seq<char>,
    room: Seq<char>,
    live: usize,
)
    requires
        !rooms.contains_key(room),
        live <= 1,
    ensures
        departed(joined(rooms, user, room), user, room, live) == rooms,
{
    assert(departed(joined(rooms, user, room), user, room, live) =~= rooms);
}

/// A rename changes the listing of one room and nothing else: no room
/// appears or disappears, whatever the listing held before.
pub proof fn law_rename_keeps_rooms(
    rooms: Map<Seq<char>, Seq<Seq<char>>>,
    user: Seq<char>,
    new_name: Seq<char>,
    room: Seq<char>,
)
    ensures
        renamed(rooms, user, new_name, room).dom() == rooms.dom(),
        forall|other: Seq<char>|
            other != room && rooms.contains_key(other) ==> renamed(
                rooms,
                user,
                new_name,
                room,
            )[other] == rooms[other],
        rooms.contains_key(room) ==> renamed(rooms, user, new_name, room)[room].contains(new_name),
{
    assert(renamed(rooms, user, new_name, room).dom() =~= rooms.dom());
    if rooms.contains_key(room) {
        let rest = released(rooms[room], user);
        if !rest.contains(new_name) {
            assert(rest.push(new_name)[rest.len() as int] == new_name);
        }
    }
}

} // verus!
