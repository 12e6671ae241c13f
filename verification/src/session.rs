//! One client's connection: the state it owns and how it reacts to events.
//!
//! A session is created when a client arrives, reacts to every line the
//! client sends and to every broadcast its room delivers, and is closed once.
//! Sending the replies to the client and waiting for the next event is the
//! caller's part; everything decided in between is decided here.

use crate::channel::send_message;
use crate::command::{parse, parsed, Command, CommandView};
use crate::names::{claimed, lemma_released, released, Names};
use crate::naming::is_generated;
use crate::notices::{
    already_in, chat_line, joined_notice, left_notice, make_already_in, make_chat_line,
    make_joined_notice, make_left_notice, make_missed_notice, make_name_changed, make_name_taken,
    make_rooms_line, make_users_line, make_you_are, missed_notice, name_changed, name_taken,
    rooms_line, users_line, you_are, HELP_MSG, JOIN_USAGE, MAIN, NAME_USAGE, WELCOME,
};
use crate::rooms::{departed, joined, members_of, renamed, Rooms};
use crate::summary::{summarizes, summary_text};
use crate::text::{spaced, texts};
use tokio::sync::broadcast::{Receiver, Sender};
use vstd::prelude::*;

verus! {

/// Where a session stands in its life.
#[derive(Debug, Clone, Copy, PartialEq, Eq)]
pub enum Phase {
    /// The client is connected and its lines are acted on.
    Active,
    /// The client asked to quit, or its room's channel ended: nothing more is
    /// acted on, the session waits to be closed.
    Closing,
    /// The session has left its room and given its name back.
    Closed,
}

/// What a room's channel hands to a subscriber.
#[derive(Debug, PartialEq, Eq)]
pub enum Delivery {
    /// A broadcast.
    Message(String),
    /// The subscriber fell behind and lost this many broadcasts.
    Missed(usize),
    /// The channel has ended.
    Closed,
}

/// A session as plain values, with the handles it holds.
pub struct SessionView {
    /// The display name the client holds.
    pub name: Seq<char>,
    /// The room the client is in.
    pub room: Seq<char>,
    /// Where the session stands in its life.
    pub phase: Phase,
    /// The handle the session publishes with.
    pub publisher: Sender<String>,
    /// The subscription to the current room; none once the session is closed.
    pub subscription: Option<Receiver<String>>,
    /// Every message the session has handed to a room so far, oldest first,
    /// each with the name of the room the session was in.
    pub published: Seq<(Seq<char>, Seq<char>)>,
}

/// The registries and one session: all that a step of the session can change.
pub struct Scene {
    /// The display names in use.
    pub names: Seq<Seq<char>>,
    /// The listing of every room.
    pub rooms: Map<Seq<char>, Seq<Seq<char>>>,
    /// The session.
    pub me: SessionView,
}

/// The session after it handed `message` to its room.
pub open spec fn said(me: SessionView, message: Seq<char>) -> SessionView {
    SessionView { published: me.published.push((me.room, message)), ..me }
}

/// The session of a client that has just arrived under `name`: active, in the
/// main room, with the notice of its arrival as its only publication.
pub open spec fn newcomer(
    name: Seq<char>,
    publisher: Sender<String>,
    subscription: Option<Receiver<String>>,
) -> SessionView {
    SessionView {
        name,
        room: MAIN@,
        phase: Phase::Active,
        publisher,
        subscription,
        published: seq![(MAIN@, joined_notice(name, MAIN@))],
    }
}

/// The lines a client receives on arrival.
pub open spec fn greeting(name: Seq<char>) -> Seq<Seq<char>> {
    seq![WELCOME@, you_are(name), HELP_MSG@]
}

/// Whether an active session that receives `line`, read as `command`, may
/// take the scene from `before` to `after` and answer the client with
/// `replies`. Only two things are left open: the live count that a leave finds,
/// and the live counts that a summary shows.
pub open spec fn reacts(
    before: Scene,
    command: CommandView,
    line: Seq<char>,
    after: Scene,
    replies: Seq<Seq<char>>,
) -> bool {
    let me = before.me;
    match command {
        CommandView::Help => after == before && replies == seq![HELP_MSG@],
        CommandView::Quit => after == (Scene {
            me: SessionView { phase: Phase::Closing, ..me },
            ..before
        }) && replies == Seq::<Seq<char>>::empty(),
        CommandView::Print => after == before && replies == seq![spaced(before.names)],
        CommandView::Rooms => after == before && exists|rows: Seq<(Seq<char>, usize)>|
            #[trigger] summarizes(rows, before.rooms.dom()) && replies == seq![
                rooms_line(summary_text(rows)),
            ],
        CommandView::Users => after == before && replies == seq![
            users_line(me.room, spaced(members_of(before.rooms, me.room))),
        ],
        CommandView::Join(target) => if target == me.room {
            after == before && replies == seq![already_in(target)]
        } else {
            &&& replies == Seq::<Seq<char>>::empty()
            &&& after.names == before.names
            &&& (exists|live: usize|
                after.rooms == joined(
                    #[trigger] departed(before.rooms, me.name, me.room, live),
                    me.name,
                    target,
                ))
            &&& after.me.subscription is Some
            &&& after.me == (SessionView {
                room: target,
                publisher: after.me.publisher,
                subscription: after.me.subscription,
                published: me.published.push((me.room, left_notice(me.name, me.room))).push(
                    (target, joined_notice(me.name, target)),
                ),
                ..me
            })
        },
        CommandView::JoinWithoutRoom => after == before && replies == seq![JOIN_USAGE@],
        CommandView::Name(wanted) => if before.names.contains(wanted) {
            after == before && replies == seq![name_taken(wanted)]
        } else {
            &&& replies == seq![name_changed(wanted)]
            &&& after.names == released(before.names.push(wanted), me.name)
            &&& after.rooms == renamed(before.rooms, me.name, wanted, me.room)
            &&& after.me == (SessionView { name: wanted, ..me })
        },
        CommandView::NameWithoutName => after == before && replies == seq![NAME_USAGE@],
        CommandView::Say => after == (Scene { me: said(me, chat_line(me.name, line)), ..before })
            && replies == Seq::<Seq<char>>::empty(),
    }
}

/// Whether closing a session that is not closed yet may take the scene from
/// `before` to `after`: the room hears of the departure, the session leaves
/// the room, gives its name back and drops its subscription.
pub open spec fn closes(before: Scene, after: Scene) -> bool {
    let me = before.me;
    &&& after.names == released(before.names, me.name)
    &&& (exists|live: usize|
        after.rooms == #[trigger] departed(before.rooms, me.name, me.room, live))
    &&& after.me == (SessionView {
        phase: Phase::Closed,
        subscription: None,
        published: me.published.push((me.room, left_notice(me.name, me.room))),
        ..me
    })
}

/// What the client is told of a delivery, as long as the session is active.
pub open spec fn forwarded(delivery: Delivery) -> Seq<Seq<char>> {
    match delivery {
        Delivery::Message(message) => seq![message@],
        Delivery::Missed(count) => seq![missed_notice(count as nat)],
        Delivery::Closed => Seq::empty(),
    }
}

/// One client's connection.
pub struct Session {
    name: String,
    room: String,
    phase: Phase,
    tx: Sender<String>,
    rx: Option<Receiver<String>>,
    published: Ghost<Seq<(Seq<char>, Seq<char>)>>,
}

impl View for Session {
    type V = SessionView;

    closed spec fn view(&self) -> SessionView {
        SessionView {
            name: self.name@,
            room: self.room@,
            phase: self.phase,
            publisher: self.tx,
            subscription: self.rx,
            published: self.published@,
        }
    }
}

impl Session {
    /// The display name the client holds.
    pub fn name(&self) -> (name: &str)
        ensures
            name@ == self@.name,
    {
        self.name.as_str()
    }

    /// The room the client is in.
    pub fn room(&self) -> (room: &str)
        ensures
            room@ == self@.room,
    {
        self.room.as_str()
    }

    /// Where the session stands in its life.
    pub fn phase(&self) -> (phase: Phase)
        ensures
            phase == self@.phase,
    {
        self.phase
    }

    /// Whether the session still acts on what it receives.
    pub fn is_active(&self) -> (active: bool)
        ensures
            active == (self@.phase is Active),
    {
        match self.phase {
            Phase::Active => true,
            _ => false,
        }
    }

    /// Whether the session has been closed.
    pub fn is_closed(&self) -> (closed: bool)
        ensures
            closed == (self@.phase is Closed),
    {
        match self.phase {
            Phase::Closed => true,
            _ => false,
        }
    }

    /// Hands `message` to the current room.
    fn publish(&mut self, message: String)
        ensures
            final(self)@ == said(old(self)@, message@),
    {
        let ghost entry = (self.room@, message@);
        let _reached = send_message(&self.tx, message);
        self.published = Ghost(self.published@.push(entry));
    }
}

impl Session {
    /// Brings the client that holds `name` into the main room: joins the room,
    /// tells the room of the arrival, and returns the session with the lines
    /// to greet the client with.
    pub fn enter(name: String, rooms: &mut Rooms) -> (arrival: (Session, Vec<String>))
        requires
            old(rooms).wf(),
        ensures
            final(rooms).wf(),
            final(rooms)@ == joined(old(rooms)@, name@, MAIN@),
            arrival.0@ == newcomer(
                name@,
                final(rooms).sender_of(MAIN@),
                arrival.0@.subscription,
            ),
            arrival.0@.subscription is Some,
            texts(arrival.1@) == greeting(name@),
    {
        let (tx, rx) = rooms.join(name.as_str(), MAIN);
        let mut greeting: Vec<String> = Vec::new();
        greeting.push(WELCOME.to_owned());
        greeting.push(make_you_are(name.as_str()));
        greeting.push(HELP_MSG.to_owned());
        let notice = make_joined_notice(name.as_str(), MAIN);
        let mut session = Session {
            name,
            room: MAIN.to_owned(),
            phase: Phase::Active,
            tx,
            rx: Some(rx),
            published: Ghost(Seq::empty()),
        };
        session.publish(notice);
        proof {
            assert(texts(greeting@) =~= crate::session::greeting(session@.name));
            assert(session@.published =~= seq![(MAIN@, joined_notice(session@.name, MAIN@))]);
        }
        (session, greeting)
    }

    /// Receives a new client: draws up to `draws` random names, claims the
    /// first that is free, and brings the client into the main room under it.
    /// Returns nothing, and changes nothing, if every draw was taken.
    pub fn open(names: &mut Names, rooms: &mut Rooms, draws: usize) -> (arrival: Option<
        (Session, Vec<String>),
    >)
        requires
            old(names).wf(),
            old(rooms).wf(),
        ensures
            final(names).wf(),
            final(rooms).wf(),
            match arrival {
                Some((session, lines)) => {
                    &&& is_generated(session@.name)
                    &&& !old(names)@.contains(session@.name)
                    &&& final(names)@ == old(names)@.push(session@.name)
                    &&& final(rooms)@ == joined(old(rooms)@, session@.name, MAIN@)
                    &&& session@ == newcomer(
                        session@.name,
                        final(rooms).sender_of(MAIN@),
                        session@.subscription,
                    )
                    &&& session@.subscription is Some
                    &&& texts(lines@) == greeting(session@.name)
                },
                None => final(names)@ == old(names)@ && final(rooms)@ == old(rooms)@,
            },
            draws == 0 ==> arrival is None,
            draws > 0 && (forall|n: Seq<char>| is_generated(n) ==> !old(names)@.contains(n))
                ==> arrival is Some,
    {
        match names.get_unique(draws) {
            Some(name) => Some(Session::enter(name, rooms)),
            None => None,
        }
    }

    /// The subscription to the current room, for the caller to wait on. There
    /// is none once the session is closed.
    pub fn subscription(&mut self) -> (subscription: Option<&mut Receiver<String>>)
        ensures
            old(self)@.subscription is Some <==> subscription is Some,
            final(self)@.subscription is Some <==> subscription is Some,
            final(self)@ == (SessionView {
                subscription: final(self)@.subscription,
                ..old(self)@
            }),
    {
        self.rx.as_mut()
    }

    /// Moves the session to the room `target`, which is not the current one.
    fn move_to(&mut self, rooms: &mut Rooms, target: String)
        requires
            old(rooms).wf(),
            target@ != old(self)@.room,
        ensures
            final(rooms).wf(),
            exists|live: usize|
                final(rooms)@ == joined(
                    #[trigger] departed(old(rooms)@, old(self)@.name, old(self)@.room, live),
                    old(self)@.name,
                    target@,
                ),
            final(self)@.subscription is Some,
            final(self)@.publisher == final(rooms).sender_of(target@),
            final(self)@ == (SessionView {
                room: target@,
                publisher: final(self)@.publisher,
                subscription: final(self)@.subscription,
                published: old(self)@.published.push(
                    (old(self)@.room, left_notice(old(self)@.name, old(self)@.room)),
                ).push((target@, joined_notice(old(self)@.name, target@))),
                ..old(self)@
            }),
    {
        let farewell = make_left_notice(self.name.as_str(), self.room.as_str());
        self.publish(farewell);
        let (tx, rx) = rooms.change(self.name.as_str(), self.room.as_str(), target.as_str());
        self.tx = tx;
        self.rx = Some(rx);
        self.room = target;
        let hello = make_joined_notice(self.name.as_str(), self.room.as_str());
        self.publish(hello);
    }

    /// Takes the name `wanted` if nobody holds it.
    fn rename(&mut self, names: &mut Names, rooms: &mut Rooms, wanted: String) -> (reply: String)
        requires
            old(names).wf(),
            old(rooms).wf(),
        ensures
            final(names).wf(),
            final(rooms).wf(),
            if old(names)@.contains(wanted@) {
                &&& final(names)@ == old(names)@
                &&& final(rooms)@ == old(rooms)@
                &&& final(self)@ == old(self)@
                &&& reply@ == name_taken(wanted@)
            } else {
                &&& final(names)@ == released(old(names)@.push(wanted@), old(self)@.name)
                &&& final(rooms)@ == renamed(
                    old(rooms)@,
                    old(self)@.name,
                    wanted@,
                    old(self)@.room,
                )
                &&& final(self)@ == (SessionView { name: wanted@, ..old(self)@ })
                &&& reply@ == name_changed(wanted@)
            },
    {
        if names.insert(wanted.clone()) {
            let reply = make_name_changed(wanted.as_str());
            rooms.change_name(self.name.as_str(), wanted.as_str(), self.room.as_str());
            names.remove(self.name.as_str());
            self.name = wanted;
            reply
        } else {
            make_name_taken(wanted.as_str())
        }
    }

    /// Acts on one line from the client and returns the lines to answer with.
    /// A session that is no longer active ignores the line.
    pub fn on_line(&mut self, names: &mut Names, rooms: &mut Rooms, line: &str) -> (replies: Vec<
        String,
    >)
        requires
            old(names).wf(),
            old(rooms).wf(),
        ensures
            final(names).wf(),
            final(rooms).wf(),
            old(self)@.phase is Active ==> reacts(
                (Scene { names: old(names)@, rooms: old(rooms)@, me: old(self)@ }),
                parsed(line@),
                line@,
                (Scene { names: final(names)@, rooms: final(rooms)@, me: final(self)@ }),
                texts(replies@),
            ),
            !(old(self)@.phase is Active) ==> {
                &&& final(names)@ == old(names)@
                &&& final(rooms)@ == old(rooms)@
                &&& final(self)@ == old(self)@
                &&& replies@.len() == 0
            },
            final(self)@.room != old(self)@.room ==> final(self)@.publisher == final(
                rooms
            ).sender_of(final(self)@.room),
    {
        let mut replies: Vec<String> = Vec::new();
        if !self.is_active() {
            return replies;
        }
        let ghost before = Scene { names: names@, rooms: rooms@, me: self@ };
        match parse(line) {
            Command::Help => {
                replies.push(HELP_MSG.to_owned());
                assert(texts(replies@) =~= seq![HELP_MSG@]);
            },
            Command::Quit => {
                self.phase = Phase::Closing;
                assert(texts(replies@) =~= Seq::<Seq<char>>::empty());
            },
            Command::Print => {
                replies.push(names.to_string());
                assert(texts(replies@) =~= seq![spaced(names@)]);
            },
            Command::Rooms => {
                let summary = rooms.to_string();
                replies.push(make_rooms_line(summary.as_str()));
                proof {
                    let rows = choose|rows: Seq<(Seq<char>, usize)>|
                        summarizes(rows, rooms@.dom()) && summary@ == summary_text(rows);
                    assert(summarizes(rows, before.rooms.dom()));
                    assert(texts(replies@) =~= seq![rooms_line(summary_text(rows))]);
                }
            },
            Command::Users => {
                let listing = rooms.get_users(self.room.as_str());
                replies.push(make_users_line(self.room.as_str(), listing.as_str()));
                assert(texts(replies@) =~= seq![
                    users_line(self@.room, spaced(members_of(rooms@, self@.room))),
                ]);
            },
            Command::Join(target) => {
                if target == self.room {
                    replies.push(make_already_in(self.room.as_str()));
                    assert(texts(replies@) =~= seq![already_in(target@)]);
                } else {
                    self.move_to(rooms, target);
                    assert(texts(replies@) =~= Seq::<Seq<char>>::empty());
                }
            },
            Command::JoinWithoutRoom => {
                replies.push(JOIN_USAGE.to_owned());
                assert(texts(replies@) =~= seq![JOIN_USAGE@]);
            },
            Command::Name(wanted) => {
                let reply = self.rename(names, rooms, wanted);
                replies.push(reply);
                assert(texts(replies@) =~= seq![reply@]);
            },
            Command::NameWithoutName => {
                replies.push(NAME_USAGE.to_owned());
                assert(texts(replies@) =~= seq![NAME_USAGE@]);
            },
            Command::Say => {
                let message = make_chat_line(self.name.as_str(), line);
                self.publish(message);
                assert(texts(replies@) =~= Seq::<Seq<char>>::empty());
            },
        }
        replies
    }

    /// Acts on what the subscription delivered and returns the lines to pass
    /// on to the client: a broadcast as it is, a loss as a notice. When the
    /// channel has ended the session stops acting and waits to be closed. A
    /// session that is no longer active ignores the delivery.
    pub fn on_delivery(&mut self, delivery: Delivery) -> (lines: Vec<String>)
        ensures
            old(self)@.phase is Active ==> {
                &&& texts(lines@) == forwarded(delivery)
                &&& final(self)@ == (SessionView {
                    phase: if delivery is Closed {
                        Phase::Closing
                    } else {
                        Phase::Active
                    },
                    ..old(self)@
                })
            },
            !(old(self)@.phase is Active) ==> final(self)@ == old(self)@ && lines@.len() == 0,
    {
        let mut lines: Vec<String> = Vec::new();
        if !self.is_active() {
            return lines;
        }
        match delivery {
            Delivery::Message(message) => {
                lines.push(message);
                assert(texts(lines@) =~= seq![message@]);
            },
            Delivery::Missed(count) => {
                lines.push(make_missed_notice(count));
                assert(texts(lines@) =~= seq![missed_notice(count as nat)]);
            },
            Delivery::Closed => {
                self.phase = Phase::Closing;
                assert(texts(lines@) =~= Seq::<Seq<char>>::empty());
            },
        }
        lines
    }

    /// Ends the session: tells the room of the departure, leaves the room,
    /// gives the name back and drops the subscription. Closing a closed
    /// session does nothing, so the departure happens once however often and
    /// from wherever this is called.
    pub fn close(&mut self, names: &mut Names, rooms: &mut Rooms)
        requires
            old(names).wf(),
            old(rooms).wf(),
        ensures
            final(names).wf(),
            final(rooms).wf(),
            final(self)@.phase is Closed,
            !(old(self)@.phase is Closed) ==> closes(
                (Scene { names: old(names)@, rooms: old(rooms)@, me: old(self)@ }),
                (Scene { names: final(names)@, rooms: final(rooms)@, me: final(self)@ }),
            ),
            old(self)@.phase is Closed ==> {
                &&& final(names)@ == old(names)@
                &&& final(rooms)@ == old(rooms)@
                &&& final(self)@ == old(self)@
            },
    {
        if self.is_closed() {
            return ;
        }
        let farewell = make_left_notice(self.name.as_str(), self.room.as_str());
        self.publish(farewell);
        rooms.leave(self.name.as_str(), self.room.as_str());
        names.remove(self.name.as_str());
        self.rx = None;
        self.phase = Phase::Closed;
        proof {
            let before = Scene { names: old(names)@, rooms: old(rooms)@, me: old(self)@ };
            let live = choose|live: usize|
                rooms@ == departed(before.rooms, before.me.name, before.me.room, live);
            assert(rooms@ == departed(before.rooms, before.me.name, before.me.room, live));
        }
    }
}

/// Whether the session of `scene` holds a name of the registry and is listed
/// under it in its room.
pub open spec fn registered(scene: Scene) -> bool {
    &&& scene.names.no_duplicates()
    &&& scene.names.contains(scene.me.name)
    &&& scene.rooms.contains_key(scene.me.room)
    &&& scene.rooms[scene.me.room].contains(scene.me.name)
}

/// A name that was just listed is in the listing.
proof fn lemma_claimed_contains(listing: Seq<Seq<char>>, name: Seq<char>)
    ensures
        claimed(listing, name).contains(name),
{
    if !listing.contains(name) {
        assert(listing.push(name)[listing.len() as int] == name);
    }
}

/// A rename keeps the session where it is: the same room, the same publishing
/// handle and the same subscription, so what the room broadcasts before and
/// after the rename reaches the same receiver.
pub proof fn law_rename_keeps_subscription(
    before: Scene,
    wanted: Seq<char>,
    line: Seq<char>,
    after: Scene,
    replies: Seq<Seq<char>>,
)
    requires
        reacts(before, CommandView::Name(wanted), line, after, replies),
    ensures
        after.me.subscription == before.me.subscription,
        after.me.publisher == before.me.publisher,
        after.me.room == before.me.room,
        after.me.published == before.me.published,
        after.rooms.dom() == before.rooms.dom(),
{
    assert(after.rooms.dom() =~= before.rooms.dom());
}

/// Whatever line an active session acts on, it keeps holding one name of the
/// registry, the names of the registry stay distinct, and the session stays
/// listed in the room it is in.
pub proof fn law_session_stays_registered(
    before: Scene,
    line: Seq<char>,
    after: Scene,
    replies: Seq<Seq<char>>,
)
    requires
        registered(before),
        reacts(before, parsed(line), line, after, replies),
    ensures
        registered(after),
{
    let me = before.me;
    match parsed(line) {
        CommandView::Join(target) => {
            if target != me.room {
                let live = choose|live: usize|
                    after.rooms == joined(
                        #[trigger] departed(before.rooms, me.name, me.room, live),
                        me.name,
                        target,
                    );
                let between = departed(before.rooms, me.name, me.room, live);
                lemma_claimed_contains(members_of(between, target), me.name);
            }
        },
        CommandView::Name(wanted) => {
            if !before.names.contains(wanted) {
                let grown = before.names.push(wanted);
                assert(grown[before.names.len() as int] == wanted);
                assert(grown.no_duplicates());
                lemma_released(grown, me.name);
                assert(grown.contains(wanted));
                assert(released(grown, me.name).contains(wanted));
                lemma_claimed_contains(released(before.rooms[me.room], me.name), wanted);
            }
        },
        _ => {},
    }
}

/// Closing a session frees its name: the registry no longer holds it, and
/// holds every other name as before.
pub proof fn law_close_frees_name(before: Scene, after: Scene)
    requires
        before.names.no_duplicates(),
        closes(before, after),
    ensures
        after.names.no_duplicates(),
        !after.names.contains(before.me.name),
        forall|other: Seq<char>|
            other != before.me.name ==> (after.names.contains(other) <==> before.names.contains(
                other,
            )),
        after.me.subscription is None,
{
    lemma_released(before.names, before.me.name);
}

} // verus!
