//! The registry of display names currently in use.
//!
//! A name is held by at most one client at a time. The registry is modelled by
//! the sequence of held names, oldest claim first; the operations on it are
//! [`claimed`] and [`released`], and every method states its effect through them.

use crate::naming::{is_generated, random_name};
use crate::text::{copy_lines, join_spaced, spaced, texts};
use vstd::prelude::*;

verus! {

/// The held names after a client asks for `name`: unchanged if somebody holds
/// it already, otherwise with `name` as the newest entry.
pub open spec fn claimed(held: Seq<Seq<char>>, name: Seq<char>) -> Seq<Seq<char>> {
    if held.contains(name) {
        held
    } else {
        held.push(name)
    }
}

/// The held names after `name` is given back: unchanged if nobody holds it.
pub open spec fn released(held: Seq<Seq<char>>, name: Seq<char>) -> Seq<Seq<char>> {
    held.remove_value(name)
}

/// The display names currently held by connected clients.
pub struct Names {
    held: Vec<String>,
}

impl View for Names {
    type V = Seq<Seq<char>>;

    /// The held names, oldest claim first.
    closed spec fn view(&self) -> Seq<Seq<char>> {
        texts(self.held@)
    }
}

impl Names {
    /// No name is held twice.
    pub open spec fn wf(&self) -> bool {
        self@.no_duplicates()
    }

    /// An empty registry.
    pub fn new() -> (names: Names)
        ensures
            names.wf(),
            names@ == Seq::<Seq<char>>::empty(),
    {
        let names = Names { held: Vec::new() };
        assert(names@ =~= Seq::<Seq<char>>::empty());
        names
    }

    /// The number of names held.
    pub fn len(&self) -> (count: usize)
        ensures
            count == self@.len(),
    {
        self.held.len()
    }

    /// The position of `name` among the held names, if it is held.
    fn position(&self, name: &str) -> (at: Option<usize>)
        ensures
            match at {
                Some(i) => i < self@.len() && self@[i as int] == name@ && forall|k: int|
                    0 <= k < i ==> self@[k] != name@,
                None => !self@.contains(name@),
            },
    {
        let wanted = name.to_owned();
        let mut i: usize = 0;
        while i < self.held.len()
            invariant
                i <= self.held.len(),
                wanted@ == name@,
                forall|k: int| 0 <= k < i ==> self@[k] != name@,
            decreases self.held.len() - i,
        {
            if self.held[i] == wanted {
                return Some(i);
            }
            i = i + 1;
        }
        None
    }

    /// Whether `name` is currently held.
    pub fn contains(&self, name: &str) -> (found: bool)
        ensures
            found == self@.contains(name@),
    {
        self.position(name).is_some()
    }

    /// Claims `name` if nobody holds it, and says whether the claim succeeded.
    pub fn insert(&mut self, name: String) -> (added: bool)
        requires
            old(self).wf(),
        ensures
            final(self).wf(),
            added == !old(self)@.contains(name@),
            final(self)@ == claimed(old(self)@, name@),
    {
        if self.contains(name.as_str()) {
            false
        } else {
            self.held.push(name);
            assert(self@ =~= old(self)@.push(name@));
            true
        }
    }

    /// Gives `name` back; nothing changes if nobody holds it.
    pub fn remove(&mut self, name: &str)
        requires
            old(self).wf(),
        ensures
            final(self).wf(),
            final(self)@ == released(old(self)@, name@),
            !final(self)@.contains(name@),
    {
        proof {
            old(self)@.index_of_first_ensures(name@);
        }
        match self.position(name) {
            Some(i) => {
                self.held.remove(i);
                assert(self@ =~= old(self)@.remove(i as int));
                assert forall|k: int| 0 <= k < self@.len() implies self@[k] != name@ by {
                    if k < i {
                    } else {
                        assert(self@[k] == old(self)@[k + 1]);
                    }
                }
            },
            None => {},
        }
    }

    /// Draws up to `draws` random names and claims the first one that nobody
    /// holds. Returns the claimed name, or `None` if every draw was taken; the
    /// first draw cannot be taken while no generated name is held.
    pub fn get_unique(&mut self, draws: usize) -> (name: Option<String>)
        requires
            old(self).wf(),
        ensures
            final(self).wf(),
            match name {
                Some(n) => is_generated(n@) && !old(self)@.contains(n@) && final(self)@ == old(
                    self,
                )@.push(n@),
                None => final(self)@ == old(self)@,
            },
            draws == 0 ==> name is None,
            draws > 0 && (forall|n: Seq<char>| is_generated(n) ==> !old(self)@.contains(n))
                ==> name is Some,
    {
        let mut left = draws;
        while left > 0
            invariant
                self.wf(),
                self@ == old(self)@,
                left <= draws,
                left < draws ==> exists|n: Seq<char>| is_generated(n) && self@.contains(n),
            decreases left,
        {
            let candidate = random_name();
            if self.insert(candidate.clone()) {
                return Some(candidate);
            }
            assert(is_generated(candidate@) && self@.contains(candidate@));
            left = left - 1;
        }
        None
    }

    /// A snapshot of the held names, oldest claim first.
    pub fn list_all(&self) -> (snapshot: Vec<String>)
        ensures
            texts(snapshot@) == self@,
    {
        copy_lines(&self.held)
    }

    /// The held names as one line: every name followed by a space, oldest claim first.
    pub fn to_string(&self) -> (line: String)
        ensures
            line@ == spaced(self@),
    {
        join_spaced(&self.held)
    }
}

/// One request to the registry, as the clients of a server issue them.
pub enum NameOp {
    /// A client asks for the name.
    Claim(Seq<char>),
    /// A client gives the name back.
    Release(Seq<char>),
}

/// The held names after one request.
pub open spec fn after_op(held: Seq<Seq<char>>, op: NameOp) -> Seq<Seq<char>> {
    match op {
        NameOp::Claim(name) => claimed(held, name),
        NameOp::Release(name) => released(held, name),
    }
}

/// The held names after the requests `ops`, served one at a time in order.
pub open spec fn after_ops(held: Seq<Seq<char>>, ops: Seq<NameOp>) -> Seq<Seq<char>>
    decreases ops.len(),
{
    if ops.len() == 0 {
        held
    } else {
        after_op(after_ops(held, ops.drop_last()), ops.last())
    }
}

/// Whether request number `at` of `ops` is a claim that succeeds.
pub open spec fn granted(held: Seq<Seq<char>>, ops: Seq<NameOp>, at: int) -> bool {
    ops[at] matches NameOp::Claim(name) && !after_ops(held, ops.take(at)).contains(name)
}

/// By how much the requests `ops` change the number of held names: one more
/// for every claim that succeeds, one less for every release of a held name.
pub open spec fn net_claims(held: Seq<Seq<char>>, ops: Seq<NameOp>) -> int
    decreases ops.len(),
{
    if ops.len() == 0 {
        0
    } else {
        let before = after_ops(held, ops.drop_last());
        net_claims(held, ops.drop_last()) + match ops.last() {
            NameOp::Claim(name) => if before.contains(name) { 0int } else { 1int },
            NameOp::Release(name) => if before.contains(name) { -1int } else { 0int },
        }
    }
}

/// Giving a name back keeps the held names distinct and drops exactly that name.
pub proof fn lemma_released(held: Seq<Seq<char>>, name: Seq<char>)
    requires
        held.no_duplicates(),
    ensures
        released(held, name).no_duplicates(),
        !released(held, name).contains(name),
        forall|other: Seq<char>| other != name ==> (released(held, name).contains(other)
            <==> held.contains(other)),
        released(held, name).len() == held.len() - (if held.contains(name) { 1int } else { 0int }),
{
    held.index_of_first_ensures(name);
    match held.index_of_first(name) {
        Some(i) => {
            let rest = held.remove(i);
            assert forall|k: int| 0 <= k < rest.len() implies rest[k] != name by {
                if k >= i {
                    assert(rest[k] == held[k + 1]);
                }
            }
            assert forall|other: Seq<char>| other != name implies (rest.contains(other)
                <==> held.contains(other)) by {
                if rest.contains(other) {
                    let k = rest.index_of(other);
                    if k < i {
                        assert(held[k] == other);
                    } else {
                        assert(held[k + 1] == other);
                    }
                }
                if held.contains(other) {
                    let k = held.index_of(other);
                    if k < i {
                        assert(rest[k] == other);
                    } else {
                        assert(rest[k - 1] == other);
                    }
                }
            }
        },
        None => {},
    }
}

/// However claims and releases are interleaved, no name is ever held twice,
/// so the size of the registry is the number of distinct names held.
pub proof fn law_names_stay_distinct(held: Seq<Seq<char>>, ops: Seq<NameOp>)
    requires
        held.no_duplicates(),
    ensures
        after_ops(held, ops).no_duplicates(),
        after_ops(held, ops).to_set().len() == after_ops(held, ops).len(),
    decreases ops.len(),
{
    if ops.len() > 0 {
        law_names_stay_distinct(held, ops.drop_last());
        lemma_released(
            after_ops(held, ops.drop_last()),
            match ops.last() {
                NameOp::Claim(name) => name,
                NameOp::Release(name) => name,
            },
        );
    }
    after_ops(held, ops).unique_seq_to_set();
}

/// The size of the registry is the size it started with, plus one for every
/// claim that succeeded, minus one for every held name that was given back.
pub proof fn law_size_counts_holders(held: Seq<Seq<char>>, ops: Seq<NameOp>)
    requires
        held.no_duplicates(),
    ensures
        after_ops(held, ops).len() == held.len() + net_claims(held, ops),
    decreases ops.len(),
{
    if ops.len() > 0 {
        law_size_counts_holders(held, ops.drop_last());
        law_names_stay_distinct(held, ops.drop_last());
        lemma_released(
            after_ops(held, ops.drop_last()),
            match ops.last() {
                NameOp::Claim(name) => name,
                NameOp::Release(name) => name,
            },
        );
    }
}

/// A name that was claimed successfully stays held until it is released.
proof fn lemma_held_until_released(
    held: Seq<Seq<char>>,
    ops: Seq<NameOp>,
    first: int,
    upto: int,
)
    requires
        held.no_duplicates(),
        0 <= first < upto <= ops.len(),
        granted(held, ops, first),
        forall|k: int| first < k < upto ==> ops[k] != NameOp::Release(ops[first]->Claim_0),
    ensures
        after_ops(held, ops.take(upto)).contains(ops[first]->Claim_0),
    decreases upto - first,
{
    let name = ops[first]->Claim_0;
    let prefix = ops.take(upto);
    assert(prefix.drop_last() =~= ops.take(upto - 1));
    assert(prefix.last() == ops[upto - 1]);
    let before = after_ops(held, ops.take(upto - 1));
    if upto - 1 == first {
        assert(before.push(name).last() == name);
    } else {
        lemma_held_until_released(held, ops, first, upto - 1);
        law_names_stay_distinct(held, ops.take(upto - 1));
        match ops[upto - 1] {
            NameOp::Claim(other) => {
                if !before.contains(other) {
                    let k = before.index_of(name);
                    assert(before.push(other)[k] == name);
                }
            },
            NameOp::Release(other) => {
                lemma_released(before, other);
            },
        }
    }
}

/// Two claims that both succeed are for different names, unless the first
/// name was given back in between.
pub proof fn law_granted_names_differ(
    held: Seq<Seq<char>>,
    ops: Seq<NameOp>,
    first: int,
    second: int,
)
    requires
        held.no_duplicates(),
        0 <= first < second < ops.len(),
        granted(held, ops, first),
        granted(held, ops, second),
        forall|k: int| first < k < second ==> ops[k] != NameOp::Release(ops[first]->Claim_0),
    ensures
        ops[first]->Claim_0 != ops[second]->Claim_0,
{
    lemma_held_until_released(held, ops, first, second);
}

} // verus!
