//! Random display names: an adjective followed by an animal.

use vstd::prelude::*;

verus! {

/// The adjectives a generated name may start with.
pub const ADJECTIVES: [&'static str; 16] = [
    "swift", "nimble", "brave", "calm", "eager", "gentle", "jolly", "keen", "lively", "merry",
    "proud", "quiet", "sly", "witty", "bold", "clever",
];

/// The animals a generated name may end with.
pub const ANIMALS: [&'static str; 16] = [
    "Fox", "Owl", "Lynx", "Heron", "Otter", "Badger", "Falcon", "Hare", "Ibex", "Koala", "Lemur",
    "Marten", "Newt", "Panda", "Raven", "Stoat",
];

/// Whether `name` is some adjective of the list followed by some animal of the list.
pub open spec fn is_generated(name: Seq<char>) -> bool {
    exists|i: int, j: int|
        0 <= i < ADJECTIVES@.len() && 0 <= j < ANIMALS@.len() && name == #[trigger] ADJECTIVES@[i]@
            + #[trigger] ANIMALS@[j]@
}

/// Picks one of `words` at random with `fastrand::choice`, which draws an index
/// below the length and returns the word at that index, or nothing when the
/// slice is empty. Which word comes back is not determined.
#[verifier::external_body]
fn pick(words: &[&'static str]) -> (word: Option<&'static str>)
    ensures
        word is Some <==> words@.len() > 0,
        word matches Some(w) ==> words@.contains(w),
{
    fastrand::choice(words).copied()
}

/// The name made of `adjective` followed by `animal`.
pub fn compose_name(adjective: &str, animal: &str) -> (name: String)
    ensures
        name@ == adjective@ + animal@,
{
    let mut name = adjective.to_owned();
    name.append(animal);
    name
}

/// A random display name: a random adjective followed by a random animal.
pub fn random_name() -> (name: String)
    ensures
        is_generated(name@),
{
    let adjectives = ADJECTIVES;
    let animals = ANIMALS;
    match (pick(&adjectives), pick(&animals)) {
        (Some(adjective), Some(animal)) => {
            let name = compose_name(adjective, animal);
            proof {
                let i = ADJECTIVES@.index_of(adjective);
                let j = ANIMALS@.index_of(animal);
                assert(name@ == ADJECTIVES@[i]@ + ANIMALS@[j]@);
            }
            name
        },
        // Not reached: neither list is empty.
        _ => String::new(),
    }
}

} // verus!
