//! The narrow bridge to the outside crates this library leans on: the hash
//! containers that track votes and read acknowledgements, the election-timeout
//! randomizer, and the variable-length integer codec used for membership
//! records.  Everything here is trusted; everything else in the crate is
//! verified against the contracts stated here.

use vstd::prelude::*;
use rand::RngExt;

verus! {

/// A map from voter id to whether that voter granted the current campaign.
/// Holds a `hashbrown::HashMap<u64, bool>`, which Verus does not look into.
#[verifier::external_body]
pub struct VoteBook {
    map: hashbrown::HashMap<u64, bool>,
}

pub uninterp spec fn votes_of(b: VoteBook) -> Map<u64, bool>;

/// Relies on `hashbrown::HashMap::new`: the fresh map is empty.
#[verifier::external_body]
pub fn new_vote_book() -> (r: VoteBook)
    ensures
        forall|id: u64| !votes_of(r).contains_key(id),
{
    VoteBook { map: hashbrown::HashMap::new() }
}

/// Relies on `hashbrown::HashMap::entry` + `Entry::or_insert`: the vote is
/// stored only if `id` has no recorded vote yet.
#[verifier::external_body]
pub fn record_vote(b: &mut VoteBook, id: u64, vote: bool)
    ensures
        votes_of(*final(b)) == if votes_of(*old(b)).contains_key(id) {
            votes_of(*old(b))
        } else {
            votes_of(*old(b)).insert(id, vote)
        },
{
    b.map.entry(id).or_insert(vote);
}

/// Relies on `hashbrown::HashMap::get`: returns the recorded vote of `id`.
#[verifier::external_body]
pub fn vote_of(b: &VoteBook, id: u64) -> (r: Option<bool>)
    ensures
        r == if votes_of(*b).contains_key(id) {
            Some(votes_of(*b)[id])
        } else {
            None::<bool>
        },
{
    b.map.get(&id).copied()
}

/// Relies on `hashbrown::HashMap::clear`: afterwards the map is empty.
#[verifier::external_body]
pub fn clear_votes(b: &mut VoteBook)
    ensures
        forall|id: u64| !votes_of(*final(b)).contains_key(id),
{
    b.map.clear();
}

/// The ids that acknowledged a read-index heartbeat round.
/// Holds a `hashbrown::HashSet<u64>`, which Verus does not look into.
#[verifier::external_body]
pub struct AckSet {
    set: hashbrown::HashSet<u64>,
}

pub uninterp spec fn acks_of(s: AckSet) -> Set<u64>;

/// Relies on `hashbrown::HashSet::new`: the fresh set is empty.
#[verifier::external_body]
pub fn new_ack_set() -> (r: AckSet)
    ensures
        acks_of(r) == Set::<u64>::empty(),
{
    AckSet { set: hashbrown::HashSet::new() }
}

/// Relies on `hashbrown::HashSet::insert`: afterwards `id` is a member.
#[verifier::external_body]
pub fn ack_insert(s: &mut AckSet, id: u64)
    ensures
        acks_of(*final(s)) == acks_of(*old(s)).insert(id),
{
    s.set.insert(id);
}

/// Relies on `hashbrown::HashSet::contains`.
#[verifier::external_body]
pub fn ack_contains(s: &AckSet, id: u64) -> (r: bool)
    ensures
        r == acks_of(*s).contains(id),
{
    s.set.contains(&id)
}

/// Relies on `rand::rng` + `rand::RngExt::random_range`: a sample drawn from
/// `[lo, hi)`, which is non-empty by the precondition.  Nothing else can be
/// promised of a random draw.
#[verifier::external_body]
pub fn random_in_range(lo: usize, hi: usize) -> (r: usize)
    requires
        lo < hi,
    ensures
        lo <= r < hi,
{
    rand::rng().random_range(lo..hi)
}

/// The LEB128 encoding of `n`: seven payload bits per byte, least significant
/// first, the high bit marking continuation.
pub open spec fn varint_of(n: nat) -> Seq<u8>
    decreases n,
{
    if n < 128 {
        seq![n as u8]
    } else {
        seq![(128 + (n % 128)) as u8] + varint_of(n / 128)
    }
}

/// Relies on `prost::encoding::encode_varint`: appends exactly the LEB128
/// bytes of `v` to `out`.
#[verifier::external_body]
pub fn push_varint(v: u64, out: &mut Vec<u8>)
    ensures
        final(out)@ == old(out)@ + varint_of(v as nat),
{
    prost::encoding::encode_varint(v, out);
}

/// Relies on `prost::encoding::decode_varint`: when the bytes at `pos` start
/// with the LEB128 encoding of some `v`, it returns `v` and the position just
/// past that encoding; it always consumes at least one byte on success and
/// never reads past the end.
#[verifier::external_body]
pub fn read_varint(data: &Vec<u8>, pos: usize) -> (r: Option<(u64, usize)>)
    requires
        pos <= data@.len(),
    ensures
        forall|v: u64| #[trigger]
            varint_of(v as nat).is_prefix_of(data@.skip(pos as int)) ==> r == Some(
                (v, (pos + varint_of(v as nat).len()) as usize),
            ),
        match r {
            Some((v, p)) => pos < p <= data@.len(),
            None => true,
        },
{
    let mut slice: &[u8] = &data[pos..];
    match prost::encoding::decode_varint(&mut slice) {
        Ok(v) => Some((v, data.len() - slice.len())),
        Err(_) => None,
    }
}

} // verus!
