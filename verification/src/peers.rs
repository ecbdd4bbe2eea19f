//! The other participants of a deployment and the cache of their signature
//! verifying keys.

use vstd::prelude::*;
use ed25519_dalek::VerifyingKey;
use std::collections::HashMap;

verus! {

#[verifier::external_type_specification]
#[verifier::external_body]
pub struct ExVerifyingKey(ed25519_dalek::VerifyingKey);

#[verifier::external_type_specification]
#[verifier::external_body]
pub struct ExSigningKey(ed25519_dalek::SigningKey);

#[verifier::external_type_specification]
#[verifier::external_body]
pub struct ExSignatureError(ed25519_dalek::ed25519::signature::Error);

/// The identifiers `1..=k` other than `own`, ascending.
pub open spec fn ids_upto(k: nat, own: u16) -> Seq<u16>
    decreases k,
{
    if k == 0 {
        Seq::<u16>::empty()
    } else {
        let r = ids_upto((k - 1) as nat, own);
        if k == own {
            r
        } else {
            r.push(k as u16)
        }
    }
}

/// The identifiers of the peers of `device_id` in a network of `n`: `1..=n`
/// without `device_id`, both taken as `u16`.
pub open spec fn peer_ids_spec(n: usize, device_id: u32) -> Seq<u16> {
    ids_upto((n as u16) as nat, device_id as u16)
}

/// The identifiers of the peers of `device_id` in a network of `n`, in the
/// order in which the fixture server lists their packages.
pub fn peer_ids(n: usize, device_id: u32) -> (r: Vec<u16>)
    ensures
        r@ == peer_ids_spec(n, device_id),
{
    let top = n as u16;
    let own = device_id as u16;
    let mut out: Vec<u16> = Vec::new();
    let mut k: u32 = 1;
    while k <= top as u32
        invariant
            1 <= k <= top as u32 + 1,
            top == n as u16,
            own == device_id as u16,
            out@ == ids_upto((k - 1) as nat, own),
        decreases top as u32 + 1 - k,
    {
        if k as u16 != own {
            out.push(k as u16);
        }
        k = k + 1;
    }
    out
}

/// What `ids_upto` holds: exactly the identifiers `1..=k` other than `own`,
/// in strictly ascending order.
proof fn lemma_ids_upto(k: nat, own: u16)
    requires
        k <= u16::MAX,
    ensures
        forall|id: u16| ids_upto(k, own).contains(id) <==> (1 <= id <= k && id != own),
        forall|i: int, j: int|
            0 <= i < j < ids_upto(k, own).len() ==> ids_upto(k, own)[i] < ids_upto(k, own)[j],
        forall|i: int| 0 <= i < ids_upto(k, own).len() ==> ids_upto(k, own)[i] <= k,
    decreases k,
{
    if k > 0 {
        let r = ids_upto((k - 1) as nat, own);
        lemma_ids_upto((k - 1) as nat, own);
        let s = ids_upto(k, own);
        if k != own {
            assert(s == r.push(k as u16));
            assert forall|id: u16| s.contains(id) <==> (1 <= id <= k && id != own) by {
                if id == k {
                    assert(s[s.len() - 1] == id);
                } else {
                    assert(r.contains(id) <==> (1 <= id <= k - 1 && id != own));
                    if s.contains(id) {
                        let i = choose|i: int| 0 <= i < s.len() && s[i] == id;
                        assert(r[i] == id);
                        assert(r.contains(id));
                    }
                    if r.contains(id) {
                        let i = choose|i: int| 0 <= i < r.len() && r[i] == id;
                        assert(s[i] == id);
                    }
                }
            }
        } else {
            assert forall|id: u16| s.contains(id) <==> (1 <= id <= k && id != own) by {
                assert(r.contains(id) <==> (1 <= id <= k - 1 && id != own));
            }
        }
    }
}

/// The peers of a device are the other members of the network: every
/// identifier from 1 to `n` except the device's own, each once, ascending.
pub proof fn law_peer_ids(n: usize, device_id: u32)
    ensures
        forall|id: u16|
            peer_ids_spec(n, device_id).contains(id) <==> (1 <= id <= (n as u16) && id
                != device_id as u16),
        forall|i: int, j: int|
            0 <= i < j < peer_ids_spec(n, device_id).len() ==> peer_ids_spec(n, device_id)[i]
                < peer_ids_spec(n, device_id)[j],
{
    lemma_ids_upto((n as u16) as nat, device_id as u16);
}

/// Whether 32 bytes are the compressed Edwards-y encoding of a point of
/// curve25519, which is when `VerifyingKey::from_bytes` accepts them.
pub uninterp spec fn ed25519_point_decompresses(bytes: Seq<u8>) -> bool;

/// The verifying key that `VerifyingKey::from_bytes` makes of 32 bytes that
/// decompress.
pub uninterp spec fn verifying_key_of(bytes: Seq<u8>) -> VerifyingKey;

/// `ed25519_dalek::VerifyingKey::from_bytes`. Claimed: it returns a key exactly
/// when the bytes decompress to a curve point (its source decompresses the
/// bytes and fails only when that fails), and the key it returns is a function
/// of the bytes alone (it holds the bytes and the point they decompress to).
#[verifier::external_body]
fn verifying_key_from_bytes(bytes: &[u8; 32]) -> (r: Result<
    VerifyingKey,
    ed25519_dalek::ed25519::signature::Error,
>)
    ensures
        r is Ok <==> ed25519_point_decompresses(bytes@),
        r matches Ok(k) ==> k == verifying_key_of(bytes@),
{
    VerifyingKey::from_bytes(bytes)
}

/// The signing key that `SigningKey::from_bytes` makes of a 32-byte seed.
pub uninterp spec fn signing_key_of(seed: Seq<u8>) -> ed25519_dalek::SigningKey;

/// `ed25519_dalek::SigningKey::from_bytes`. Claimed: it cannot fail, and the
/// key it returns is a function of the seed alone (its source expands the seed
/// and derives the verifying key from it).
#[verifier::external_body]
fn signing_key_from_bytes(seed: &[u8; 32]) -> (r: ed25519_dalek::SigningKey)
    ensures
        r == signing_key_of(seed@),
{
    ed25519_dalek::SigningKey::from_bytes(seed)
}

/// The signing key of a device from the seed the fixture server hands out
/// with its key-generation output.
pub fn device_signing_key(seed: &[u8; 32]) -> (r: ed25519_dalek::SigningKey)
    ensures
        r == signing_key_of(seed@),
{
    signing_key_from_bytes(seed)
}

/// The map from device to verifying key built from the published keys of
/// devices 1, 2, ... in order: device `i` (as `u32`) maps to the key of the
/// `i`-th bytes, a later device replacing an earlier one of the same id.
pub open spec fn peer_key_map(accepted: Seq<[u8; 32]>) -> Map<u32, VerifyingKey>
    decreases accepted.len(),
{
    if accepted.len() == 0 {
        Map::<u32, VerifyingKey>::empty()
    } else {
        peer_key_map(accepted.drop_last()).insert(
            accepted.len() as u32,
            verifying_key_of(accepted.last()@),
        )
    }
}

/// Why a peer's key could not be taken.
#[derive(Debug)]
pub enum PeerKeyError {
    /// The published bytes of `device_id` are no curve point.
    InvalidKey { device_id: u32, source: ed25519_dalek::ed25519::signature::Error },
}

/// Collects the verifying keys of devices `1..=n` one at a time, in order,
/// as their public keys are fetched.
pub struct PeerKeyCollector {
    n: usize,
    count: usize,
    keys: HashMap<u32, VerifyingKey>,
    accepted: Ghost<Seq<[u8; 32]>>,
}

impl PeerKeyCollector {
    /// The network size.
    pub closed spec fn size(self) -> nat {
        self.n as nat
    }

    /// The published keys accepted so far, of devices 1, 2, ... in order.
    pub closed spec fn collected(self) -> Seq<[u8; 32]> {
        self.accepted@
    }

    /// At most `n` keys are accepted, and the map holds the key of each.
    pub closed spec fn wf(self) -> bool {
        &&& self.count == self.accepted@.len()
        &&& self.count <= self.n
        &&& self.keys@ == peer_key_map(self.accepted@)
    }

    /// A collector for a network of `n` devices.
    pub fn new(n: usize) -> (r: PeerKeyCollector)
        ensures
            r.wf(),
            r.size() == n,
            r.collected() == Seq::<[u8; 32]>::empty(),
    {
        PeerKeyCollector { n, count: 0, keys: HashMap::new(), accepted: Ghost(Seq::empty()) }
    }

    /// The device whose key comes next, or `None` when all `n` are in.
    pub fn next_device(&self) -> (r: Option<u32>)
        requires
            self.wf(),
        ensures
            self.collected().len() < self.size() ==> r == Some(((self.collected().len() + 1) as u32)),
            self.collected().len() >= self.size() ==> r is None,
    {
        if self.count < self.n {
            Some((self.count + 1) as u32)
        } else {
            None
        }
    }

    /// Takes the published public key of the next device: its verifying key
    /// is collected when the bytes decode, and the collection is left as it
    /// was otherwise.
    pub fn accept(&mut self, public_bytes: [u8; 32]) -> (r: Result<(), PeerKeyError>)
        requires
            old(self).wf(),
            old(self).collected().len() < old(self).size(),
        ensures
            final(self).wf(),
            final(self).size() == old(self).size(),
            r is Ok <==> ed25519_point_decompresses(public_bytes@),
            r is Ok ==> final(self).collected() == old(self).collected().push(public_bytes),
            r matches Err(PeerKeyError::InvalidKey { device_id, .. }) ==> {
                &&& final(self).collected() == old(self).collected()
                &&& device_id == ((old(self).collected().len() + 1) as u32)
            },
    {
        broadcast use vstd::std_specs::hash::group_hash_axioms;

        let device_id = (self.count + 1) as u32;
        match verifying_key_from_bytes(&public_bytes) {
            Ok(key) => {
                let ghost before = self.accepted@;
                self.keys.insert(device_id, key);
                self.count = self.count + 1;
                self.accepted = Ghost(before.push(public_bytes));
                assert(self.accepted@.drop_last() == before);
                Ok(())
            },
            Err(source) => Err(PeerKeyError::InvalidKey { device_id, source }),
        }
    }

    /// The keys of all `n` devices, by device.
    pub fn finish(self) -> (r: HashMap<u32, VerifyingKey>)
        requires
            self.wf(),
            self.collected().len() == self.size(),
        ensures
            r@ == peer_key_map(self.collected()),
    {
        self.keys
    }
}

/// The keys of devices `1..=k` (for `k` within `u32`) map each device to the
/// key decoded from its own published bytes, and nothing else.
pub proof fn law_collection_complete(accepted: Seq<[u8; 32]>)
    requires
        accepted.len() <= u32::MAX,
    ensures
        forall|id: u32|
            #[trigger] peer_key_map(accepted).contains_key(id) <==> 1 <= id <= accepted.len(),
        forall|id: u32|
            1 <= id <= accepted.len() ==> #[trigger] peer_key_map(accepted)[id] == verifying_key_of(
                accepted[id - 1]@,
            ),
    decreases accepted.len(),
{
    if accepted.len() > 0 {
        let prev = accepted.drop_last();
        law_collection_complete(prev);
        let k = accepted.len() as u32;
        assert(k as nat == accepted.len());
        let m = peer_key_map(accepted);
        let pm = peer_key_map(prev);
        assert(m == pm.insert(k, verifying_key_of(accepted.last()@)));
        assert forall|id: u32| #[trigger] m.contains_key(id) <==> 1 <= id <= accepted.len() by {
            if id != k {
                assert(pm.contains_key(id) <==> 1 <= id <= prev.len());
            }
        }
        assert forall|id: u32| 1 <= id <= accepted.len() implies #[trigger] m[id]
            == verifying_key_of(accepted[id - 1]@) by {
            if id != k {
                assert(1 <= id <= prev.len());
                assert(pm[id] == verifying_key_of(prev[id - 1]@));
                assert(prev[id - 1] == accepted[id - 1]);
            }
        }
    }
}

/// The keys of one network configuration.
struct CacheEntry {
    n: usize,
    t: usize,
    keys: HashMap<u32, VerifyingKey>,
}

/// The peer keys of every `(n, t)` configuration fetched so far, so that each
/// is fetched once.
pub struct PeerKeyCache {
    entries: Vec<CacheEntry>,
}

impl PeerKeyCache {
    /// No configuration is stored twice.
    pub closed spec fn wf(self) -> bool {
        forall|i: int, j: int|
            0 <= i < j < self.entries@.len() ==> (#[trigger] self.entries@[i].n, self.entries@[i].t)
                != (#[trigger] self.entries@[j].n, self.entries@[j].t)
    }

    /// Whether entry `i` is the one of `key`.
    closed spec fn holds_at(self, i: int, key: (usize, usize)) -> bool {
        0 <= i < self.entries@.len() && (self.entries@[i].n, self.entries@[i].t) == key
    }

    /// The cached keys of each configuration.
    pub closed spec fn view(self) -> Map<(usize, usize), Map<u32, VerifyingKey>> {
        Map::new(
            |key: (usize, usize)| exists|i: int| self.holds_at(i, key),
            |key: (usize, usize)|
                self.entries@[choose|i: int| self.holds_at(i, key)].keys@,
        )
    }

    /// An empty cache.
    pub fn new() -> (r: PeerKeyCache)
        ensures
            r.wf(),
            r.view() == Map::<(usize, usize), Map<u32, VerifyingKey>>::empty(),
    {
        let r = PeerKeyCache { entries: Vec::new() };
        assert(r.view() =~= Map::<(usize, usize), Map<u32, VerifyingKey>>::empty());
        r
    }

    /// The position of the entry of `(n, t)`, if any.
    fn find(&self, n: usize, t: usize) -> (r: Option<usize>)
        requires
            self.wf(),
        ensures
            r matches Some(i) ==> self.holds_at(i as int, (n, t)),
            r is None ==> forall|i: int| !self.holds_at(i, (n, t)),
    {
        for i in 0..self.entries.len()
            invariant
                forall|j: int| 0 <= j < i ==> !self.holds_at(j, (n, t)),
        {
            if self.entries[i].n == n && self.entries[i].t == t {
                return Some(i);
            }
        }
        None
    }

    /// The cached keys of `(n, t)`, if they were fetched before.
    pub fn get(&self, n: usize, t: usize) -> (r: Option<HashMap<u32, VerifyingKey>>)
        requires
            self.wf(),
        ensures
            self.view().contains_key((n, t)) <==> r is Some,
            r matches Some(v) ==> v@ == self.view()[(n, t)],
    {
        match self.find(n, t) {
            Some(i) => {
                let ghost c = choose|j: int| self.holds_at(j, (n, t));
                assert(self.holds_at(c, (n, t)));
                assert(c == i as int) by {
                    if c < i {
                        assert(self.entries@[c].n == self.entries@[i as int].n);
                    } else if c > i {
                        assert(self.entries@[c].t == self.entries@[i as int].t);
                    }
                }
                Some(self.entries[i].keys.clone())
            },
            None => None,
        }
    }

    /// Stores the keys of `(n, t)`, replacing any stored before.
    pub fn insert(&mut self, n: usize, t: usize, keys: HashMap<u32, VerifyingKey>)
        requires
            old(self).wf(),
        ensures
            final(self).wf(),
            final(self).view() == old(self).view().insert((n, t), keys@),
    {
        let ghost new_keys = keys@;
        let ghost before = *self;
        let entry = CacheEntry { n, t, keys };
        match self.find(n, t) {
            Some(i) => {
                self.entries.set(i, entry);
                let ghost after = *self;
                assert forall|j: int, k: int|
                    0 <= j < k < after.entries@.len() implies (#[trigger] after.entries@[j].n,
                    after.entries@[j].t) != (#[trigger] after.entries@[k].n, after.entries@[k].t) by {
                    assert(before.entries@[j].n == after.entries@[j].n || j == i);
                    if j == i as int {
                        assert(before.entries@[k] == after.entries@[k]);
                        assert(before.entries@[i as int].n == n);
                    } else if k == i as int {
                        assert(before.entries@[j] == after.entries@[j]);
                        assert(before.entries@[i as int].n == n);
                    } else {
                        assert(before.entries@[j] == after.entries@[j]);
                        assert(before.entries@[k] == after.entries@[k]);
                    }
                }
                assert forall|key: (usize, usize)| #[trigger] after.view().contains_key(key)
                    == before.view().insert((n, t), new_keys).contains_key(key) by {
                    if key != (n, t) {
                        if exists|j: int| after.holds_at(j, key) {
                            let j = choose|j: int| after.holds_at(j, key);
                            assert(before.holds_at(j, key));
                        }
                        if exists|j: int| before.holds_at(j, key) {
                            let j = choose|j: int| before.holds_at(j, key);
                            assert(after.holds_at(j, key));
                        }
                    } else {
                        assert(after.holds_at(i as int, key));
                    }
                }
                assert forall|key: (usize, usize)| #[trigger] after.view().contains_key(key)
                    implies after.view()[key] == before.view().insert((n, t), new_keys)[key] by {
                    let ja = choose|j: int| after.holds_at(j, key);
                    assert(after.holds_at(ja, key));
                    if key != (n, t) {
                        assert(before.holds_at(ja, key));
                        let jb = choose|j: int| before.holds_at(j, key);
                        assert(before.holds_at(jb, key));
                        assert(ja == jb) by {
                            if ja < jb {
                                assert(before.entries@[ja].n == before.entries@[jb].n);
                            } else if ja > jb {
                                assert(before.entries@[ja].n == before.entries@[jb].n);
                            }
                        }
                    } else {
                        assert(after.holds_at(i as int, key));
                        assert(ja == i as int) by {
                            if ja < i {
                                assert(after.entries@[ja].n == after.entries@[i as int].n);
                            } else if ja > i {
                                assert(after.entries@[ja].n == after.entries@[i as int].n);
                            }
                        }
                    }
                }
                assert(after.view() =~= before.view().insert((n, t), new_keys));
            },
            None => {
                self.entries.push(entry);
                let ghost after = *self;
                let ghost last = before.entries@.len() as int;
                assert forall|j: int, k: int|
                    0 <= j < k < after.entries@.len() implies (#[trigger] after.entries@[j].n,
                    after.entries@[j].t) != (#[trigger] after.entries@[k].n, after.entries@[k].t) by {
                    assert(after.entries@[j] == before.entries@[j]);
                    if k < last {
                        assert(after.entries@[k] == before.entries@[k]);
                    } else {
                        assert(!before.holds_at(j, (n, t)));
                    }
                }
                assert forall|key: (usize, usize)| #[trigger] after.view().contains_key(key)
                    == before.view().insert((n, t), new_keys).contains_key(key) by {
                    if key != (n, t) {
                        if exists|j: int| after.holds_at(j, key) {
                            let j = choose|j: int| after.holds_at(j, key);
                            assert(j < last);
                            assert(before.holds_at(j, key));
                        }
                        if exists|j: int| before.holds_at(j, key) {
                            let j = choose|j: int| before.holds_at(j, key);
                            assert(after.holds_at(j, key));
                        }
                    } else {
                        assert(after.holds_at(last, key));
                    }
                }
                assert forall|key: (usize, usize)| #[trigger] after.view().contains_key(key)
                    implies after.view()[key] == before.view().insert((n, t), new_keys)[key] by {
                    let ja = choose|j: int| after.holds_at(j, key);
                    assert(after.holds_at(ja, key));
                    if key != (n, t) {
                        assert(ja < last);
                        assert(before.holds_at(ja, key));
                        let jb = choose|j: int| before.holds_at(j, key);
                        assert(before.holds_at(jb, key));
                        assert(ja == jb) by {
                            if ja < jb {
                                assert(before.entries@[ja].n == before.entries@[jb].n);
                            } else if ja > jb {
                                assert(before.entries@[ja].n == before.entries@[jb].n);
                            }
                        }
                    } else {
                        assert(ja == last) by {
                            if ja < last {
                                assert(before.holds_at(ja, key));
                            }
                        }
                    }
                }
                assert(after.view() =~= before.view().insert((n, t), new_keys));
            },
        }
    }
}

/// What was stored for a configuration is what is read back for it, and
/// storing it leaves every other configuration as it was.
pub proof fn law_cache_read_after_write(
    before: PeerKeyCache,
    after: PeerKeyCache,
    n: usize,
    t: usize,
    keys: Map<u32, VerifyingKey>,
)
    requires
        after.view() == before.view().insert((n, t), keys),
    ensures
        after.view().contains_key((n, t)),
        after.view()[(n, t)] == keys,
        forall|other: (usize, usize)|
            other != (n, t) ==> (#[trigger] after.view().contains_key(other)
                == before.view().contains_key(other) && (before.view().contains_key(other)
                ==> after.view()[other] == before.view()[other])),
{
}

} // verus!
