//! The daemon's in-memory store of secrets, each with an optional expiry.
//!
//! Time is a count of nanoseconds on the daemon's monotonic clock (a `u64`
//! lasts five centuries); a lifetime is a count of nanoseconds too, as wide as
//! a `Duration`.

use vstd::prelude::*;

use crate::keyed::lemma_pairs_to_map_at;
use crate::keyed::KeyedVec;
use crate::order::key_lt;
use crate::order::lemma_key_lt_strict_total_order;

verus! {

/// The longest a cached secret lives, in nanoseconds: a day. A longer
/// lifetime is cut to this; no lifetime at all (until the daemon exits) is
/// left alone.
pub const MAX_TTL: u128 = 86_400_000_000_000;

/// The instant at which a secret stored at `now` with lifetime `ttl` expires:
/// `now` plus the lifetime capped at [`MAX_TTL`], or never.
pub open spec fn expiry(ttl: Option<u128>, now: u64) -> Option<int> {
    match ttl {
        Some(t) => Some(now + if t <= MAX_TTL { t as int } else { MAX_TTL as int }),
        None => None,
    }
}

/// `expires_at` is no later than a day after the end of the clock.
pub open spec fn within_clock(expires_at: Option<int>) -> bool {
    expires_at matches Some(t) ==> t <= u64::MAX + MAX_TTL
}

/// A secret that expires at `expires_at` is still live at `now`.
pub open spec fn is_live(expires_at: Option<int>, now: int) -> bool {
    match expires_at {
        Some(t) => now < t,
        None => true,
    }
}

/// The time a secret that expires at `expires_at` has left at `now`.
pub open spec fn time_left(expires_at: Option<int>, now: int) -> Option<int> {
    match expires_at {
        Some(t) => Some(t - now),
        None => None,
    }
}

/// `key` names a secret in `m` that is live at `now`.
pub open spec fn live_in(m: Map<Seq<char>, (Seq<u8>, Option<int>)>, key: Seq<char>, now: int) -> bool {
    m.contains_key(key) && is_live(m[key].1, now)
}

/// The keys of the secrets in `m` that are live at `now`.
pub open spec fn live_keys(m: Map<Seq<char>, (Seq<u8>, Option<int>)>, now: int) -> Set<Seq<char>> {
    m.dom().filter(|k: Seq<char>| is_live(m[k].1, now))
}

/// A list of keys in strictly increasing order that holds each key live in
/// `m` at `now`, and no other, is as long as there are live keys.
pub proof fn lemma_listing_len(m: Map<Seq<char>, (Seq<u8>, Option<int>)>, now: int, keys: Seq<Seq<char>>)
    requires
        forall|i: int, j: int| 0 <= i < j < keys.len() ==> key_lt(#[trigger] keys[i], #[trigger] keys[j]),
        forall|i: int| 0 <= i < keys.len() ==> live_in(m, #[trigger] keys[i], now),
        forall|k: Seq<char>| live_in(m, k, now) ==> exists|i: int| 0 <= i < keys.len() && #[trigger] keys[i] == k,
    ensures
        keys.len() == live_keys(m, now).len(),
{
    assert forall|i: int, j: int| 0 <= i < keys.len() && 0 <= j < keys.len() && i != j implies keys[i] != keys[j] by {
        lemma_key_lt_strict_total_order(keys[i], keys[j], keys[i]);
        if i < j {
            assert(key_lt(keys[i], keys[j]));
        } else {
            assert(key_lt(keys[j], keys[i]));
        }
    }
    assert(keys.no_duplicates());
    keys.unique_seq_to_set();
    assert forall|k: Seq<char>| #[trigger] keys.to_set().contains(k) == live_keys(m, now).contains(k) by {
        if live_in(m, k, now) {
            let i = choose|i: int| 0 <= i < keys.len() && #[trigger] keys[i] == k;
            assert(keys.contains(k));
        }
        if keys.contains(k) {
            let i = choose|i: int| 0 <= i < keys.len() && #[trigger] keys[i] == k;
            assert(live_in(m, keys[i], now));
        }
    }
    assert(keys.to_set() =~= live_keys(m, now));
}

/// What `get` leaves of the secrets `m` at `now`: the secret under `key` is
/// dropped if it has expired.
pub open spec fn after_get(
    m: Map<Seq<char>, (Seq<u8>, Option<int>)>,
    key: Seq<char>,
    now: int,
) -> Map<Seq<char>, (Seq<u8>, Option<int>)> {
    if m.contains_key(key) && !is_live(m[key].1, now) {
        m.remove(key)
    } else {
        m
    }
}

/// A time left as contracts see it.
pub open spec fn left_view(left: Option<u128>) -> Option<int> {
    match left {
        Some(t) => Some(t as int),
        None => None,
    }
}

/// One secret as the cache holds it.
struct Stored {
    value: Vec<u8>,
    expires_at: Option<u128>,
}

/// A stored secret as contracts see it: its bytes and its expiry.
spec fn stored_view(s: Stored) -> (Seq<u8>, Option<int>) {
    (
        s.value@,
        match s.expires_at {
            Some(t) => Some(t as int),
            None => None,
        },
    )
}

/// Secrets by key, each live until its expiry.
pub struct Cache {
    entries: KeyedVec<Stored>,
}

impl View for Cache {
    type V = Map<Seq<char>, (Seq<u8>, Option<int>)>;

    /// Each key's bytes and expiry instant.
    closed spec fn view(&self) -> Map<Seq<char>, (Seq<u8>, Option<int>)> {
        self.entries.as_map().map_values(|s: Stored| stored_view(s))
    }
}

/// Copies bytes into a vector of their own.
pub fn copy_bytes(v: &[u8]) -> (result: Vec<u8>)
    ensures
        result@ == v@,
{
    let mut result: Vec<u8> = Vec::new();
    let mut i: usize = 0;
    while i < v.len()
        invariant
            i <= v@.len(),
            result@ == v@.take(i as int),
        decreases v@.len() - i,
    {
        result.push(v[i]);
        i = i + 1;
        proof {
            assert(result@ =~= v@.take(i as int));
        }
    }
    proof {
        assert(v@.take(i as int) =~= v@);
    }
    result
}

impl Cache {
    /// No secret expires later than a day after the end of the clock.
    #[verifier::type_invariant]
    closed spec fn inv(self) -> bool {
        forall|k: Seq<char>| #[trigger] self@.contains_key(k) ==> within_clock(self@[k].1)
    }

    /// An empty cache.
    pub fn new() -> (result: Self)
        ensures
            result@ == Map::<Seq<char>, (Seq<u8>, Option<int>)>::empty(),
    {
        let result = Cache { entries: KeyedVec::new() };
        proof {
            assert(result.entries.as_map() =~= Map::<Seq<char>, Stored>::empty());
            assert(result@ =~= Map::<Seq<char>, (Seq<u8>, Option<int>)>::empty());
        }
        result
    }

    /// The secret stored under `key`, if it is still live at `now`. A secret
    /// that has expired is dropped.
    pub fn get(&mut self, key: &str, now: u64) -> (result: Option<&[u8]>)
        ensures
            result is Some == live_in(old(self)@, key@, now as int),
            result matches Some(v) ==> v@ == old(self)@[key@].0,
            final(self)@ == after_get(old(self)@, key@, now as int),
    {
        proof {
            use_type_invariant(&*self);
            use_type_invariant(&self.entries);
        }
        match self.entries.find(key) {
            None => {
                proof {
                    assert(!self@.contains_key(key@));
                }
                None
            },
            Some(i) => {
                proof {
                    lemma_pairs_to_map_at(self.entries@, i as int);
                }
                let expired = match self.entries.value_at(i).expires_at {
                    Some(t) => t <= now as u128,
                    None => false,
                };
                if expired {
                    let mut entries = KeyedVec::new();
                    std::mem::swap(&mut entries, &mut self.entries);
                    entries.remove_at(i);
                    proof {
                        assert(entries.as_map().map_values(|s: Stored| stored_view(s))
                            =~= old(self)@.remove(key@));
                    }
                    self.entries = entries;
                    None
                } else {
                    Some(self.entries.value_at(i).value.as_slice())
                }
            },
        }
    }

    /// Stores `value` under `key` at `now`, to expire after `ttl` capped at
    /// [`MAX_TTL`], or never when there is no `ttl`. What was stored under the
    /// key before is replaced.
    pub fn put(&mut self, key: String, value: Vec<u8>, ttl: Option<u128>, now: u64)
        ensures
            final(self)@ == old(self)@.insert(key@, (value@, expiry(ttl, now))),
    {
        proof {
            use_type_invariant(&*self);
        }
        let expires_at = match ttl {
            Some(t) => Some(now as u128 + if t <= MAX_TTL { t } else { MAX_TTL }),
            None => None,
        };
        let ghost k = key@;
        let ghost stored = Stored { value, expires_at };
        let mut entries = KeyedVec::new();
        std::mem::swap(&mut entries, &mut self.entries);
        entries.insert(key, Stored { value, expires_at });
        proof {
            assert(stored_view(stored) == (value@, expiry(ttl, now)));
            assert(entries.as_map().map_values(|s: Stored| stored_view(s))
                =~= old(self)@.insert(k, (value@, expiry(ttl, now))));
        }
        self.entries = entries;
    }

    /// The secrets live at `now`, in key order, each with its key, its bytes
    /// and the time it has left (none for a secret kept until the daemon
    /// exits).
    pub fn entries(&self, now: u64) -> (result: Vec<(&str, &[u8], Option<u128>)>)
        ensures
            forall|i: int, j: int|
                0 <= i < j < result@.len() ==> key_lt(
                    #[trigger] result@[i].0@,
                    #[trigger] result@[j].0@,
                ),
            forall|i: int|
                0 <= i < result@.len() ==> {
                    let k = #[trigger] result@[i].0@;
                    &&& live_in(self@, k, now as int)
                    &&& result@[i].1@ == self@[k].0
                    &&& left_view(result@[i].2) == time_left(self@[k].1, now as int)
                },
            forall|k: Seq<char>|
                live_in(self@, k, now as int) ==> exists|i: int|
                    0 <= i < result@.len() && #[trigger] result@[i].0@ == k,
            result@.len() == live_keys(self@, now as int).len(),
            forall|i: int|
                0 <= i < result@.len() ==> (#[trigger] result@[i].2 matches Some(t) ==> t
                    <= u64::MAX + MAX_TTL - now),
    {
        proof {
            use_type_invariant(self);
            use_type_invariant(&self.entries);
        }
        let ghost s = self.entries@;
        let mut result: Vec<(&str, &[u8], Option<u128>)> = Vec::new();
        let ghost mut from: Seq<int> = Seq::empty();
        let n = self.entries.len();
        let mut i: usize = 0;
        while i < n
            invariant
                n == s.len(),
                s == self.entries@,
                crate::keyed::sorted_by_key(s),
                i <= n,
                from.len() == result@.len(),
                forall|j: int| 0 <= j < from.len() ==> 0 <= #[trigger] from[j] < i,
                forall|a: int, b: int| 0 <= a < b < from.len() ==> #[trigger] from[a] < #[trigger] from[b],
                forall|j: int|
                    0 <= j < result@.len() ==> {
                        let p = s[#[trigger] from[j]];
                        &&& result@[j].0@ == p.0
                        &&& result@[j].1@ == p.1.value@
                        &&& left_view(result@[j].2) == time_left(stored_view(p.1).1, now as int)
                        &&& is_live(stored_view(p.1).1, now as int)
                    },
                forall|m: int|
                    0 <= m < i && is_live(#[trigger] stored_view(s[m].1).1, now as int) ==> exists|j: int|
                        0 <= j < from.len() && from[j] == m,
            decreases n - i,
        {
            let ghost old_from = from;
            let stored = self.entries.value_at(i);
            let live = match stored.expires_at {
                Some(t) => (now as u128) < t,
                None => true,
            };
            if live {
                let key = self.entries.key_at(i).as_str();
                let value = stored.value.as_slice();
                let left = match stored.expires_at {
                    Some(t) => Some(t - now as u128),
                    None => None,
                };
                result.push((key, value, left));
                proof {
                    from = from.push(i as int);
                }
            }
            proof {
                assert forall|m: int|
                    0 <= m < i + 1 && is_live(#[trigger] stored_view(s[m].1).1, now as int) implies exists|j: int|
                        0 <= j < from.len() && from[j] == m by {
                    if m == i {
                        assert(from[from.len() - 1] == m);
                    } else {
                        let j = choose|j: int| 0 <= j < old_from.len() && old_from[j] == m;
                        assert(from[j] == m);
                    }
                }
            }
            i = i + 1;
        }
        proof {
            assert forall|a: int, b: int| 0 <= a < b < result@.len() implies key_lt(
                #[trigger] result@[a].0@,
                #[trigger] result@[b].0@,
            ) by {
                assert(from[a] < from[b]);
            }
            assert forall|j: int| 0 <= j < result@.len() implies {
                let k = #[trigger] result@[j].0@;
                &&& live_in(self@, k, now as int)
                &&& result@[j].1@ == self@[k].0
                &&& left_view(result@[j].2) == time_left(self@[k].1, now as int)
                &&& (result@[j].2 matches Some(t) ==> t <= u64::MAX + MAX_TTL - now)
            } by {
                lemma_pairs_to_map_at(s, from[j]);
                assert(self@.contains_key(result@[j].0@));
            }
            assert forall|k: Seq<char>| live_in(self@, k, now as int) implies exists|j: int|
                0 <= j < result@.len() && #[trigger] result@[j].0@ == k by {
                let m = choose|m: int| 0 <= m < s.len() && #[trigger] s[m].0 == k;
                lemma_pairs_to_map_at(s, m);
                assert(is_live(stored_view(s[m].1).1, now as int));
                let j = choose|j: int| 0 <= j < from.len() && from[j] == m;
                assert(result@[j].0@ == k);
            }
            assert forall|i: int| 0 <= i < result@.len() implies (#[trigger] result@[i].2 matches Some(
                t,
            ) ==> t <= u64::MAX + MAX_TTL - now) by {
                assert(result@[i].0@ == result@[i].0@);
            }
            let keys = result@.map_values(|r: (&str, &[u8], Option<u128>)| r.0@);
            assert forall|k: Seq<char>| live_in(self@, k, now as int) implies exists|j: int|
                0 <= j < keys.len() && #[trigger] keys[j] == k by {
                let j = choose|j: int| 0 <= j < result@.len() && #[trigger] result@[j].0@ == k;
                assert(keys[j] == k);
            }
            lemma_listing_len(self@, now as int, keys);
        }
        result
    }

    /// Forgets every secret.
    pub fn clear(&mut self)
        ensures
            final(self)@ == Map::<Seq<char>, (Seq<u8>, Option<int>)>::empty(),
    {
        self.entries = KeyedVec::new();
        proof {
            assert(self.entries.as_map() =~= Map::<Seq<char>, Stored>::empty());
            assert(self@ =~= Map::<Seq<char>, (Seq<u8>, Option<int>)>::empty());
        }
    }
}

/// A read gives back what a write stored: after `put` stores `value` under
/// `key` at `put_at` for `ttl`, a `get` of `key` at `get_at` finds exactly
/// `value` while the lifetime, capped at a day, has not run out, and always
/// when there is no lifetime.
pub proof fn law_get_after_put(
    m: Map<Seq<char>, (Seq<u8>, Option<int>)>,
    key: Seq<char>,
    value: Seq<u8>,
    ttl: Option<u128>,
    put_at: u64,
    get_at: u64,
)
    ensures
        ({
            let stored = m.insert(key, (value, expiry(ttl, put_at)));
            &&& live_in(stored, key, get_at as int) == match ttl {
                Some(t) => get_at < put_at + if t <= MAX_TTL { t as int } else { MAX_TTL as int },
                None => true,
            }
            &&& stored[key].0 == value
        }),
{
}

/// No secret outlives a day: whatever lifetime it was stored with, a secret
/// stored at `put_at` is gone a day later.
pub proof fn law_lifetime_capped_at_a_day(
    m: Map<Seq<char>, (Seq<u8>, Option<int>)>,
    key: Seq<char>,
    value: Seq<u8>,
    ttl: u128,
    put_at: u64,
    later: int,
)
    requires
        later >= put_at + MAX_TTL,
    ensures
        !live_in(m.insert(key, (value, expiry(Some(ttl), put_at))), key, later),
{
}

/// A secret stored without a lifetime stays until the daemon exits: it is
/// live at every instant.
pub proof fn law_until_exit_never_expires(
    m: Map<Seq<char>, (Seq<u8>, Option<int>)>,
    key: Seq<char>,
    value: Seq<u8>,
    put_at: u64,
    now: int,
)
    ensures
        live_in(m.insert(key, (value, expiry(None, put_at))), key, now),
{
}

/// Right after it is stored, a secret has its whole lifetime left, capped at
/// a day.
pub proof fn law_time_left_after_put(ttl: u128, put_at: u64)
    ensures
        time_left(expiry(Some(ttl), put_at), put_at as int) == Some(
            if ttl <= MAX_TTL { ttl as int } else { MAX_TTL as int },
        ),
{
}

/// Expiry is final: a secret that is not live at one instant is not live at
/// any later one.
pub proof fn law_expired_stays_expired(expires_at: Option<int>, earlier: int, later: int)
    requires
        earlier <= later,
        !is_live(expires_at, earlier),
    ensures
        !is_live(expires_at, later),
{
}

/// A `get` changes nothing that is live: at the instant of the `get`, the
/// same secrets are live, with the same bytes and expiry, before and after.
pub proof fn law_get_keeps_live_secrets(
    m: Map<Seq<char>, (Seq<u8>, Option<int>)>,
    key: Seq<char>,
    now: int,
    other: Seq<char>,
)
    ensures
        live_in(after_get(m, key, now), other, now) == live_in(m, other, now),
        live_in(m, other, now) ==> after_get(m, key, now)[other] == m[other],
{
}

/// Keys are separate entries: storing under one key leaves every other key
/// as it was.
pub proof fn law_keys_are_separate(
    m: Map<Seq<char>, (Seq<u8>, Option<int>)>,
    key: Seq<char>,
    stored: (Seq<u8>, Option<int>),
    other: Seq<char>,
)
    requires
        other != key,
    ensures
        m.insert(key, stored).contains_key(other) == m.contains_key(other),
        m.contains_key(other) ==> m.insert(key, stored)[other] == m[other],
{
}

/// After `clear`, nothing is live.
pub proof fn law_nothing_live_after_clear(now: int)
    ensures
        live_keys(Map::<Seq<char>, (Seq<u8>, Option<int>)>::empty(), now).len() == 0,
{
    assert(live_keys(Map::<Seq<char>, (Seq<u8>, Option<int>)>::empty(), now) =~= Set::empty());
}

impl Default for Cache {
    /// An empty cache.
    fn default() -> (result: Self)
        ensures
            result@ == Map::<Seq<char>, (Seq<u8>, Option<int>)>::empty(),
    {
        Cache::new()
    }
}

} // verus!
