//! What the daemon answers each request it is sent, and when it stops.
//!
//! The daemon's own loop (the socket, the threads, the lock on its state and
//! the clock) hands each decoded request to [`State::handle`] together with
//! the instant it arrived, and sends back the response it gets.

use vstd::prelude::*;

use crate::cache::after_get;
use crate::cache::live_in;
use crate::cache::live_keys;
use crate::cache::expiry;
use crate::cache::time_left;
use crate::cache::copy_bytes;
use crate::cache::Cache;
use crate::cache::MAX_TTL;
use crate::mask::lossy_utf8;
use crate::mask::mask;
use crate::mask::masked;
use crate::order::key_lt;

verus! {

/// Nanoseconds in a second.
pub const NANOS_PER_SEC: u128 = 1_000_000_000;

/// A request to the daemon.
pub enum Request {
    /// The secret stored under `key`, if it is live.
    Get { key: String },
    /// Store `value` under `key`, for `ttl_secs` seconds or until the daemon
    /// exits.
    Put { key: String, value: Vec<u8>, ttl_secs: Option<u64> },
    /// Forget every secret.
    Clear,
    /// How the daemon is doing.
    Status,
    /// Every live secret, masked.
    Inspect,
    /// Stop the daemon.
    Stop,
}

/// How the daemon is doing.
pub struct Status {
    pub pid: u32,
    pub uptime_secs: u64,
    pub idle_timeout_secs: Option<u64>,
    /// The number of live secrets.
    pub cached: usize,
}

/// One live secret as `inspect` shows it.
pub struct Entry {
    pub key: String,
    /// The masked secret.
    pub preview: String,
    /// Whole seconds left, or none for a secret kept until the daemon exits.
    pub expires_in_secs: Option<u64>,
}

/// The daemon's answer to a request.
pub enum Response {
    Hit { value: Vec<u8> },
    Miss,
    Done,
    Status(Status),
    Entries { entries: Vec<Entry> },
}

/// A lifetime in whole seconds, in nanoseconds.
pub open spec fn ttl_nanos(ttl_secs: Option<u64>) -> Option<u128> {
    match ttl_secs {
        Some(s) => Some((s * NANOS_PER_SEC) as u128),
        None => None,
    }
}

/// Whole seconds of a time left.
pub open spec fn whole_secs(left: Option<int>) -> Option<int> {
    match left {
        Some(t) => Some(t / NANOS_PER_SEC as int),
        None => None,
    }
}

/// An optional count of seconds as contracts see it.
pub open spec fn secs_view(secs: Option<u64>) -> Option<int> {
    match secs {
        Some(s) => Some(s as int),
        None => None,
    }
}

/// `entries` is what `inspect` shows of the secrets `m` at `now`: every live
/// secret once, in key order, with its masked value and the whole seconds it
/// has left.
pub open spec fn shows(entries: Seq<Entry>, m: Map<Seq<char>, (Seq<u8>, Option<int>)>, now: int) -> bool {
    &&& forall|i: int, j: int|
        0 <= i < j < entries.len() ==> key_lt(#[trigger] entries[i].key@, #[trigger] entries[j].key@)
    &&& forall|i: int|
        0 <= i < entries.len() ==> {
            let k = #[trigger] entries[i].key@;
            &&& live_in(m, k, now)
            &&& entries[i].preview@ == masked(lossy_utf8(m[k].0))
            &&& secs_view(entries[i].expires_in_secs) == whole_secs(time_left(m[k].1, now))
        }
    &&& forall|k: Seq<char>|
        live_in(m, k, now) ==> exists|i: int| 0 <= i < entries.len() && #[trigger] entries[i].key@ == k
}

/// Through the daemon a read gives back what a write stored: after a `put`
/// of `value` under `key` at `put_at` for `ttl_secs` seconds, a `get` of `key`
/// at `get_at` is a hit with exactly `value` while the lifetime, capped at a
/// day, has not run out, and always when there is no lifetime.
pub proof fn law_get_after_put_request(
    m: Map<Seq<char>, (Seq<u8>, Option<int>)>,
    key: Seq<char>,
    value: Seq<u8>,
    ttl_secs: Option<u64>,
    put_at: u64,
    get_at: u64,
)
    ensures
        ({
            let stored = m.insert(key, (value, expiry(ttl_nanos(ttl_secs), put_at)));
            &&& live_in(stored, key, get_at as int) == match ttl_secs {
                Some(s) => get_at < put_at + if s * NANOS_PER_SEC <= MAX_TTL {
                    s * NANOS_PER_SEC
                } else {
                    MAX_TTL as int
                },
                None => true,
            }
            &&& stored[key].0 == value
            &&& live_in(stored, key, get_at as int) ==> after_get(stored, key, get_at as int)
                == stored
        }),
{
    if let Some(s) = ttl_secs {
        assert(s * NANOS_PER_SEC <= u64::MAX * NANOS_PER_SEC) by (nonlinear_arith);
    }
}

/// However many seconds a `put` asks for, a day or more gives a secret that
/// expires exactly a day after it was stored.
pub proof fn law_long_put_capped_at_a_day(ttl_secs: u64, put_at: u64)
    requires
        ttl_secs >= 86_400,
    ensures
        expiry(ttl_nanos(Some(ttl_secs)), put_at) == Some(put_at + MAX_TTL),
{
    assert(ttl_secs * NANOS_PER_SEC <= u64::MAX * NANOS_PER_SEC) by (nonlinear_arith);
    assert(ttl_secs * NANOS_PER_SEC >= 86_400 * NANOS_PER_SEC) by (nonlinear_arith)
        requires
            ttl_secs >= 86_400,
    ;
}

/// `inspect` lists exactly what `get` finds: at the same instant, a key is
/// listed just when a `get` of it is a hit.
pub proof fn law_inspect_lists_what_get_finds(
    entries: Seq<Entry>,
    m: Map<Seq<char>, (Seq<u8>, Option<int>)>,
    now: int,
    key: Seq<char>,
)
    requires
        shows(entries, m, now),
    ensures
        (exists|i: int| 0 <= i < entries.len() && #[trigger] entries[i].key@ == key) == live_in(
            m,
            key,
            now,
        ),
{
}

/// `inspect` shows a time left exactly for the secrets stored with a
/// lifetime, and shows it in whole seconds rounded down: no time left only
/// for a secret kept until the daemon exits, and otherwise `s` seconds where
/// the secret has at least `s` and less than `s + 1` seconds left.
pub proof fn law_inspect_shows_whole_seconds_left(
    entries: Seq<Entry>,
    m: Map<Seq<char>, (Seq<u8>, Option<int>)>,
    now: int,
    i: int,
)
    requires
        shows(entries, m, now),
        0 <= i < entries.len(),
    ensures
        ({
            let k = entries[i].key@;
            &&& entries[i].expires_in_secs is None <==> m[k].1 is None
            &&& entries[i].expires_in_secs matches Some(s) ==> (m[k].1 matches Some(t) && s
                * NANOS_PER_SEC <= t - now < (s + 1) * NANOS_PER_SEC)
        }),
{
    let k = entries[i].key@;
    assert(live_in(m, k, now));
    if let Some(t) = m[k].1 {
        let left = t - now;
        assert(left > 0);
        let s = left / NANOS_PER_SEC as int;
        assert(s * NANOS_PER_SEC <= left < (s + 1) * NANOS_PER_SEC) by (nonlinear_arith)
            requires
                s == left / NANOS_PER_SEC as int,
                left > 0,
        ;
    }
}

/// `status` counts what `inspect` lists: at the same instant, the number of
/// live secrets is the number of entries shown.
pub proof fn law_status_counts_what_inspect_lists(
    entries: Seq<Entry>,
    m: Map<Seq<char>, (Seq<u8>, Option<int>)>,
    now: int,
)
    requires
        shows(entries, m, now),
    ensures
        entries.len() == live_keys(m, now).len(),
{
    let keys = entries.map_values(|e: Entry| e.key@);
    assert forall|k: Seq<char>| live_in(m, k, now) implies exists|i: int|
        0 <= i < keys.len() && #[trigger] keys[i] == k by {
        let i = choose|i: int| 0 <= i < entries.len() && #[trigger] entries[i].key@ == k;
        assert(keys[i] == k);
    }
    crate::cache::lemma_listing_len(m, now, keys);
}

/// The daemon's state: its secrets and when it was last asked anything.
pub struct State {
    pub cache: Cache,
    /// The instant of the last request, in nanoseconds.
    pub last_activity: u64,
}

impl State {
    /// A daemon that has just started at `now` and holds nothing.
    pub fn new(now: u64) -> (result: Self)
        ensures
            result.cache@ == Map::<Seq<char>, (Seq<u8>, Option<int>)>::empty(),
            result.last_activity == now,
    {
        State { cache: Cache::new(), last_activity: now }
    }

    /// Answers `request`, which arrived at `now`, and says whether the daemon
    /// stops once the answer is sent. `pid`, `uptime_secs` and
    /// `idle_timeout_secs` are reported by `status`.
    pub fn handle(
        &mut self,
        request: Request,
        now: u64,
        pid: u32,
        uptime_secs: u64,
        idle_timeout_secs: Option<u64>,
    ) -> (result: (Response, bool))
        ensures
            final(self).last_activity == now,
            ({
                let m = old(self).cache@;
                let (response, stop) = result;
                match request {
                    Request::Get { key } => {
                        &&& !stop
                        &&& match response {
                            Response::Hit { value } => live_in(m, key@, now as int) && value@
                                == m[key@].0,
                            Response::Miss => !live_in(m, key@, now as int),
                            _ => false,
                        }
                        &&& final(self).cache@ == after_get(m, key@, now as int)
                    },
                    Request::Put { key, value, ttl_secs } => {
                        &&& !stop
                        &&& response is Done
                        &&& final(self).cache@ == m.insert(
                            key@,
                            (value@, expiry(ttl_nanos(ttl_secs), now)),
                        )
                    },
                    Request::Clear => {
                        &&& !stop
                        &&& response is Done
                        &&& final(self).cache@ == Map::<Seq<char>, (Seq<u8>, Option<int>)>::empty()
                    },
                    Request::Status => {
                        &&& !stop
                        &&& response matches Response::Status(st)
                        &&& st.pid == pid
                        &&& st.uptime_secs == uptime_secs
                        &&& st.idle_timeout_secs == idle_timeout_secs
                        &&& st.cached == live_keys(m, now as int).len()
                        &&& final(self).cache@ == m
                    },
                    Request::Inspect => {
                        &&& !stop
                        &&& response matches Response::Entries { entries }
                        &&& shows(entries@, m, now as int)
                        &&& final(self).cache@ == m
                    },
                    Request::Stop => {
                        &&& stop
                        &&& response is Done
                        &&& final(self).cache@ == m
                    },
                }
            }),
    {
        self.last_activity = now;
        match request {
            Request::Get { key } => match self.cache.get(key.as_str(), now) {
                Some(value) => (Response::Hit { value: copy_bytes(value) }, false),
                None => (Response::Miss, false),
            },
            Request::Put { key, value, ttl_secs } => {
                let ttl = match ttl_secs {
                    Some(s) => Some(s as u128 * NANOS_PER_SEC),
                    None => None,
                };
                self.cache.put(key, value, ttl, now);
                (Response::Done, false)
            },
            Request::Clear => {
                self.cache.clear();
                (Response::Done, false)
            },
            Request::Status => {
                let cached = self.cache.entries(now).len();
                (
                    Response::Status(Status { pid, uptime_secs, idle_timeout_secs, cached }),
                    false,
                )
            },
            Request::Inspect => (Response::Entries { entries: self.inspect(now) }, false),
            Request::Stop => (Response::Done, true),
        }
    }

    /// What `inspect` shows at `now`.
    fn inspect(&self, now: u64) -> (result: Vec<Entry>)
        ensures
            shows(result@, self.cache@, now as int),
    {
        let listed = self.cache.entries(now);
        let mut result: Vec<Entry> = Vec::new();
        let mut i: usize = 0;
        while i < listed.len()
            invariant
                i <= listed@.len(),
                result@.len() == i,
                forall|j: int|
                    0 <= j < i ==> {
                        &&& (#[trigger] result@[j]).key@ == listed@[j].0@
                        &&& result@[j].preview@ == masked(lossy_utf8(listed@[j].1@))
                        &&& secs_view(result@[j].expires_in_secs) == whole_secs(
                            crate::cache::left_view(listed@[j].2),
                        )
                    },
                forall|j: int|
                    0 <= j < listed@.len() ==> (#[trigger] listed@[j].2 matches Some(t) ==> t
                        <= u64::MAX + MAX_TTL - now),
            decreases listed@.len() - i,
        {
            let (key, value, left) = (listed[i].0, listed[i].1, &listed[i].2);
            let expires_in_secs = match left {
                Some(t) => Some((*t / NANOS_PER_SEC) as u64),
                None => None,
            };
            result.push(
                Entry { key: key.to_string(), preview: mask(value), expires_in_secs },
            );
            i = i + 1;
        }
        proof {
            assert forall|a: int, b: int| 0 <= a < b < result@.len() implies key_lt(
                #[trigger] result@[a].key@,
                #[trigger] result@[b].key@,
            ) by {
                assert(result@[a].key@ == listed@[a].0@);
                assert(result@[b].key@ == listed@[b].0@);
            }
            assert forall|j: int| 0 <= j < result@.len() implies {
                let k = #[trigger] result@[j].key@;
                &&& live_in(self.cache@, k, now as int)
                &&& result@[j].preview@ == masked(lossy_utf8(self.cache@[k].0))
                &&& secs_view(result@[j].expires_in_secs) == whole_secs(
                    time_left(self.cache@[k].1, now as int),
                )
            } by {
                assert(listed@[j].0@ == listed@[j].0@);
            }
            assert forall|k: Seq<char>| live_in(self.cache@, k, now as int) implies exists|j: int|
                0 <= j < result@.len() && #[trigger] result@[j].key@ == k by {
                let j = choose|j: int| 0 <= j < listed@.len() && #[trigger] listed@[j].0@ == k;
                assert(result@[j].key@ == k);
            }
        }
        result
    }

    /// Whether the daemon, idle since its last request, has been idle for
    /// `idle` nanoseconds or more at `now`, and so should shut down. A clock
    /// reading before the last request counts as no time at all.
    pub fn idle_expired(&self, now: u64, idle: u64) -> (result: bool)
        ensures
            result == (if now >= self.last_activity {
                now - self.last_activity >= idle
            } else {
                idle == 0
            }),
    {
        if now >= self.last_activity {
            now - self.last_activity >= idle
        } else {
            idle == 0
        }
    }
}

/// How long the idle watcher sleeps between checks, in nanoseconds: a second,
/// or the idle timeout where that is shorter.
pub fn idle_poll_interval(idle: u64) -> (result: u64)
    ensures
        result == if idle < 1_000_000_000 { idle } else { 1_000_000_000 },
{
    if idle < 1_000_000_000 {
        idle
    } else {
        1_000_000_000
    }
}

} // verus!
