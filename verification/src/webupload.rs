//! Pairing a phone for uploads: a one-time pairing token that expires after
//! five minutes, and session tokens that expire after thirty minutes of
//! inactivity.
use vstd::prelude::*;
use crate::registry::str_eq;
use crate::clock::{elapsed_nanos, instant_now};
use crate::device_id::is_v4_uuid_text;

verus! {

/// How long a pairing token stays valid (5 minutes, in nanoseconds).
pub const PAIR_TOKEN_TTL_NS: u64 = 300_000_000_000;
/// How long a session stays valid without use (30 minutes, in nanoseconds).
pub const SESSION_TTL_NS: u64 = 1_800_000_000_000;
/// From this many sessions on, expired ones are dropped before a new one
/// is added.
pub const MAX_SESSIONS: usize = 3;

/// Time elapsed from `then` to `now`, or zero if `now` is earlier
/// (`Instant::duration_since` saturates).
pub open spec fn age(now: u64, then: u64) -> u64 {
    if now >= then {
        (now - then) as u64
    } else {
        0
    }
}

/// Whether a pairing token matches and is still fresh.
pub open spec fn pair_token_accepts(pair: Option<(Seq<char>, u64)>, token: Seq<char>, now: u64) -> bool {
    match pair {
        Some((stored, created)) => stored == token && age(now, created) < PAIR_TOKEN_TTL_NS,
        None => false,
    }
}

/// The sessions still fresh at `now`.
pub open spec fn fresh_sessions(m: Map<Seq<char>, u64>, now: u64) -> Map<Seq<char>, u64> {
    m.restrict(m.dom().filter(|k: Seq<char>| age(now, m[k]) < SESSION_TTL_NS))
}

/// The sessions kept when one is opened at `now`: at `MAX_SESSIONS` or
/// more, the expired ones are dropped.
pub open spec fn pruned_sessions(m: Map<Seq<char>, u64>, now: u64) -> Map<Seq<char>, u64> {
    if m.len() >= MAX_SESSIONS {
        fresh_sessions(m, now)
    } else {
        m
    }
}

/// Whether `k` is a session used least recently among `m`.
pub open spec fn least_recent(m: Map<Seq<char>, u64>, k: Seq<char>) -> bool {
    m.contains_key(k) && forall|j: Seq<char>| #[trigger] m.contains_key(j) ==> m[k] <= m[j]
}

/// Whether `r` is what opening the session `token` at `now` makes of the
/// sessions `m`: once the cap is reached the expired sessions are dropped;
/// if that frees no room, one least recently used session is evicted; then
/// the new session is added. So no more than `MAX_SESSIONS` sessions are
/// open at once.
pub open spec fn session_opened(m: Map<Seq<char>, u64>, token: Seq<char>, now: u64, r: Map<Seq<char>, u64>) -> bool {
    let kept = pruned_sessions(m, now);
    if kept.len() >= MAX_SESSIONS {
        exists|v: Seq<char>| #[trigger] least_recent(kept, v) && r == kept.remove(v).insert(token, now)
    } else {
        r == kept.insert(token, now)
    }
}

/// Whether a session token is accepted at `now`: known and fresh.
pub open spec fn session_accepts(m: Map<Seq<char>, u64>, token: Seq<char>, now: u64) -> bool {
    m.contains_key(token) && age(now, m[token]) < SESSION_TTL_NS
}

/// The sessions after a token is checked at `now`: an accepted session is
/// renewed, an expired one is dropped, and an unknown token changes nothing.
pub open spec fn sessions_after_validate(m: Map<Seq<char>, u64>, token: Seq<char>, now: u64) -> Map<
    Seq<char>,
    u64,
> {
    if m.contains_key(token) {
        if age(now, m[token]) < SESSION_TTL_NS {
            m.insert(token, now)
        } else {
            m.remove(token)
        }
    } else {
        m
    }
}

pub open spec fn stamp_map(s: Seq<(String, u64)>) -> Map<Seq<char>, u64>
    decreases s.len(),
{
    if s.len() == 0 {
        Map::empty()
    } else {
        stamp_map(s.drop_last()).insert(s.last().0@, s.last().1)
    }
}

pub open spec fn stamps_unique(s: Seq<(String, u64)>) -> bool {
    forall|i: int, j: int| 0 <= i < j < s.len() ==> #[trigger] s[i].0@ != #[trigger] s[j].0@
}

proof fn lemma_unique_drop_last(s: Seq<(String, u64)>)
    requires
        stamps_unique(s),
        s.len() > 0,
    ensures
        stamps_unique(s.drop_last()),
{
    let t = s.drop_last();
    assert forall|i: int, j: int| 0 <= i < j < t.len() implies #[trigger] t[i].0@ != #[trigger] t[j].0@ by {
        assert(t[i] == s[i] && t[j] == s[j]);
    }
}

proof fn lemma_stamp_map(s: Seq<(String, u64)>)
    requires
        stamps_unique(s),
    ensures
        forall|i: int|
            0 <= i < s.len() ==> #[trigger] stamp_map(s).contains_key(s[i].0@) && stamp_map(s)[s[i].0@]
                == s[i].1,
        forall|k: Seq<char>|
            #[trigger] stamp_map(s).contains_key(k) ==> exists|i: int| 0 <= i < s.len() && s[i].0@ == k,
        stamp_map(s).dom().finite(),
        stamp_map(s).len() == s.len(),
    decreases s.len(),
{
    if s.len() > 0 {
        let t = s.drop_last();
        lemma_unique_drop_last(s);
        lemma_stamp_map(t);
        assert(stamp_map(s) == stamp_map(t).insert(s.last().0@, s.last().1));
        assert forall|k: Seq<char>| #[trigger] stamp_map(s).contains_key(k) implies exists|i: int|
            0 <= i < s.len() && s[i].0@ == k by {
            if k != s.last().0@ {
                assert(stamp_map(t).contains_key(k));
                let i = choose|i: int| 0 <= i < t.len() && t[i].0@ == k;
                assert(s[i] == t[i]);
            } else {
                assert(s[s.len() - 1].0@ == k);
            }
        }
        assert forall|i: int| 0 <= i < s.len() implies #[trigger] stamp_map(s).contains_key(s[i].0@)
            && stamp_map(s)[s[i].0@] == s[i].1 by {
            if i < s.len() - 1 {
                assert(s[i] == t[i]);
                assert(s[i].0@ != s[s.len() - 1].0@);
                assert(stamp_map(t).contains_key(t[i].0@));
            }
        }
        if stamp_map(t).contains_key(s.last().0@) {
            let i = choose|i: int| 0 <= i < t.len() && t[i].0@ == s.last().0@;
            assert(s[i] == t[i]);
            assert(s[i].0@ != s[s.len() - 1].0@);
        }
        assert(stamp_map(s).dom() == stamp_map(t).dom().insert(s.last().0@));
    }
}

proof fn lemma_stamp_update(s: Seq<(String, u64)>, i: int, x: (String, u64))
    requires
        stamps_unique(s),
        0 <= i < s.len(),
        x.0@ == s[i].0@,
    ensures
        stamps_unique(s.update(i, x)),
        stamp_map(s.update(i, x)) == stamp_map(s).insert(x.0@, x.1),
    decreases s.len(),
{
    let u = s.update(i, x);
    assert forall|a: int, b: int| 0 <= a < b < u.len() implies #[trigger] u[a].0@ != #[trigger] u[b].0@ by {
        assert(s[a].0@ != s[b].0@);
    }
    if i == s.len() - 1 {
        assert(u.drop_last() =~= s.drop_last());
        assert(stamp_map(s).insert(x.0@, x.1) =~= stamp_map(s.drop_last()).insert(x.0@, x.1));
    } else {
        let t = s.drop_last();
        lemma_unique_drop_last(s);
        lemma_stamp_update(t, i, x);
        assert(u.drop_last() =~= t.update(i, x));
        assert(s.last().0@ != x.0@) by {
            assert(s[i].0@ != s[s.len() - 1].0@);
        }
        assert(stamp_map(u) =~= stamp_map(s).insert(x.0@, x.1));
    }
}

proof fn lemma_stamp_remove(s: Seq<(String, u64)>, i: int)
    requires
        stamps_unique(s),
        0 <= i < s.len(),
    ensures
        stamps_unique(s.remove(i)),
        stamp_map(s.remove(i)) == stamp_map(s).remove(s[i].0@),
    decreases s.len(),
{
    let r = s.remove(i);
    assert forall|a: int, b: int| 0 <= a < b < r.len() implies #[trigger] r[a].0@ != #[trigger] r[b].0@ by {
        let a0 = if a < i { a } else { a + 1 };
        let b0 = if b < i { b } else { b + 1 };
        assert(r[a] == s[a0] && r[b] == s[b0]);
    }
    let t = s.drop_last();
    lemma_unique_drop_last(s);
    lemma_stamp_map(t);
    if i == s.len() - 1 {
        assert(r =~= t);
        if stamp_map(t).contains_key(s[i].0@) {
            let j = choose|j: int| 0 <= j < t.len() && t[j].0@ == s[i].0@;
            assert(t[j] == s[j]);
        }
        assert(stamp_map(r) =~= stamp_map(s).remove(s[i].0@));
    } else {
        lemma_stamp_remove(t, i);
        assert(r.drop_last() =~= t.remove(i));
        assert(r.last() == s.last());
        assert(s.last().0@ != s[i].0@);
        assert(stamp_map(r) =~= stamp_map(s).remove(s[i].0@));
    }
}

proof fn lemma_stamp_prefix_fresh(s: Seq<(String, u64)>, i: int)
    requires
        stamps_unique(s),
        0 <= i < s.len(),
    ensures
        !stamp_map(s.take(i)).contains_key(s[i].0@),
{
    let t = s.take(i);
    assert(stamps_unique(t)) by {
        assert forall|a: int, b: int| 0 <= a < b < t.len() implies #[trigger] t[a].0@ != #[trigger] t[b].0@ by {
            assert(t[a] == s[a] && t[b] == s[b]);
        }
    }
    lemma_stamp_map(t);
    if stamp_map(t).contains_key(s[i].0@) {
        let j = choose|j: int| 0 <= j < t.len() && t[j].0@ == s[i].0@;
        assert(t[j] == s[j]);
    }
}

/// The position of a session used least recently.
fn least_recent_index(v: &Vec<(String, u64)>) -> (res: usize)
    requires
        v@.len() > 0,
    ensures
        res < v@.len(),
        forall|j: int| 0 <= j < v@.len() ==> v@[res as int].1 <= #[trigger] v@[j].1,
{
    let mut best: usize = 0;
    let mut i: usize = 1;
    while i < v.len()
        invariant
            v@.len() > 0,
            best < v@.len(),
            1 <= i <= v@.len(),
            forall|j: int| 0 <= j < i ==> v@[best as int].1 <= #[trigger] v@[j].1,
        decreases v@.len() - i,
    {
        if v[i].1 < v[best].1 {
            best = i;
        }
        i = i + 1;
    }
    best
}

/// A fresh random token: `uuid::Uuid::new_v4` written out by its
/// `Display` (see `is_v4_uuid_text`). Which of the random UUIDs it is, is
/// left unsaid.
#[verifier::external_body]
pub fn new_token() -> (res: String)
    ensures
        is_v4_uuid_text(res@),
{
    uuid::Uuid::new_v4().to_string()
}

/// State shared by the upload server: where files go, the current pairing
/// token, and the open sessions.
pub struct WebUploadState {
    save_dir: String,
    origin: std::time::Instant,
    pair_token: Option<(String, u64)>,
    sessions: Vec<(String, u64)>,
}

impl WebUploadState {
    /// Directory the uploaded files are saved to.
    pub closed spec fn dir(self) -> Seq<char> {
        self.save_dir@
    }

    /// Directory the uploaded files are saved to.
    pub fn save_dir(&self) -> (res: &str)
        ensures
            res@ == self.dir(),
    {
        self.save_dir.as_str()
    }

    /// The current pairing token and when it was made (nanoseconds since
    /// the state was created).
    pub closed spec fn pair(self) -> Option<(Seq<char>, u64)> {
        match self.pair_token {
            Some((t, c)) => Some((t@, c)),
            None => None,
        }
    }

    /// Open sessions: token to time of last use.
    pub closed spec fn sessions(self) -> Map<Seq<char>, u64> {
        stamp_map(self.sessions@)
    }

    /// Each session token is held once, and at most `MAX_SESSIONS` are
    /// open.
    pub closed spec fn wf(self) -> bool {
        stamps_unique(self.sessions@) && self.sessions@.len() <= MAX_SESSIONS
    }

    /// No pairing token and no session yet.
    pub fn new(save_dir: String) -> (res: WebUploadState)
        ensures
            res.wf(),
            res.dir() == save_dir@,
            res.pair() is None,
            res.sessions() == Map::<Seq<char>, u64>::empty(),
    {
        WebUploadState { save_dir, origin: instant_now(), pair_token: None, sessions: Vec::new() }
    }

    /// Makes `token` the pairing token as of `now`, replacing any other.
    pub fn create_pair_token_at(&mut self, token: String, now: u64) -> (res: String)
        requires
            old(self).wf(),
        ensures
            final(self).wf(),
            res@ == token@,
            final(self).pair() == Some((token@, now)),
            final(self).sessions() == old(self).sessions(),
            final(self).dir() == old(self).dir(),
    {
        let t = token.clone();
        self.pair_token = Some((token, now));
        t
    }

    /// Makes a fresh random pairing token, replacing any other.
    pub fn create_pair_token(&mut self) -> (res: String)
        requires
            old(self).wf(),
        ensures
            final(self).wf(),
            is_v4_uuid_text(res@),
            final(self).pair() matches Some((t, _)) && t == res@,
            final(self).sessions() == old(self).sessions(),
            final(self).dir() == old(self).dir(),
    {
        let now = elapsed_nanos(&self.origin) as u64;
        self.create_pair_token_at(new_token(), now)
    }

    /// Checks a pairing token at `now`: the pairing token is used up either
    /// way, and it is accepted only if it matched and was still fresh.
    pub fn validate_and_consume_pair_token_at(&mut self, token: &str, now: u64) -> (res: bool)
        requires
            old(self).wf(),
        ensures
            final(self).wf(),
            res == pair_token_accepts(old(self).pair(), token@, now),
            final(self).pair() is None,
            final(self).sessions() == old(self).sessions(),
            final(self).dir() == old(self).dir(),
    {
        match self.pair_token.take() {
            Some((stored, created)) => {
                let elapsed = if now >= created {
                    now - created
                } else {
                    0
                };
                str_eq(stored.as_str(), token) && elapsed < PAIR_TOKEN_TTL_NS
            },
            None => false,
        }
    }

    /// Checks a pairing token now (see `validate_and_consume_pair_token_at`).
    pub fn validate_and_consume_pair_token(&mut self, token: &str) -> (res: bool)
        requires
            old(self).wf(),
        ensures
            final(self).wf(),
            final(self).pair() is None,
            final(self).sessions() == old(self).sessions(),
            old(self).pair() is None ==> !res,
            res ==> (old(self).pair() matches Some((t, _)) && t == token@),
            exists|now: u64| res == pair_token_accepts(old(self).pair(), token@, now),
            final(self).dir() == old(self).dir(),
    {
        let now = elapsed_nanos(&self.origin) as u64;
        self.validate_and_consume_pair_token_at(token, now)
    }

    fn find_session(&self, token: &str) -> (res: Option<usize>)
        requires
            self.wf(),
        ensures
            match res {
                Some(i) => i < self.sessions@.len() && self.sessions@[i as int].0@ == token@,
                None => !self.sessions().contains_key(token@),
            },
    {
        let mut i: usize = 0;
        while i < self.sessions.len()
            invariant
                i <= self.sessions@.len(),
                forall|j: int| 0 <= j < i ==> self.sessions@[j].0@ != token@,
            decreases self.sessions@.len() - i,
        {
            if str_eq(self.sessions[i].0.as_str(), token) {
                return Some(i);
            }
            i = i + 1;
        }
        proof {
            lemma_stamp_map(self.sessions@);
            if self.sessions().contains_key(token@) {
                let j = choose|j: int| 0 <= j < self.sessions@.len() && self.sessions@[j].0@ == token@;
            }
        }
        None
    }

    /// Opens the session `token` at `now` (see `session_opened`).
    pub fn create_session_at(&mut self, token: String, now: u64) -> (res: String)
        requires
            old(self).wf(),
        ensures
            final(self).wf(),
            res@ == token@,
            session_opened(old(self).sessions(), token@, now, final(self).sessions()),
            final(self).sessions().len() <= MAX_SESSIONS,
            final(self).pair() == old(self).pair(),
            final(self).dir() == old(self).dir(),
    {
        proof {
            lemma_stamp_map(self.sessions@);
        }
        if self.sessions.len() >= MAX_SESSIONS {
            let ghost s = self.sessions@;
            let mut kept: Vec<(String, u64)> = Vec::new();
            let mut i: usize = 0;
            while i < self.sessions.len()
                invariant
                    i <= s.len(),
                    self.sessions@ == s,
                    stamps_unique(s),
                    stamps_unique(kept@),
                    kept@.len() <= i,
                    forall|a: int|
                        0 <= a < kept@.len() ==> exists|j: int| 0 <= j < i && #[trigger] kept@[a] == s[j],
                    stamp_map(kept@) == fresh_sessions(stamp_map(s.take(i as int)), now),
                decreases s.len() - i,
            {
                let e = &self.sessions[i];
                proof {
                    assert(s.take(i + 1).drop_last() =~= s.take(i as int));
                    lemma_stamp_prefix_fresh(s, i as int);
                }
                let elapsed = if now >= e.1 {
                    now - e.1
                } else {
                    0
                };
                if elapsed < SESSION_TTL_NS {
                    let pair = (e.0.clone(), e.1);
                    proof {
                        assert forall|a: int, b: int| 0 <= a < b < kept@.len() + 1 implies #[trigger] kept@.push(
                            pair,
                        )[a].0@ != #[trigger] kept@.push(pair)[b].0@ by {
                            if b < kept@.len() {
                                assert(kept@.push(pair)[a] == kept@[a]);
                                assert(kept@.push(pair)[b] == kept@[b]);
                            } else {
                                assert(kept@.push(pair)[a] == kept@[a]);
                                let j = choose|j: int| 0 <= j < i && kept@[a] == s[j];
                                assert(s[j].0@ != s[i as int].0@);
                            }
                        }
                        assert(kept@.push(pair).drop_last() =~= kept@);
                    }
                    let ghost before = kept@;
                    kept.push(pair);
                    proof {
                        assert forall|a: int| 0 <= a < kept@.len() implies exists|j: int|
                            0 <= j < i + 1 && #[trigger] kept@[a] == s[j] by {
                            if a < before.len() {
                                assert(kept@[a] == before[a]);
                                let j = choose|j: int| 0 <= j < i && before[a] == s[j];
                                assert(0 <= j < i + 1 && kept@[a] == s[j]);
                            } else {
                                assert(kept@[a] == s[i as int]);
                            }
                        }
                        let mn = stamp_map(s.take(i + 1));
                        assert(stamp_map(kept@) =~= fresh_sessions(mn, now)) by {
                            assert(kept@.drop_last() =~= before);
                        }
                    }
                } else {
                    proof {
                        assert forall|a: int| 0 <= a < kept@.len() implies exists|j: int|
                            0 <= j < i + 1 && #[trigger] kept@[a] == s[j] by {
                            let j = choose|j: int| 0 <= j < i && kept@[a] == s[j];
                            assert(0 <= j < i + 1 && kept@[a] == s[j]);
                        }
                        let mn = stamp_map(s.take(i + 1));
                        assert(stamp_map(kept@) =~= fresh_sessions(mn, now));
                    }
                }
                i = i + 1;
            }
            proof {
                assert(s.take(s.len() as int) =~= s);
            }
            self.sessions = kept;
        }
        let ghost kept_map = stamp_map(self.sessions@);
        proof {
            lemma_stamp_map(self.sessions@);
            assert(kept_map == pruned_sessions(stamp_map(old(self).sessions@), now));
        }
        if self.sessions.len() >= MAX_SESSIONS {
            let ghost s1 = self.sessions@;
            let v = least_recent_index(&self.sessions);
            proof {
                lemma_stamp_remove(s1, v as int);
                assert(least_recent(kept_map, s1[v as int].0@)) by {
                    assert forall|j: Seq<char>| #[trigger] kept_map.contains_key(j) implies kept_map[s1[v as int].0@] <= kept_map[j] by {
                        let b = choose|b: int| 0 <= b < s1.len() && s1[b].0@ == j;
                        assert(kept_map.contains_key(s1[b].0@));
                        assert(kept_map.contains_key(s1[v as int].0@));
                        assert(s1[v as int].1 <= s1[b].1);
                    }
                }
            }
            self.sessions.remove(v);
        }
        let ghost evicted = stamp_map(self.sessions@);
        let result = token.clone();
        let ghost s2 = self.sessions@;
        match self.find_session(token.as_str()) {
            Some(i) => {
                proof {
                    lemma_stamp_update(s2, i as int, (token, now));
                }
                self.sessions.set(i, (token, now));
            },
            None => {
                proof {
                    assert forall|a: int, b: int| 0 <= a < b < s2.len() + 1 implies #[trigger] s2.push(
                        (token, now),
                    )[a].0@ != #[trigger] s2.push((token, now))[b].0@ by {
                        if b < s2.len() {
                            assert(s2.push((token, now))[a] == s2[a]);
                            assert(s2.push((token, now))[b] == s2[b]);
                        } else {
                            assert(s2.push((token, now))[a] == s2[a]);
                            lemma_stamp_map(s2);
                        }
                    }
                    assert(s2.push((token, now)).drop_last() =~= s2);
                }
                self.sessions.push((token, now));
            },
        }
        proof {
            lemma_stamp_map(self.sessions@);
        }
        result
    }

    /// Opens a session with a fresh random token and returns the token (see
    /// `create_session_at`).
    pub fn create_session(&mut self) -> (res: String)
        requires
            old(self).wf(),
        ensures
            final(self).wf(),
            is_v4_uuid_text(res@),
            exists|now: u64| session_opened(old(self).sessions(), res@, now, final(self).sessions()),
            final(self).sessions().contains_key(res@),
            final(self).sessions().len() <= MAX_SESSIONS,
            final(self).pair() == old(self).pair(),
            final(self).dir() == old(self).dir(),
    {
        let now = elapsed_nanos(&self.origin) as u64;
        self.create_session_at(new_token(), now)
    }

    /// Checks the session `token` at `now` (see `session_accepts` and
    /// `sessions_after_validate`).
    pub fn validate_session_at(&mut self, token: &str, now: u64) -> (res: bool)
        requires
            old(self).wf(),
        ensures
            final(self).wf(),
            res == session_accepts(old(self).sessions(), token@, now),
            final(self).sessions() == sessions_after_validate(old(self).sessions(), token@, now),
            final(self).pair() == old(self).pair(),
            final(self).dir() == old(self).dir(),
    {
        proof {
            lemma_stamp_map(self.sessions@);
        }
        let ghost s = self.sessions@;
        match self.find_session(token) {
            None => false,
            Some(i) => {
                let last = self.sessions[i].1;
                let elapsed = if now >= last {
                    now - last
                } else {
                    0
                };
                if elapsed < SESSION_TTL_NS {
                    let k = self.sessions[i].0.clone();
                    proof {
                        lemma_stamp_update(s, i as int, (k, now));
                    }
                    self.sessions.set(i, (k, now));
                    true
                } else {
                    proof {
                        lemma_stamp_remove(s, i as int);
                    }
                    self.sessions.remove(i);
                    false
                }
            },
        }
    }

    /// Checks the session `token` now (see `validate_session_at`).
    pub fn validate_session(&mut self, token: &str) -> (res: bool)
        requires
            old(self).wf(),
        ensures
            final(self).wf(),
            res ==> old(self).sessions().contains_key(token@) && final(self).sessions().contains_key(token@),
            !old(self).sessions().contains_key(token@) ==> !res && final(self).sessions() == old(self).sessions(),
            exists|now: u64|
                #![trigger session_accepts(old(self).sessions(), token@, now)]
                res == session_accepts(old(self).sessions(), token@, now) && final(self).sessions()
                    == sessions_after_validate(old(self).sessions(), token@, now),
            final(self).pair() == old(self).pair(),
            final(self).dir() == old(self).dir(),
    {
        let now = elapsed_nanos(&self.origin) as u64;
        self.validate_session_at(token, now)
    }
}

// ---------- laws ----------

/// A pairing token is accepted once, within its lifetime, and then never
/// again.
pub proof fn lemma_pair_token_single_use(token: Seq<char>, created: u64, now: u64)
    requires
        age(now, created) < PAIR_TOKEN_TTL_NS,
    ensures
        pair_token_accepts(Some((token, created)), token, now),
        !pair_token_accepts(None, token, now),
{
}

/// A pairing token past its lifetime, or a different token, is refused.
pub proof fn lemma_pair_token_refused(stored: Seq<char>, created: u64, token: Seq<char>, now: u64)
    requires
        stored != token || age(now, created) >= PAIR_TOKEN_TTL_NS,
    ensures
        !pair_token_accepts(Some((stored, created)), token, now),
{
}

/// A session just opened is accepted while it is fresh, and checking it
/// renews it.
pub proof fn lemma_session_open_then_use(
    m: Map<Seq<char>, u64>,
    token: Seq<char>,
    opened: u64,
    now: u64,
    r: Map<Seq<char>, u64>,
)
    requires
        age(now, opened) < SESSION_TTL_NS,
        session_opened(m, token, opened, r),
    ensures
        session_accepts(r, token, now),
        sessions_after_validate(r, token, now)[token] == now,
        session_accepts(sessions_after_validate(r, token, now), token, now),
{
    let kept = pruned_sessions(m, opened);
    if kept.len() >= MAX_SESSIONS {
        let v = choose|v: Seq<char>| #[trigger] least_recent(kept, v) && r == kept.remove(v).insert(token, opened);
    }
    assert(r.contains_key(token) && r[token] == opened);
}

/// An expired session is refused and forgotten.
pub proof fn lemma_expired_session_dropped(m: Map<Seq<char>, u64>, token: Seq<char>, now: u64)
    requires
        m.contains_key(token),
        age(now, m[token]) >= SESSION_TTL_NS,
    ensures
        !session_accepts(m, token, now),
        !sessions_after_validate(m, token, now).contains_key(token),
{
}

/// Opening a session drops a session that is still fresh only when the
/// cap is full of fresh sessions, and then only a least recently used one;
/// every session kept keeps its last-use time.
pub proof fn lemma_open_keeps_fresh_sessions(
    m: Map<Seq<char>, u64>,
    token: Seq<char>,
    now: u64,
    other: Seq<char>,
    r: Map<Seq<char>, u64>,
)
    requires
        m.contains_key(other),
        other != token,
        age(now, m[other]) < SESSION_TTL_NS,
        session_opened(m, token, now, r),
    ensures
        r.contains_key(other) ==> r[other] == m[other],
        !r.contains_key(other) ==> pruned_sessions(m, now).len() >= MAX_SESSIONS && least_recent(
            pruned_sessions(m, now),
            other,
        ),
{
    let kept = pruned_sessions(m, now);
    assert(kept.contains_key(other) && kept[other] == m[other]);
    if kept.len() >= MAX_SESSIONS {
        let v = choose|v: Seq<char>| #[trigger] least_recent(kept, v) && r == kept.remove(v).insert(token, now);
        if !r.contains_key(other) {
            assert(v == other);
        }
    }
}

} // verus!
