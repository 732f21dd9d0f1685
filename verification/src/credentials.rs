//! The credential cache: one bearer token with a monotonic expiry,
//! refreshed on demand, persisted after every refresh, and seeded from
//! the persisted record at startup when that record is still honored.
//!
//! Time is injected: callers supply the current monotonic second (for
//! expiry checks, immune to wall-clock jumps) and the current wall-clock
//! epoch second (for the durable record). The remote authentication
//! call and the disk I/O live outside; this module owns every decision
//! around them.

use vstd::prelude::*;

use crate::record::StoredToken;

verus! {

/// The refresh-relevant part of the cache: what the token is and the
/// monotonic second at which it stops being valid.
pub struct CredentialModel {
    pub access_token: Seq<u8>,
    pub expiry_mono: u64,
}

/// A credential is valid strictly before its expiry instant.
pub open spec fn spec_valid(c: CredentialModel, now_mono: u64) -> bool {
    now_mono < c.expiry_mono
}

/// The state after applying a successful remote authentication.
pub open spec fn spec_refreshed(token: Seq<u8>, expires_in: u64, now_mono: u64) -> CredentialModel {
    CredentialModel { access_token: token, expiry_mono: (now_mono + expires_in) as u64 }
}

/// One serialized `get_valid_token` step: a valid credential is handed
/// out as is; an expired one is replaced by one remote authentication.
/// The second component counts the remote calls the step made.
pub open spec fn spec_get_valid_step(
    c: CredentialModel,
    now_mono: u64,
    token: Seq<u8>,
    expires_in: u64,
) -> (CredentialModel, nat) {
    if spec_valid(c, now_mono) {
        (c, 0)
    } else {
        (spec_refreshed(token, expires_in, now_mono), 1)
    }
}

/// `n` callers serialized behind the per-credential lock, all arriving
/// at the same instant, the remote endpoint answering each refresh the
/// same way. Returns the final state and the total remote calls.
pub open spec fn spec_run_calls(
    c: CredentialModel,
    now_mono: u64,
    n: nat,
    token: Seq<u8>,
    expires_in: u64,
) -> (CredentialModel, nat)
    decreases n,
{
    if n == 0 {
        (c, 0)
    } else {
        let (c1, k1) = spec_get_valid_step(c, now_mono, token, expires_in);
        let (c2, k2) = spec_run_calls(c1, now_mono, (n - 1) as nat, token, expires_in);
        (c2, k1 + k2)
    }
}

/// No-double-refresh law: any number of concurrent `get_valid_token`
/// calls on one credential — serialized by its per-name lock — make
/// exactly one remote authentication call when the credential is
/// expired, and none when it is valid.
pub proof fn lemma_single_refresh(
    c: CredentialModel,
    now_mono: u64,
    n: nat,
    token: Seq<u8>,
    expires_in: u64,
)
    requires
        n >= 1,
        expires_in > 0,
        now_mono + expires_in <= u64::MAX,
    ensures
        spec_run_calls(c, now_mono, n, token, expires_in).1 == if spec_valid(c, now_mono) {
            0nat
        } else {
            1nat
        },
    decreases n,
{
    let (c1, _) = spec_get_valid_step(c, now_mono, token, expires_in);
    assert(spec_valid(c1, now_mono));
    if n > 1 {
        lemma_single_refresh(c1, now_mono, (n - 1) as nat, token, expires_in);
    } else {
        assert(spec_run_calls(c1, now_mono, 0, token, expires_in).1 == 0);
    }
}

/// Whether a persisted record is honored at load time: only when its
/// expiry lies strictly in the future of the wall clock.
pub open spec fn record_honored(rec: Option<(Seq<u8>, u64)>, now_unix: u64) -> bool {
    match rec {
        Some((_, expiry)) => expiry > now_unix,
        None => false,
    }
}

/// Remote authentication calls the startup sequence makes: none when
/// the persisted record is honored, exactly one otherwise.
pub open spec fn startup_auth_calls(rec: Option<(Seq<u8>, u64)>, now_unix: u64) -> nat {
    if record_honored(rec, now_unix) {
        0
    } else {
        1
    }
}

/// Expired-on-disk law: a persisted record whose expiry is not in the
/// future is treated as absent, so startup makes exactly one remote
/// authentication call.
pub proof fn lemma_expired_record_forces_refresh(token: Seq<u8>, expiry: u64, now_unix: u64)
    requires
        expiry <= now_unix,
    ensures
        startup_auth_calls(Some((token, expiry)), now_unix) == 1,
{
}

/// Persistence round-trip law: a record written with an unexpired
/// expiry parses back to exactly the same token and expiry, is honored
/// by the fresh cache, and costs zero remote calls at startup.
pub proof fn lemma_persistence_round_trip(token: Seq<u8>, expiry: u64, now_unix: u64)
    requires
        crate::record::token_wf(token),
        expiry > now_unix,
    ensures
        crate::record::spec_parse_record(crate::record::record_bytes(token, expiry)) == Some(
            (token, expiry),
        ),
        startup_auth_calls(
            crate::record::spec_parse_record(crate::record::record_bytes(token, expiry)),
            now_unix,
        ) == 0,
{
    crate::record::lemma_record_round_trip(token, expiry);
}

/// What startup does with the loaded record (or its absence).
pub enum StartupPlan {
    /// Seed the cache from the stored token; it stays valid for
    /// `seconds_left` more seconds. No remote call.
    UseStored { token: Vec<u8>, seconds_left: u64 },
    /// Ignore whatever was on disk and authenticate remotely, once.
    Authenticate,
}

pub open spec fn record_model(rec: &Option<StoredToken>) -> Option<(Seq<u8>, u64)> {
    match rec {
        Some(st) => Some((st.access_token@, st.expiry_time)),
        None => None,
    }
}

/// Decide the startup path from the persisted record: honor it only if
/// its expiry is strictly in the future, else authenticate afresh.
pub fn plan_startup(rec: Option<StoredToken>, now_unix: u64) -> (r: StartupPlan)
    ensures
        match r {
            StartupPlan::UseStored { token, seconds_left } => {
                &&& record_honored(record_model(&rec), now_unix)
                &&& rec matches Some(st) && token@ == st.access_token@ && seconds_left
                    == st.expiry_time - now_unix
            },
            StartupPlan::Authenticate => startup_auth_calls(record_model(&rec), now_unix) == 1,
        },
{
    match rec {
        Some(st) => {
            if st.expiry_time > now_unix {
                StartupPlan::UseStored {
                    token: st.access_token,
                    seconds_left: st.expiry_time - now_unix,
                }
            } else {
                StartupPlan::Authenticate
            }
        },
        None => StartupPlan::Authenticate,
    }
}

fn clone_bytes(v: &Vec<u8>) -> (r: Vec<u8>)
    ensures
        r@ == v@,
{
    let n = v.len();
    let mut r: Vec<u8> = Vec::new();
    let mut i: usize = 0;
    while i < n
        invariant
            n == v@.len(),
            i <= n,
            r@ =~= v@.take(i as int),
        decreases n - i,
    {
        r.push(v[i]);
        i += 1;
        proof {
            assert(r@ =~= v@.take(i as int));
        }
    }
    proof {
        assert(v@.take(n as int) =~= v@);
    }
    r
}

/// The in-memory credential cache. Holds the refreshable bearer token
/// with its monotonic expiry, the path of its durable record, and the
/// static environment-supplied secrets handed out unchanged.
pub struct TokenManager {
    pub access_token: Vec<u8>,
    pub expiry_mono: u64,
    pub token_file: String,
    pub discord_token: String,
    pub mongo_token: String,
    pub youtube_token: String,
}

impl TokenManager {
    pub open spec fn credential(&self) -> CredentialModel {
        CredentialModel { access_token: self.access_token@, expiry_mono: self.expiry_mono }
    }

    /// Build the cache around a token valid for the next
    /// `valid_for_secs` seconds — freshly authenticated, or seeded from
    /// an honored persisted record.
    pub fn new(
        access_token: Vec<u8>,
        valid_for_secs: u64,
        now_mono: u64,
        token_file: String,
        discord_token: String,
        mongo_token: String,
        youtube_token: String,
    ) -> (r: TokenManager)
        requires
            now_mono + valid_for_secs <= u64::MAX,
        ensures
            r.credential() == spec_refreshed(access_token@, valid_for_secs, now_mono),
            r.token_file == token_file,
            r.discord_token == discord_token,
            r.mongo_token == mongo_token,
            r.youtube_token == youtube_token,
    {
        TokenManager {
            access_token,
            expiry_mono: now_mono + valid_for_secs,
            token_file,
            discord_token,
            mongo_token,
            youtube_token,
        }
    }

    /// Whether the cached token may still be handed out.
    pub fn is_valid(&self, now_mono: u64) -> (b: bool)
        ensures
            b == spec_valid(self.credential(), now_mono),
    {
        now_mono < self.expiry_mono
    }

    /// The read step of `get_valid_token`: the cached token when it is
    /// valid, `None` when the caller must drive a refresh first.
    pub fn cached_token(&self, now_mono: u64) -> (r: Option<Vec<u8>>)
        ensures
            match r {
                Some(t) => spec_valid(self.credential(), now_mono) && t@ == self.access_token@,
                None => !spec_valid(self.credential(), now_mono),
            },
    {
        if now_mono < self.expiry_mono {
            Some(clone_bytes(&self.access_token))
        } else {
            None
        }
    }

    /// The cached token as it stands, with no expiry check — callers
    /// that need a valid one use `cached_token`.
    pub fn get_token(&self) -> (r: Vec<u8>)
        ensures
            r@ == self.access_token@,
    {
        clone_bytes(&self.access_token)
    }

    /// Install the outcome of a successful remote authentication: the
    /// new token, valid for `expires_in` seconds from now. The static
    /// secrets and the record path are untouched.
    pub fn apply_refresh(&mut self, token: Vec<u8>, expires_in: u64, now_mono: u64)
        requires
            now_mono + expires_in <= u64::MAX,
        ensures
            final(self).credential() == spec_refreshed(token@, expires_in, now_mono),
            final(self).token_file == old(self).token_file,
            final(self).discord_token == old(self).discord_token,
            final(self).mongo_token == old(self).mongo_token,
            final(self).youtube_token == old(self).youtube_token,
    {
        self.access_token = token;
        self.expiry_mono = now_mono + expires_in;
    }

    /// The durable record to write after a refresh: the current token,
    /// expiring at the wall-clock second that corresponds to the
    /// monotonic expiry (never negative seconds left).
    pub fn record_to_persist(&self, now_mono: u64, now_unix: u64) -> (r: StoredToken)
        requires
            now_unix + (self.expiry_mono - now_mono) <= u64::MAX,
        ensures
            r.access_token@ == self.access_token@,
            r.expiry_time as int == now_unix + if self.expiry_mono >= now_mono {
                self.expiry_mono - now_mono
            } else {
                0
            },
    {
        let seconds_left = if self.expiry_mono >= now_mono {
            self.expiry_mono - now_mono
        } else {
            0
        };
        StoredToken {
            access_token: clone_bytes(&self.access_token),
            expiry_time: now_unix + seconds_left,
        }
    }

    /// The static bot-platform secret, as supplied at construction.
    pub fn get_discord_token(&self) -> (r: String)
        ensures
            r@ == self.discord_token@,
    {
        self.discord_token.clone()
    }

    /// The static database secret, as supplied at construction.
    pub fn get_mongo_token(&self) -> (r: String)
        ensures
            r@ == self.mongo_token@,
    {
        self.mongo_token.clone()
    }

    /// The static video-platform key, as supplied at construction.
    pub fn get_youtube_token(&self) -> (r: String)
        ensures
            r@ == self.youtube_token@,
    {
        self.youtube_token.clone()
    }
}

} // verus!
