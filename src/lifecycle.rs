//! Obtaining a usable token: reuse the cached one while it is live, else
//! acquire a fresh one and store it before handing it out.
//!
//! The caller performs each action (read the cache file, call the identity
//! endpoint, write the cache file) and reports what came of it as an event.
use vstd::prelude::*;
use crate::token::{TokenResponse, is_live_at, validate_token};

verus! {

/// Why no token could be produced.
pub enum ObtainError {
    /// Acquisition failed, with the diagnostic text that came back.
    Unrecoverable(String),
}

/// Where a run of the token lifecycle stands.
pub enum ObtainState {
    /// Waiting for the content of the token cache.
    AwaitingCache,
    /// Waiting for the result of an acquisition.
    AwaitingAcquisition,
    /// Waiting for the fresh token to be written to the cache.
    AwaitingStore(TokenResponse),
    /// The run has ended; no event is expected.
    Finished,
}

/// What the caller observed after performing an action.
pub enum ObtainEvent {
    /// The cache held this token, or none could be read from it.
    CacheRead(Option<TokenResponse>),
    /// The identity endpoint answered with a token, or with a failure text.
    Acquired(Result<TokenResponse, String>),
    /// The token was written to the cache.
    Stored,
}

/// What the caller is to do next.
pub enum ObtainAction {
    /// Read the token cache.
    ReadCache,
    /// Ask the identity endpoint for a fresh token.
    Acquire,
    /// Overwrite the token cache with this token.
    StoreCache(TokenResponse),
    /// The run is over: use this token.
    Deliver(TokenResponse),
    /// The run is over without a token.
    Abort(ObtainError),
}

impl ObtainState {
    /// Whether `event` answers the action that led to this state.
    pub open spec fn expects(&self, event: ObtainEvent) -> bool {
        match *self {
            ObtainState::AwaitingCache => event is CacheRead,
            ObtainState::AwaitingAcquisition => event is Acquired,
            ObtainState::AwaitingStore(_) => event is Stored,
            ObtainState::Finished => false,
        }
    }

    /// Tells whether `event` answers the action that led to this state.
    pub fn accepts(&self, event: &ObtainEvent) -> (r: bool)
        ensures
            r == self.expects(*event),
    {
        match self {
            ObtainState::AwaitingCache => matches!(event, ObtainEvent::CacheRead(_)),
            ObtainState::AwaitingAcquisition => matches!(event, ObtainEvent::Acquired(_)),
            ObtainState::AwaitingStore(_) => matches!(event, ObtainEvent::Stored),
            ObtainState::Finished => false,
        }
    }
}

/// One transition: from a state and the event that answers it, at time `now`,
/// to the next state and the next action.
pub open spec fn step_spec(state: ObtainState, event: ObtainEvent, now: int) -> (ObtainState, ObtainAction) {
    match event {
        ObtainEvent::CacheRead(cached) => match cached {
            Some(t) => if is_live_at(t, now) {
                (ObtainState::Finished, ObtainAction::Deliver(t))
            } else {
                (ObtainState::AwaitingAcquisition, ObtainAction::Acquire)
            },
            None => (ObtainState::AwaitingAcquisition, ObtainAction::Acquire),
        },
        ObtainEvent::Acquired(res) => match res {
            Ok(t) => (ObtainState::AwaitingStore(t), ObtainAction::StoreCache(t)),
            Err(msg) => (ObtainState::Finished, ObtainAction::Abort(ObtainError::Unrecoverable(msg))),
        },
        ObtainEvent::Stored => match state {
            ObtainState::AwaitingStore(t) => (ObtainState::Finished, ObtainAction::Deliver(t)),
            _ => (ObtainState::Finished, ObtainAction::ReadCache),
        },
    }
}

/// The first state and action of a run: read the cache.
pub fn obtain_start() -> (r: (ObtainState, ObtainAction))
    ensures
        r == (ObtainState::AwaitingCache, ObtainAction::ReadCache),
{
    (ObtainState::AwaitingCache, ObtainAction::ReadCache)
}

/// Takes one transition of the token lifecycle.
pub fn obtain_step(state: ObtainState, event: ObtainEvent, now: i64) -> (r: (ObtainState, ObtainAction))
    requires
        state.expects(event),
    ensures
        r == step_spec(state, event, now as int),
{
    match event {
        ObtainEvent::CacheRead(cached) => match cached {
            Some(t) => if validate_token(&t, now) {
                (ObtainState::Finished, ObtainAction::Deliver(t))
            } else {
                (ObtainState::AwaitingAcquisition, ObtainAction::Acquire)
            },
            None => (ObtainState::AwaitingAcquisition, ObtainAction::Acquire),
        },
        ObtainEvent::Acquired(res) => match res {
            Ok(t) => {
                let stored = t.duplicate();
                (ObtainState::AwaitingStore(t), ObtainAction::StoreCache(stored))
            },
            Err(msg) => (ObtainState::Finished, ObtainAction::Abort(ObtainError::Unrecoverable(msg))),
        },
        ObtainEvent::Stored => match state {
            ObtainState::AwaitingStore(t) => (ObtainState::Finished, ObtainAction::Deliver(t)),
            _ => (ObtainState::Finished, ObtainAction::ReadCache),
        },
    }
}

/// The event with which a caller answers `action`, when the cache holds
/// `cached` and the identity endpoint answers `acquired`.
pub open spec fn respond(
    action: ObtainAction,
    cached: Option<TokenResponse>,
    acquired: Result<TokenResponse, String>,
) -> Option<ObtainEvent> {
    match action {
        ObtainAction::ReadCache => Some(ObtainEvent::CacheRead(cached)),
        ObtainAction::Acquire => Some(ObtainEvent::Acquired(acquired)),
        ObtainAction::StoreCache(_) => Some(ObtainEvent::Stored),
        _ => None,
    }
}

/// The actions issued from `state` and `action` on, for at most `fuel` more events.
pub open spec fn run_from(
    state: ObtainState,
    action: ObtainAction,
    cached: Option<TokenResponse>,
    acquired: Result<TokenResponse, String>,
    now: int,
    fuel: nat,
) -> Seq<ObtainAction>
    decreases fuel,
{
    match respond(action, cached, acquired) {
        Some(event) => if fuel == 0 {
            seq![action]
        } else {
            let (s, a) = step_spec(state, event, now);
            seq![action] + run_from(s, a, cached, acquired, now, (fuel - 1) as nat)
        },
        None => seq![action],
    }
}

/// The actions of a whole run, when the cache holds `cached`, the identity
/// endpoint answers `acquired` and the clock reads `now`.
pub open spec fn obtain_run(
    cached: Option<TokenResponse>,
    acquired: Result<TokenResponse, String>,
    now: int,
) -> Seq<ObtainAction> {
    run_from(ObtainState::AwaitingCache, ObtainAction::ReadCache, cached, acquired, now, 3)
}

/// What the cache holds after `actions`, when it held `cached` before.
pub open spec fn cache_after(cached: Option<TokenResponse>, actions: Seq<ObtainAction>) -> Option<TokenResponse>
    decreases actions.len(),
{
    if actions.len() == 0 {
        cached
    } else {
        match actions.last() {
            ObtainAction::StoreCache(t) => Some(t),
            _ => cache_after(cached, actions.drop_last()),
        }
    }
}

/// The token that a run hands out, if it ends by handing one out.
pub open spec fn delivered(actions: Seq<ObtainAction>) -> Option<TokenResponse> {
    if actions.len() > 0 && actions.last() is Deliver {
        Some(actions.last()->Deliver_0)
    } else {
        None
    }
}

/// Whether a run asks the identity endpoint for a token.
pub open spec fn acquires(actions: Seq<ObtainAction>) -> bool {
    exists|i: int| 0 <= i < actions.len() && actions[i] is Acquire
}

/// A cached token that is live is handed out as it is: the run reads the
/// cache, delivers that token, and never asks the identity endpoint.
pub proof fn lemma_live_cache_skips_acquisition(
    t: TokenResponse,
    acquired: Result<TokenResponse, String>,
    now: int,
)
    requires
        is_live_at(t, now),
    ensures
        obtain_run(Some(t), acquired, now) == seq![ObtainAction::ReadCache, ObtainAction::Deliver(t)],
        !acquires(obtain_run(Some(t), acquired, now)),
        delivered(obtain_run(Some(t), acquired, now)) == Some(t),
{
    reveal_with_fuel(run_from, 4);
    reveal_with_fuel(cache_after, 4);
    let run = obtain_run(Some(t), acquired, now);
    assert(run =~= seq![ObtainAction::ReadCache, ObtainAction::Deliver(t)]);
}

/// Without a live cached token, a successful acquisition is stored and then
/// handed out: afterwards the cache holds exactly the fresh token.
pub proof fn lemma_fresh_token_stored_and_delivered(
    cached: Option<TokenResponse>,
    t: TokenResponse,
    now: int,
)
    requires
        cached matches Some(c) ==> !is_live_at(c, now),
    ensures
        obtain_run(cached, Ok(t), now) == seq![
            ObtainAction::ReadCache,
            ObtainAction::Acquire,
            ObtainAction::StoreCache(t),
            ObtainAction::Deliver(t),
        ],
        delivered(obtain_run(cached, Ok(t), now)) == Some(t),
        cache_after(cached, obtain_run(cached, Ok(t), now)) == Some(t),
{
    reveal_with_fuel(run_from, 4);
    reveal_with_fuel(cache_after, 4);
    let run = obtain_run(cached, Ok(t), now);
    let expected = seq![
        ObtainAction::ReadCache,
        ObtainAction::Acquire,
        ObtainAction::StoreCache(t),
        ObtainAction::Deliver(t),
    ];
    assert(run =~= expected);
    assert(expected.drop_last() =~= seq![
        ObtainAction::ReadCache,
        ObtainAction::Acquire,
        ObtainAction::StoreCache(t),
    ]);
}

/// Without a live cached token, a failed acquisition ends the run with
/// `Unrecoverable` carrying the failure text, and the cache is never written.
pub proof fn lemma_failed_acquisition_unrecoverable(
    cached: Option<TokenResponse>,
    msg: String,
    now: int,
)
    requires
        cached matches Some(c) ==> !is_live_at(c, now),
    ensures
        obtain_run(cached, Err(msg), now) == seq![
            ObtainAction::ReadCache,
            ObtainAction::Acquire,
            ObtainAction::Abort(ObtainError::Unrecoverable(msg)),
        ],
        delivered(obtain_run(cached, Err(msg), now)) is None,
        forall|i: int|
            0 <= i < obtain_run(cached, Err(msg), now).len() ==> !(#[trigger] obtain_run(
                cached,
                Err(msg),
                now,
            )[i] is StoreCache),
        cache_after(cached, obtain_run(cached, Err(msg), now)) == cached,
{
    reveal_with_fuel(run_from, 4);
    reveal_with_fuel(cache_after, 4);
    let run = obtain_run(cached, Err(msg), now);
    let expected = seq![
        ObtainAction::ReadCache,
        ObtainAction::Acquire,
        ObtainAction::Abort(ObtainError::Unrecoverable(msg)),
    ];
    assert(run =~= expected);
    let two = expected.drop_last();
    assert(two =~= seq![ObtainAction::ReadCache, ObtainAction::Acquire]);
    assert(two.drop_last() =~= seq![ObtainAction::ReadCache]);
    assert(two.drop_last().drop_last() =~= Seq::<ObtainAction>::empty());
}

/// Two runs in succession over the same live cached token hand out that same
/// token both times, whatever the identity endpoint would have answered.
pub proof fn lemma_reuse_is_idempotent(
    t: TokenResponse,
    first: Result<TokenResponse, String>,
    second: Result<TokenResponse, String>,
    now1: int,
    now2: int,
)
    requires
        is_live_at(t, now1),
        is_live_at(t, now2),
    ensures
        delivered(obtain_run(Some(t), first, now1)) == Some(t),
        delivered(obtain_run(Some(t), second, now2)) == Some(t),
        cache_after(Some(t), obtain_run(Some(t), first, now1)) == Some(t),
{
    reveal_with_fuel(run_from, 4);
    reveal_with_fuel(cache_after, 4);
    lemma_live_cache_skips_acquisition(t, first, now1);
    lemma_live_cache_skips_acquisition(t, second, now2);
    let run = obtain_run(Some(t), first, now1);
    assert(run.drop_last() =~= seq![ObtainAction::ReadCache]);
    assert(run.drop_last().drop_last() =~= Seq::<ObtainAction>::empty());
}

} // verus!
