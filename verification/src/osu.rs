//! Authenticated-client logic: the token record and its refresh timing, the
//! fixed-tag extraction of a bearer token from the exchange response, the
//! request protocol that re-authenticates once, the admission gate bounding
//! concurrent fetches, and the folding of paginated search responses.

use vstd::prelude::*;

use crate::models::{ExtractError, SearchResponse};
use crate::text::{absent_from, extract_between, occurs_at, trim_spec};
use vstd::string::StringSliceAdditionalSpecFns;

verus! {

/// Ceiling on simultaneous fetches of one bounded pass.
pub const MAX_CONCURRENT_REQUESTS: usize = 16;

/// A bearer token with its lifetime, as the credentials exchange returns it.
pub struct AuthenticationManager {
    pub access_token: String,
    pub expires_in: u64,
}

impl AuthenticationManager {
    pub fn new(access_token: String, expires_in: u64) -> (s: Self)
        ensures
            s.access_token == access_token,
            s.expires_in == expires_in,
    {
        AuthenticationManager { access_token, expires_in }
    }

    /// Seconds to sleep before the next credentials exchange: the refresh
    /// runs one minute before the token expires.
    pub fn refresh_sleep_seconds(&self) -> (r: u64)
        requires
            self.expires_in >= 60,
        ensures
            r == self.expires_in - 60,
    {
        self.expires_in - 60
    }
}

/// Opening marker of the token in the exchange response body.
pub open spec fn token_key_bytes() -> Seq<u8> {
    "\"access_token\":\"".spec_bytes()
}

/// Closing marker of the token.
pub open spec fn token_end_bytes() -> Seq<u8> {
    "\"}".spec_bytes()
}

/// Cuts the bearer token out of a credentials-exchange response body by its
/// fixed markers, trimmed of ASCII whitespace.
pub fn extract_access_token(body: &[u8]) -> (r: Result<Vec<u8>, ExtractError>)
    ensures
        match r {
            Ok(v) => exists|i: int, e: int|
                {
                    &&& #[trigger] occurs_at(body@, token_key_bytes(), i)
                    &&& forall|j: int| 0 <= j < i ==> !occurs_at(body@, token_key_bytes(), j)
                    &&& i + token_key_bytes().len() <= e
                    &&& #[trigger] occurs_at(body@, token_end_bytes(), e)
                    &&& forall|j: int|
                        i + token_key_bytes().len() <= j < e ==> !occurs_at(
                            body@,
                            token_end_bytes(),
                            j,
                        )
                    &&& v@ == trim_spec(body@.subrange(i + token_key_bytes().len() as int, e))
                },
            Err(ExtractError::MissingStartTag) => absent_from(body@, token_key_bytes(), 0),
            Err(ExtractError::MissingEndTag) => exists|i: int|
                {
                    &&& #[trigger] occurs_at(body@, token_key_bytes(), i)
                    &&& absent_from(body@, token_end_bytes(), i + token_key_bytes().len() as int)
                },
        },
{
    let key: &[u8] = "\"access_token\":\"".as_bytes();
    let end: &[u8] = "\"}".as_bytes();
    proof {
        assert(key@ == token_key_bytes());
        assert(end@ == token_end_bytes());
    }
    extract_between(body, key, end)
}

/// How one authenticated request ended.
#[derive(Debug, Clone, Copy, PartialEq, Eq, Structural)]
pub enum RequestOutcome {
    /// The service answered with a success status.
    Succeeded,
    /// A second unauthorized answer: fatal for this request.
    Unauthorized,
    /// The credentials exchange itself failed.
    AuthFailed,
    /// Any other non-success status.
    Failed,
}

/// Protocol state of one authenticated request.
#[derive(Debug, Clone, Copy, PartialEq, Eq, Structural)]
pub enum AuthRequestState {
    /// Not started.
    Idle,
    /// Waiting for the credentials exchange; `retried` says a send already
    /// came back unauthorized.
    Reauthorizing { retried: bool },
    /// The request is in flight; `retried` says it is the retry after an
    /// unauthorized answer.
    Sending { retried: bool },
    /// Finished.
    Done(RequestOutcome),
}

/// What the driver observed.
#[derive(Debug, Clone, Copy, PartialEq, Eq, Structural)]
pub enum AuthRequestEvent {
    /// The request is kicked off; whether a token is at hand.
    Start { token_present: bool },
    /// The credentials exchange finished.
    Reauthorized { success: bool },
    /// The service answered with this status code.
    Response { status: u16 },
}

/// What the driver must do next.
#[derive(Debug, Clone, Copy, PartialEq, Eq, Structural)]
pub enum AuthAction {
    /// Run the credentials exchange.
    Reauthorize,
    /// Send the request with the token at hand.
    Send,
    /// The request is over; act on the outcome.
    Finish,
    /// The event does not apply to this state.
    Ignore,
}

/// The transition relation of one authenticated request: a missing token is
/// exchanged before the first send; one unauthorized answer triggers one
/// exchange and one retry; a second unauthorized answer is fatal.
pub open spec fn spec_auth_step(s: AuthRequestState, e: AuthRequestEvent) -> (
    AuthRequestState,
    AuthAction,
) {
    match (s, e) {
        (AuthRequestState::Idle, AuthRequestEvent::Start { token_present }) => {
            if token_present {
                (AuthRequestState::Sending { retried: false }, AuthAction::Send)
            } else {
                (AuthRequestState::Reauthorizing { retried: false }, AuthAction::Reauthorize)
            }
        },
        (
            AuthRequestState::Reauthorizing { retried },
            AuthRequestEvent::Reauthorized { success },
        ) => {
            if success {
                (AuthRequestState::Sending { retried }, AuthAction::Send)
            } else {
                (AuthRequestState::Done(RequestOutcome::AuthFailed), AuthAction::Finish)
            }
        },
        (AuthRequestState::Sending { retried }, AuthRequestEvent::Response { status }) => {
            if status == 401 {
                if retried {
                    (AuthRequestState::Done(RequestOutcome::Unauthorized), AuthAction::Finish)
                } else {
                    (AuthRequestState::Reauthorizing { retried: true }, AuthAction::Reauthorize)
                }
            } else if 200 <= status && status <= 299 {
                (AuthRequestState::Done(RequestOutcome::Succeeded), AuthAction::Finish)
            } else {
                (AuthRequestState::Done(RequestOutcome::Failed), AuthAction::Finish)
            }
        },
        (_, _) => (s, AuthAction::Ignore),
    }
}

/// Drives one authenticated request one step forward.
pub fn auth_request_step(state: AuthRequestState, event: AuthRequestEvent) -> (r: (
    AuthRequestState,
    AuthAction,
))
    ensures
        r == spec_auth_step(state, event),
{
    match (state, event) {
        (AuthRequestState::Idle, AuthRequestEvent::Start { token_present }) => {
            if token_present {
                (AuthRequestState::Sending { retried: false }, AuthAction::Send)
            } else {
                (AuthRequestState::Reauthorizing { retried: false }, AuthAction::Reauthorize)
            }
        },
        (
            AuthRequestState::Reauthorizing { retried },
            AuthRequestEvent::Reauthorized { success },
        ) => {
            if success {
                (AuthRequestState::Sending { retried }, AuthAction::Send)
            } else {
                (AuthRequestState::Done(RequestOutcome::AuthFailed), AuthAction::Finish)
            }
        },
        (AuthRequestState::Sending { retried }, AuthRequestEvent::Response { status }) => {
            if status == 401 {
                if retried {
                    (AuthRequestState::Done(RequestOutcome::Unauthorized), AuthAction::Finish)
                } else {
                    (AuthRequestState::Reauthorizing { retried: true }, AuthAction::Reauthorize)
                }
            } else if 200 <= status && status <= 299 {
                (AuthRequestState::Done(RequestOutcome::Succeeded), AuthAction::Finish)
            } else {
                (AuthRequestState::Done(RequestOutcome::Failed), AuthAction::Finish)
            }
        },
        (s, _) => (s, AuthAction::Ignore),
    }
}

/// A request started without a token re-authenticates exactly once before
/// its first send, and any answer but an unauthorized one then finishes the
/// request with no further exchange.
pub proof fn lemma_absent_token_single_reauth(status: u16)
    ensures
        ({
            let (s1, a1) = spec_auth_step(
                AuthRequestState::Idle,
                AuthRequestEvent::Start { token_present: false },
            );
            let (s2, a2) = spec_auth_step(s1, AuthRequestEvent::Reauthorized { success: true });
            let (s3, a3) = spec_auth_step(s2, AuthRequestEvent::Response { status });
            &&& a1 == AuthAction::Reauthorize
            &&& a2 == AuthAction::Send
            &&& (status != 401 ==> a3 == AuthAction::Finish && s3 is Done)
        }),
{
}

/// A request whose token the service rejects re-authenticates exactly once
/// and retries exactly once: whatever the retry's answer, the request then
/// finishes without another exchange.
pub proof fn lemma_expired_token_single_reauth(second_status: u16)
    ensures
        ({
            let (s1, a1) = spec_auth_step(
                AuthRequestState::Idle,
                AuthRequestEvent::Start { token_present: true },
            );
            let (s2, a2) = spec_auth_step(s1, AuthRequestEvent::Response { status: 401 });
            let (s3, a3) = spec_auth_step(s2, AuthRequestEvent::Reauthorized { success: true });
            let (s4, a4) = spec_auth_step(s3, AuthRequestEvent::Response { status: second_status });
            &&& a1 == AuthAction::Send
            &&& a2 == AuthAction::Reauthorize
            &&& a3 == AuthAction::Send
            &&& a4 == AuthAction::Finish
            &&& s4 is Done
        }),
{
}

/// The exchange is asked for only when a request starts without a token or
/// right after a first unauthorized answer — never from a retried send.
pub proof fn lemma_reauthorize_causes(s: AuthRequestState, e: AuthRequestEvent)
    ensures
        spec_auth_step(s, e).1 == AuthAction::Reauthorize ==> (s == AuthRequestState::Idle && e == (
        AuthRequestEvent::Start { token_present: false })) || (s == (AuthRequestState::Sending {
            retried: false,
        }) && e == (AuthRequestEvent::Response { status: 401 })),
{
}

/// Counting admission gate: a fetch may start only while a slot is free,
/// and slots never exceed the limit.
pub struct AdmissionGate {
    limit: usize,
    in_flight: usize,
}

impl AdmissionGate {
    pub closed spec fn limit_of(self) -> usize {
        self.limit
    }

    pub closed spec fn in_flight_count(self) -> usize {
        self.in_flight
    }

    /// Never more slots taken than the limit allows.
    pub open spec fn wf(self) -> bool {
        self.in_flight_count() <= self.limit_of()
    }

    pub fn new(limit: usize) -> (g: Self)
        ensures
            g.wf(),
            g.limit_of() == limit,
            g.in_flight_count() == 0,
    {
        AdmissionGate { limit, in_flight: 0 }
    }

    /// Takes a slot when one is free.
    pub fn try_acquire(&mut self) -> (r: bool)
        requires
            old(self).wf(),
        ensures
            final(self).wf(),
            final(self).limit_of() == old(self).limit_of(),
            r ==> old(self).in_flight_count() < old(self).limit_of() && final(self).in_flight_count()
                == old(self).in_flight_count() + 1,
            !r ==> old(self).in_flight_count() == old(self).limit_of() && final(self).in_flight_count()
                == old(self).in_flight_count(),
    {
        if self.in_flight < self.limit {
            self.in_flight += 1;
            true
        } else {
            false
        }
    }

    /// Frees a slot on completion, whatever the outcome was.
    pub fn release(&mut self)
        requires
            old(self).wf(),
            old(self).in_flight_count() > 0,
        ensures
            final(self).wf(),
            final(self).limit_of() == old(self).limit_of(),
            final(self).in_flight_count() == old(self).in_flight_count() - 1,
    {
        self.in_flight -= 1;
    }
}

/// One bounded fetch pass over a list of ids: hands out the next id only
/// while a slot is free, and frees the slot on completion whatever the
/// outcome.
pub struct FetchScheduler {
    pending: Vec<i32>,
    next: usize,
    in_flight: usize,
    limit: usize,
}

impl FetchScheduler {
    /// Ids not yet handed out.
    pub closed spec fn pending_ids(self) -> Seq<i32> {
        self.pending@.skip(self.next as int)
    }

    pub closed spec fn in_flight_count(self) -> usize {
        self.in_flight
    }

    pub closed spec fn limit_of(self) -> usize {
        self.limit
    }

    pub open spec fn wf(self) -> bool {
        &&& self.in_flight_count() <= self.limit_of()
        &&& self.handed_out() <= self.all_ids().len()
    }

    /// The full id list of the pass.
    pub closed spec fn all_ids(self) -> Seq<i32> {
        self.pending@
    }

    /// How many ids have been handed out.
    pub closed spec fn handed_out(self) -> int {
        self.next as int
    }

    pub fn new(ids: Vec<i32>, limit: usize) -> (s: Self)
        requires
            limit >= 1,
        ensures
            s.wf(),
            s.limit_of() == limit,
            s.in_flight_count() == 0,
            s.pending_ids() == ids@,
    {
        proof {
            assert(ids@.skip(0) =~= ids@);
        }
        FetchScheduler { pending: ids, next: 0, in_flight: 0, limit }
    }

    /// Hands out the next id to fetch, taking a slot — or nothing, when all
    /// slots are taken or no id is left.
    pub fn start_next(&mut self) -> (r: Option<i32>)
        requires
            old(self).wf(),
        ensures
            final(self).wf(),
            final(self).limit_of() == old(self).limit_of(),
            match r {
                Some(id) => {
                    &&& old(self).in_flight_count() < old(self).limit_of()
                    &&& old(self).pending_ids().len() > 0
                    &&& id == old(self).pending_ids()[0]
                    &&& final(self).pending_ids() == old(self).pending_ids().drop_first()
                    &&& final(self).in_flight_count() == old(self).in_flight_count() + 1
                },
                None => {
                    &&& final(self).pending_ids() == old(self).pending_ids()
                    &&& final(self).in_flight_count() == old(self).in_flight_count()
                    &&& (old(self).in_flight_count() == old(self).limit_of() || old(
                        self,
                    ).pending_ids().len() == 0)
                },
            },
    {
        if self.in_flight >= self.limit {
            return None;
        }
        if self.next >= self.pending.len() {
            proof {
                assert(self.pending@.skip(self.next as int).len() == 0);
            }
            return None;
        }
        let id = self.pending[self.next];
        self.next += 1;
        self.in_flight += 1;
        proof {
            assert(old(self).pending@.skip(old(self).next as int).drop_first() =~= self.pending@.skip(
                self.next as int,
            ));
        }
        Some(id)
    }

    /// Records a completion, freeing the slot; a failed item is simply
    /// dropped from the result.
    pub fn complete(&mut self)
        requires
            old(self).wf(),
            old(self).in_flight_count() > 0,
        ensures
            final(self).wf(),
            final(self).limit_of() == old(self).limit_of(),
            final(self).pending_ids() == old(self).pending_ids(),
            final(self).in_flight_count() == old(self).in_flight_count() - 1,
    {
        self.in_flight -= 1;
    }

    /// The pass is over: nothing pending, nothing in flight.
    pub fn is_done(&self) -> (r: bool)
        requires
            self.wf(),
        ensures
            r == (self.pending_ids().len() == 0 && self.in_flight_count() == 0),
    {
        self.next >= self.pending.len() && self.in_flight == 0
    }
}

/// Bounded concurrency: a well-formed scheduler never has more fetches in
/// flight than its limit, and every step keeps it well-formed.
pub proof fn lemma_bounded_in_flight(s: FetchScheduler)
    requires
        s.wf(),
    ensures
        s.in_flight_count() <= s.limit_of(),
{
}

/// Folds one page of the paginated search into the id accumulator and hands
/// back the cursor of the next page, if the listing continues.
pub fn accumulate_page(ids: &mut Vec<i32>, page: SearchResponse) -> (r: Option<String>)
    ensures
        final(ids)@ == old(ids)@ + page.beatmapset_ids@,
        r == page.cursor_string,
{
    let SearchResponse { beatmapset_ids, cursor_string } = page;
    let mut more = beatmapset_ids;
    ids.append(&mut more);
    cursor_string
}

} // verus!
