use vstd::prelude::*;
use vstd::string::StringExecFns;
use crate::augment::{add_translations, augmented, batch_query, batch_words, hint_rows, json_string_list, AugmentError};
use crate::inventory::{FetchError, VocabWord};
use crate::sampler::{drawn_from_weak_pool, sample, weak_pool_of, Pick, SampleError};

verus! {

/// Logging in failed: the service was unreachable, refused, or sent no usable token.
#[derive(Debug, PartialEq, Eq, Structural)]
pub struct AuthError;

/// The display could not be updated.
#[derive(Debug, PartialEq, Eq, Structural)]
pub struct RenderError;

/// The stage at which a run stopped, with its error.
#[derive(Debug, PartialEq, Eq, Structural)]
pub enum Failure {
    Auth(AuthError),
    Fetch(FetchError),
    Augment(AugmentError),
    Sample(SampleError),
    Render(RenderError),
}

/// Where one pipeline run stands; each state but the last asks for one
/// outside action.
#[derive(Debug)]
pub enum Run {
    /// Log in with the credentials.
    LoggingIn,
    /// Fetch the inventory with this session token.
    Fetching { token: String },
    /// Send the lookup `query` with the token; the inventory waits for its answer.
    LookingUp { token: String, inventory: Vec<VocabWord>, query: String },
    /// Hand the selection to the display.
    Rendering { selection: Vec<Pick> },
    /// The run is over.
    Finished { result: Result<(), Failure> },
}

/// What an outside action brought back.
#[derive(Debug)]
pub enum Event {
    LoggedIn(Result<String, AuthError>),
    Fetched(Result<Vec<VocabWord>, FetchError>),
    /// The lookup response body, or `AugmentError::Network`.
    LookedUp(Result<String, AugmentError>),
    Displayed(Result<(), RenderError>),
}

/// A finished run with this failure.
pub open spec fn failed(f: Failure) -> Run {
    Run::Finished { result: Err(f) }
}

/// A fresh run: it starts by logging in.
pub fn start_run() -> (r: Run)
    ensures
        r is LoggingIn,
{
    Run::LoggingIn
}

/// Advances a run by the outcome of its pending action. A failure at any
/// stage finishes the run with that stage's error; an event that does not
/// answer the pending action leaves the run as it was.
pub fn step(run: Run, event: Event, count: usize) -> (r: Run)
    requires
        count > 0,
    ensures
        match (run, event) {
            (Run::LoggingIn, Event::LoggedIn(Ok(t))) => r == (Run::Fetching { token: t }),
            (Run::LoggingIn, Event::LoggedIn(Err(e))) => r == failed(Failure::Auth(e)),
            (Run::Fetching { token }, Event::Fetched(Ok(inv))) => r matches Run::LookingUp {
                token: t,
                inventory,
                query,
            } && t == token && inventory == inv && query@ == json_string_list(batch_words(inv@)),
            (Run::Fetching { .. }, Event::Fetched(Err(e))) => r == failed(Failure::Fetch(e)),
            (Run::LookingUp { inventory, .. }, Event::LookedUp(Ok(body))) => match hint_rows(body@) {
                None => r == failed(Failure::Augment(AugmentError::Decode)),
                Some(rows) => exists|after: Seq<VocabWord>|
                    #![trigger augmented(inventory@, after, rows)]
                    augmented(inventory@, after, rows) && if weak_pool_of(after).len() == 0 {
                        r == failed(Failure::Sample(SampleError::EmptyPool))
                    } else {
                        r matches Run::Rendering { selection } && selection@.len() == count
                            && drawn_from_weak_pool(selection@, after)
                    },
            },
            (Run::LookingUp { .. }, Event::LookedUp(Err(e))) => r == failed(Failure::Augment(e)),
            (Run::Rendering { .. }, Event::Displayed(Ok(()))) => r == (Run::Finished { result: Ok(()) }),
            (Run::Rendering { .. }, Event::Displayed(Err(e))) => r == failed(Failure::Render(e)),
            _ => r == run,
        },
{
    match run {
        Run::LoggingIn => match event {
            Event::LoggedIn(Ok(t)) => Run::Fetching { token: t },
            Event::LoggedIn(Err(e)) => Run::Finished { result: Err(Failure::Auth(e)) },
            _ => Run::LoggingIn,
        },
        Run::Fetching { token } => match event {
            Event::Fetched(Ok(inv)) => {
                let query = batch_query(&inv);
                Run::LookingUp { token, inventory: inv, query }
            },
            Event::Fetched(Err(e)) => Run::Finished { result: Err(Failure::Fetch(e)) },
            _ => Run::Fetching { token },
        },
        Run::LookingUp { token, inventory, query } => match event {
            Event::LookedUp(Ok(body)) => {
                let mut inventory = inventory;
                match add_translations(&mut inventory, body.as_str()) {
                    Err(e) => Run::Finished { result: Err(Failure::Augment(e)) },
                    Ok(()) => match sample(&inventory, count) {
                        Ok(selection) => Run::Rendering { selection },
                        Err(e) => Run::Finished { result: Err(Failure::Sample(e)) },
                    },
                }
            },
            Event::LookedUp(Err(e)) => Run::Finished { result: Err(Failure::Augment(e)) },
            _ => Run::LookingUp { token, inventory, query },
        },
        Run::Rendering { selection } => match event {
            Event::Displayed(Ok(())) => Run::Finished { result: Ok(()) },
            Event::Displayed(Err(e)) => Run::Finished { result: Err(Failure::Render(e)) },
            _ => Run::Rendering { selection },
        },
        Run::Finished { result } => Run::Finished { result },
    }
}

/// The authorization header value that presents a session token.
pub fn bearer_credential(token: &str) -> (r: String)
    ensures
        r@ == "Bearer "@ + token@,
{
    let mut r = String::from_str("Bearer ");
    r.append(token);
    r
}

} // verus!
