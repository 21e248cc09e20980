//! The gateway's decisions: where a request goes and what it asks for.

use crate::actor::UpdateError;
use crate::text::same_text;
use vstd::prelude::*;

verus! {

/// Where a request to the scope goes.
#[derive(Clone, Copy, Debug, PartialEq, Eq, Structural)]
pub enum Route {
    /// Open a realtime session.
    Websocket,
    /// Apply an update.
    Update,
    /// Read the current state.
    State,
    /// No such resource.
    NotFound,
}

/// The route that a request path stands for.
pub open spec fn route_of(path: Seq<char>) -> Route {
    if path == "/websocket"@ {
        Route::Websocket
    } else if path == "/update"@ {
        Route::Update
    } else if path == "/state"@ {
        Route::State
    } else {
        Route::NotFound
    }
}

/// Picks the route for a request path. Paths are matched in full.
pub fn route(path: &str) -> (r: Route)
    ensures
        r == route_of(path@),
{
    if same_text(path, "/websocket") {
        Route::Websocket
    } else if same_text(path, "/update") {
        Route::Update
    } else if same_text(path, "/state") {
        Route::State
    } else {
        Route::NotFound
    }
}

/// The status that an update is answered with: 200 where it was applied,
/// 400 where the request was malformed, and 500 where the durable write
/// did not succeed.
pub open spec fn status_of(error: Option<UpdateError>) -> u16 {
    match error {
        None => 200,
        Some(UpdateError::InvalidUpdate) => 400,
        Some(UpdateError::PersistenceFailure) => 500,
    }
}

/// Picks the status of the answer to an update. An invalid update is the
/// client's to correct, a failed write is the service's and may be tried
/// again.
pub fn update_status(error: Option<UpdateError>) -> (status: u16)
    ensures
        status == status_of(error),
{
    match error {
        None => 200,
        Some(UpdateError::InvalidUpdate) => 400,
        Some(UpdateError::PersistenceFailure) => 500,
    }
}

/// The value of the first pair of `pairs` whose name is `q`.
pub open spec fn query_in(pairs: Seq<(String, String)>) -> Seq<char>
    decreases pairs.len(),
{
    if pairs.len() == 0 {
        Seq::empty()
    } else if pairs.first().0@ == "q"@ {
        pairs.first().1@
    } else {
        query_in(pairs.drop_first())
    }
}

/// Picks the search query out of the decoded pairs of a request's query
/// string: the value of the first pair that is named `q`, and the empty
/// text where there is none.
pub fn search_query(pairs: &Vec<(String, String)>) -> (query: String)
    ensures
        query@ == query_in(pairs@),
{
    let mut i: usize = 0;
    assert(pairs@.skip(0) =~= pairs@);
    while i < pairs.len()
        invariant
            i <= pairs.len(),
            query_in(pairs@) == query_in(pairs@.skip(i as int)),
        decreases pairs.len() - i,
    {
        assert(pairs@.skip(i as int).first() == pairs@[i as int]);
        assert(pairs@.skip(i as int).drop_first() =~= pairs@.skip(i + 1));
        if same_text(pairs[i].0.as_str(), "q") {
            return pairs[i].1.clone();
        }
        i += 1;
    }
    assert(pairs@.skip(i as int).len() == 0);
    String::new()
}

} // verus!
