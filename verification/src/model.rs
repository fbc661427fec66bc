//! The mathematical model of a registry: the sequence of its bindings, in the
//! order in which they were created.

use vstd::prelude::*;
use crate::error::TelemetryError;

verus! {

/// One instrument name together with the handle that the backend created for it.
pub struct Binding<H> {
    pub name: Seq<char>,
    pub handle: H,
}

/// The bindings of a registry, in creation order. The position of a binding is
/// its slot, and no slot is used twice.
pub type Bindings<H> = Seq<Binding<H>>;

/// No name is bound twice.
pub open spec fn distinct<H>(s: Bindings<H>) -> bool {
    forall|i: int, j: int| 0 <= i < j < s.len() ==> s[i].name != s[j].name
}

/// `name` is bound in slot `i`.
pub open spec fn bound_at<H>(s: Bindings<H>, name: Seq<char>, i: int) -> bool {
    0 <= i < s.len() && s[i].name == name
}

/// `name` has a binding.
pub open spec fn bound<H>(s: Bindings<H>, name: Seq<char>) -> bool {
    exists|i: int| bound_at(s, name, i)
}

/// The slot that holds `name`, where it is bound.
pub open spec fn slot_of<H>(s: Bindings<H>, name: Seq<char>) -> int {
    choose|i: int| bound_at(s, name, i)
}

/// The handle that `name` is bound to, where it is bound.
pub open spec fn handle_of<H>(s: Bindings<H>, name: Seq<char>) -> H {
    s[slot_of(s, name)].handle
}

/// The bindings after a request for `name`, where `created` is what the backend
/// returns if it is asked to create the instrument. A bound name leaves the
/// bindings as they are; an unbound one gains a binding in the next free slot if
/// the backend succeeds, and none if it fails.
pub open spec fn after_request<H, E>(s: Bindings<H>, name: Seq<char>, created: Result<H, E>) -> Bindings<H> {
    if bound(s, name) {
        s
    } else {
        match created {
            Ok(handle) => s.push(Binding { name, handle }),
            Err(_) => s,
        }
    }
}

/// What a request for `name` is answered with: the handle already bound, else the
/// handle that the backend created, else the backend's failure.
pub open spec fn answer<H, E>(s: Bindings<H>, name: Seq<char>, created: Result<H, E>) -> Result<H, TelemetryError<E>> {
    if bound(s, name) {
        Ok(handle_of(s, name))
    } else {
        match created {
            Ok(handle) => Ok(handle),
            Err(cause) => Err(TelemetryError::BackendCreationFailure(cause)),
        }
    }
}

/// One request in a history: the name asked for, and what the backend returns
/// if this request asks it to create the instrument.
pub struct Request<H, E> {
    pub name: Seq<char>,
    pub created: Result<H, E>,
}

/// The bindings after the requests of `history`, served one after the other.
pub open spec fn after_requests<H, E>(s: Bindings<H>, history: Seq<Request<H, E>>) -> Bindings<H>
    decreases history.len(),
{
    if history.len() == 0 {
        s
    } else {
        let last = history.last();
        after_request(after_requests(s, history.drop_last()), last.name, last.created)
    }
}

/// The bindings that request `i` of `history` finds.
pub open spec fn before_request<H, E>(s: Bindings<H>, history: Seq<Request<H, E>>, i: int) -> Bindings<H> {
    after_requests(s, history.take(i))
}

/// What request `i` of `history` is answered with.
pub open spec fn answer_in<H, E>(s: Bindings<H>, history: Seq<Request<H, E>>, i: int) -> Result<H, TelemetryError<E>> {
    answer(before_request(s, history, i), history[i].name, history[i].created)
}

/// Request `i` of `history` reaches the backend: its name is unbound when it is served.
pub open spec fn asks_backend<H, E>(s: Bindings<H>, history: Seq<Request<H, E>>, i: int) -> bool {
    !bound(before_request(s, history, i), history[i].name)
}

/// `t` holds every binding of `s`, each in its old slot.
pub open spec fn extends<H>(t: Bindings<H>, s: Bindings<H>) -> bool {
    s.len() <= t.len() && forall|i: int| 0 <= i < s.len() ==> t[i] == s[i]
}

/// No handle is bound to two names.
pub open spec fn unshared<H>(s: Bindings<H>) -> bool {
    forall|i: int, j: int| 0 <= i < j < s.len() ==> s[i].handle != s[j].handle
}

/// `handle` is bound to no name.
pub open spec fn fresh<H>(s: Bindings<H>, handle: H) -> bool {
    forall|i: int| 0 <= i < s.len() ==> s[i].handle != handle
}

/// What a recording hands to the backend: the handle to add to, and the value and
/// attributes to add.
pub struct Addition<H, V, A> {
    pub handle: H,
    pub value: V,
    pub attributes: A,
}

/// The addition that a recording under `name` makes: `value` and `attributes` as
/// given, on the handle that the request for `name` is answered with. There is
/// none where the request fails.
pub open spec fn addition<H, E, V, A>(
    s: Bindings<H>,
    name: Seq<char>,
    created: Result<H, E>,
    value: V,
    attributes: A,
) -> Option<Addition<H, V, A>> {
    match answer(s, name, created) {
        Ok(handle) => Some(Addition { handle, value, attributes }),
        Err(_) => None,
    }
}

/// One recording in a history: the request for its name, and what to add.
pub struct Recording<H, E, V, A> {
    pub request: Request<H, E>,
    pub value: V,
    pub attributes: A,
}

/// The requests that the recordings of `history` make.
pub open spec fn requests_of<H, E, V, A>(history: Seq<Recording<H, E, V, A>>) -> Seq<Request<H, E>> {
    history.map_values(|recording: Recording<H, E, V, A>| recording.request)
}

/// The addition that recording `i` of `history` makes.
pub open spec fn addition_in<H, E, V, A>(
    s: Bindings<H>,
    history: Seq<Recording<H, E, V, A>>,
    i: int,
) -> Option<Addition<H, V, A>> {
    addition(
        before_request(s, requests_of(history), i),
        history[i].request.name,
        history[i].request.created,
        history[i].value,
        history[i].attributes,
    )
}

/// What a recording is answered with, given what the backend returned from the
/// addition: nothing on success, else the backend's failure.
pub open spec fn addition_answer<E>(added: Result<(), E>) -> Result<(), TelemetryError<E>> {
    match added {
        Ok(_) => Ok(()),
        Err(cause) => Err(TelemetryError::BackendAdditionFailure(cause)),
    }
}

/// In distinct bindings a name sits in one slot only.
pub proof fn lemma_slot_is_unique<H>(s: Bindings<H>, name: Seq<char>, i: int)
    requires
        distinct(s),
        bound_at(s, name, i),
    ensures
        bound(s, name),
        slot_of(s, name) == i,
        handle_of(s, name) == s[i].handle,
{
}

/// A request never binds a name twice.
pub proof fn lemma_request_keeps_distinct<H, E>(s: Bindings<H>, name: Seq<char>, created: Result<H, E>)
    requires
        distinct(s),
    ensures
        distinct(after_request(s, name, created)),
{
    let t = after_request(s, name, created);
    assert forall|i: int, j: int| 0 <= i < j < t.len() implies t[i].name != t[j].name by {
        if j == s.len() {
            assert(!bound_at(s, name, i));
        }
    }
}

} // verus!
