//! What holds of every registry, however it is used.
//!
//! The registry is a sequential object. Callers that share one between threads
//! put it behind a lock, and the lock serves their requests one after the other
//! in some order. The laws on histories below hold for every such order.

use vstd::prelude::*;
use crate::error::TelemetryError;
use crate::model::{
    addition_in, after_request, after_requests, answer, answer_in, asks_backend, before_request,
    bound, bound_at, distinct, extends, fresh, handle_of, lemma_request_keeps_distinct,
    lemma_slot_is_unique, requests_of, slot_of, unshared, Addition, Binding, Bindings, Recording,
    Request,
};

verus! {

/// A binding is never removed or replaced: a request leaves every binding that
/// it found in its slot.
pub proof fn law_bindings_are_permanent<H, E>(s: Bindings<H>, name: Seq<char>, created: Result<H, E>)
    ensures
        extends(after_request(s, name, created), s),
{
}

/// A bound name stays bound, in the same slot and to the same handle, when the
/// bindings grow.
pub proof fn law_growth_keeps_answers<H>(s: Bindings<H>, t: Bindings<H>, name: Seq<char>)
    requires
        distinct(t),
        extends(t, s),
        bound(s, name),
    ensures
        bound(t, name),
        slot_of(t, name) == slot_of(s, name),
        handle_of(t, name) == handle_of(s, name),
{
    let i: int = slot_of(s, name);
    lemma_slot_is_unique(t, name, i);
}

/// A request that is answered with a handle leaves the name bound to that handle.
pub proof fn law_answer_is_bound<H, E>(s: Bindings<H>, name: Seq<char>, created: Result<H, E>)
    requires
        distinct(s),
        answer(s, name, created) is Ok,
    ensures
        bound(after_request(s, name, created), name),
        Ok::<H, TelemetryError<E>>(handle_of(after_request(s, name, created), name)) == answer(s, name, created),
{
    let t = after_request(s, name, created);
    lemma_request_keeps_distinct(s, name, created);
    if !bound(s, name) {
        lemma_slot_is_unique(t, name, s.len() as int);
    }
}

/// Identity: a name that has been answered with a handle is answered with the
/// same handle when it is asked for again, whatever the backend would return
/// then, and the second request binds nothing.
pub proof fn law_identity<H, E>(s: Bindings<H>, name: Seq<char>, first: Result<H, E>, second: Result<H, E>)
    requires
        distinct(s),
        answer(s, name, first) is Ok,
    ensures
        answer(after_request(s, name, first), name, second) == answer(s, name, first),
        after_request(after_request(s, name, first), name, second) == after_request(s, name, first),
{
    law_answer_is_bound(s, name, first);
}

/// A failed creation leaves no trace: the bindings are as they were, and the next
/// request for the name asks the backend again.
pub proof fn law_failure_binds_nothing<H, E>(s: Bindings<H>, name: Seq<char>, created: Result<H, E>)
    requires
        answer(s, name, created) is Err,
    ensures
        after_request(s, name, created) == s,
        !bound(s, name),
{
}

/// Two names are never bound in the same slot.
pub proof fn law_names_have_own_slots<H>(s: Bindings<H>, a: Seq<char>, b: Seq<char>)
    requires
        bound(s, a),
        bound(s, b),
        a != b,
    ensures
        slot_of(s, a) != slot_of(s, b),
{
}

/// As long as the backend hands out each handle once, no handle is bound twice.
pub proof fn law_fresh_handles_stay_unshared<H, E>(s: Bindings<H>, name: Seq<char>, created: Result<H, E>)
    requires
        unshared(s),
        created matches Ok(handle) ==> fresh(s, handle),
    ensures
        unshared(after_request(s, name, created)),
{
}

/// No aliasing: where no handle is bound twice, two names have different handles.
pub proof fn law_no_aliasing<H>(s: Bindings<H>, a: Seq<char>, b: Seq<char>)
    requires
        unshared(s),
        bound(s, a),
        bound(s, b),
        a != b,
    ensures
        handle_of(s, a) != handle_of(s, b),
{
}

/// Serving one more request after a history is serving the longer history.
pub proof fn lemma_history_step<H, E>(s: Bindings<H>, history: Seq<Request<H, E>>, i: int)
    requires
        0 <= i < history.len(),
    ensures
        before_request(s, history, i + 1) == after_request(
            before_request(s, history, i),
            history[i].name,
            history[i].created,
        ),
        before_request(s, history, 0) == s,
        before_request(s, history, history.len() as int) == after_requests(s, history),
{
    let longer = history.take(i + 1);
    assert(longer.drop_last() =~= history.take(i));
    assert(history.take(history.len() as int) =~= history);
}

/// At every point of a history no name is bound twice, and the bindings only grow.
pub proof fn law_history_keeps_order<H, E>(s: Bindings<H>, history: Seq<Request<H, E>>, i: int, j: int)
    requires
        distinct(s),
        0 <= i <= j <= history.len(),
    ensures
        distinct(before_request(s, history, j)),
        extends(before_request(s, history, j), before_request(s, history, i)),
    decreases j,
{
    if j > 0 {
        lemma_history_step(s, history, j - 1);
        let earlier = before_request(s, history, j - 1);
        if i < j {
            law_history_keeps_order(s, history, i, j - 1);
        } else {
            law_history_keeps_order(s, history, j - 1, j - 1);
        }
        lemma_request_keeps_distinct(earlier, history[j - 1].name, history[j - 1].created);
    }
}

/// Identity in a history: once a request for a name has been answered with a
/// handle, every later request for that name is answered with the same handle
/// and does not reach the backend, whatever was asked for in between.
pub proof fn law_identity_in_history<H, E>(s: Bindings<H>, history: Seq<Request<H, E>>, i: int, j: int)
    requires
        distinct(s),
        0 <= i < j < history.len(),
        history[i].name == history[j].name,
        answer_in(s, history, i) is Ok,
    ensures
        answer_in(s, history, j) == answer_in(s, history, i),
        !asks_backend(s, history, j),
{
    let name = history[i].name;
    let found = before_request(s, history, i);
    let left = before_request(s, history, i + 1);
    let later = before_request(s, history, j);
    lemma_history_step(s, history, i);
    law_history_keeps_order(s, history, 0, i);
    law_answer_is_bound(found, name, history[i].created);
    law_history_keeps_order(s, history, i + 1, j);
    law_growth_keeps_answers(left, later, name);
}

/// One creation per name: of the requests for one name that reach the backend,
/// only the last can have succeeded. So the backend creates at most one
/// instrument for a name, and is asked again only after it has failed.
pub proof fn law_one_creation_per_name<H, E>(s: Bindings<H>, history: Seq<Request<H, E>>, i: int, j: int)
    requires
        distinct(s),
        0 <= i < j < history.len(),
        history[i].name == history[j].name,
        asks_backend(s, history, i),
        asks_backend(s, history, j),
    ensures
        history[i].created is Err,
        answer_in(s, history, i) is Err,
{
    if answer_in(s, history, i) is Ok {
        law_identity_in_history(s, history, i, j);
    }
}

/// Race safety: any number of first requests for one name, served in any order
/// by a backend that does not fail, create one instrument between them. The
/// request served first reaches the backend, no other does, all are answered
/// with the handle created for the first, and one binding has been added.
pub proof fn law_single_creation<H, E>(s: Bindings<H>, name: Seq<char>, history: Seq<Request<H, E>>, k: int)
    requires
        distinct(s),
        !bound(s, name),
        0 <= k < history.len(),
        forall|i: int| 0 <= i < history.len() ==> (#[trigger] history[i]).name == name,
        forall|i: int| 0 <= i < history.len() ==> (#[trigger] history[i]).created is Ok,
    ensures
        asks_backend(s, history, k) <==> k == 0,
        answer_in(s, history, k) == Ok::<H, TelemetryError<E>>(history[0].created->Ok_0),
        after_requests(s, history) == s.push((Binding { name, handle: history[0].created->Ok_0 })),
{
    lemma_history_step(s, history, 0);
    if k > 0 {
        law_identity_in_history(s, history, 0, k);
    }
    lemma_single_binding(s, name, history, history.len() as int);
}

/// A name that was bound before a history is answered with its handle by every
/// request of the history, and none of them reaches the backend.
pub proof fn law_bound_name_is_served_from_the_registry<H, E>(
    s: Bindings<H>,
    name: Seq<char>,
    history: Seq<Request<H, E>>,
    k: int,
)
    requires
        distinct(s),
        bound(s, name),
        0 <= k < history.len(),
        history[k].name == name,
    ensures
        !asks_backend(s, history, k),
        answer_in(s, history, k) == Ok::<H, TelemetryError<E>>(handle_of(s, name)),
{
    law_history_keeps_order(s, history, 0, k);
    law_growth_keeps_answers(s, before_request(s, history, k), name);
}

/// None lost, none duplicated: recordings under one name, served in any order
/// by a backend that creates what it is asked for, make one addition each. All
/// are made on one handle, the one bound to the name, and each carries the value
/// and the attributes of its own recording.
pub proof fn law_every_recording_is_added_once<H, E, V, A>(
    s: Bindings<H>,
    name: Seq<char>,
    history: Seq<Recording<H, E, V, A>>,
    k: int,
)
    requires
        distinct(s),
        0 <= k < history.len(),
        forall|i: int| 0 <= i < history.len() ==> (#[trigger] history[i]).request.name == name,
        forall|i: int| 0 <= i < history.len() ==> (#[trigger] history[i]).request.created is Ok,
    ensures
        bound(s, name) ==> addition_in(s, history, k) == Some(
            (Addition { handle: handle_of(s, name), value: history[k].value, attributes: history[k].attributes }),
        ),
        !bound(s, name) ==> addition_in(s, history, k) == Some(
            (Addition {
                handle: history[0].request.created->Ok_0,
                value: history[k].value,
                attributes: history[k].attributes,
            }),
        ),
{
    let requests = requests_of(history);
    if bound(s, name) {
        law_bound_name_is_served_from_the_registry(s, name, requests, k);
    } else {
        assert(forall|i: int| 0 <= i < requests.len() ==> (#[trigger] requests[i]) == history[i].request);
        law_single_creation(s, name, requests, k);
    }
}

proof fn lemma_single_binding<H, E>(s: Bindings<H>, name: Seq<char>, history: Seq<Request<H, E>>, n: int)
    requires
        !bound(s, name),
        1 <= n <= history.len(),
        forall|i: int| 0 <= i < history.len() ==> (#[trigger] history[i]).name == name,
        history[0].created is Ok,
    ensures
        before_request(s, history, n) == s.push((Binding { name, handle: history[0].created->Ok_0 })),
    decreases n,
{
    let one = s.push(Binding { name, handle: history[0].created->Ok_0 });
    if n == 1 {
        lemma_history_step(s, history, 0);
    } else {
        lemma_single_binding(s, name, history, n - 1);
        lemma_history_step(s, history, n - 1);
        assert(bound_at(one, name, s.len() as int));
    }
}

} // verus!
