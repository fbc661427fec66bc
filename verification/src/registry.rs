//! The registry itself: an owned table from instrument names to handles.

use vstd::prelude::*;
use crate::error::TelemetryError;
use crate::model::{
    addition, addition_answer, after_request, answer, bound, bound_at, distinct, handle_of,
    lemma_request_keeps_distinct, lemma_slot_is_unique, slot_of, Binding, Bindings,
};
use crate::names::same_name;

verus! {

/// One row of the table: a name and the handle created for it.
struct Entry<H> {
    name: &'static str,
    handle: H,
}

/// A table that binds each instrument name to the one handle created for it.
///
/// `H` is the backend's handle type. The registry never looks inside a handle:
/// it stores the one that the backend returned and lends it out again.
pub struct Registry<H> {
    entries: Vec<Entry<H>>,
}

/// A registry is viewed as its bindings in creation order.
impl<H> View for Registry<H> {
    type V = Bindings<H>;

    closed spec fn view(&self) -> Bindings<H> {
        bindings_of(self.entries@)
    }
}

/// The bindings that the rows of a table stand for.
spec fn bindings_of<H>(entries: Seq<Entry<H>>) -> Bindings<H> {
    Seq::new(entries.len(), |i: int| Binding { name: entries[i].name@, handle: entries[i].handle })
}

/// The handle inside an answer, taken out of its borrow.
pub open spec fn lent<H, E>(r: Result<&H, TelemetryError<E>>) -> Result<H, TelemetryError<E>> {
    match r {
        Ok(handle) => Ok(*handle),
        Err(error) => Err(error),
    }
}

impl<H> Registry<H> {
    /// Every registry binds each name at most once.
    #[verifier::type_invariant]
    spec fn inv(self) -> bool {
        distinct(self@)
    }

    /// An empty registry: no instrument has been created yet.
    pub fn new() -> (r: Self)
        ensures
            r@ == Seq::<Binding<H>>::empty(),
    {
        Registry { entries: Vec::new() }
    }

    /// The number of instruments created so far.
    pub fn len(&self) -> (n: usize)
        ensures
            n == self@.len(),
            distinct(self@),
    {
        proof {
            use_type_invariant(self);
        }
        self.entries.len()
    }

    /// The slot in which `name` is bound, if it is bound.
    pub fn slot_of(&self, name: &str) -> (found: Option<usize>)
        ensures
            distinct(self@),
            found is Some <==> bound(self@, name@),
            found matches Some(i) ==> i == slot_of(self@, name@),
    {
        proof {
            use_type_invariant(self);
        }
        let mut i: usize = 0;
        while i < self.entries.len()
            invariant
                i <= self.entries.len(),
                distinct(self@),
                forall|k: int| 0 <= k < i ==> !bound_at(self@, name@, k),
            decreases self.entries.len() - i,
        {
            if same_name(self.entries[i].name, name) {
                proof {
                    lemma_slot_is_unique(self@, name@, i as int);
                }
                return Some(i);
            }
            i += 1;
        }
        None
    }

    /// The handle that `name` is bound to, if it is bound. Nothing is created.
    pub fn get(&self, name: &str) -> (found: Option<&H>)
        ensures
            distinct(self@),
            found is Some <==> bound(self@, name@),
            found matches Some(handle) ==> *handle == handle_of(self@, name@),
    {
        match self.slot_of(name) {
            Some(i) => Some(&self.entries[i].handle),
            None => None,
        }
    }

    /// Settles a request for `name`, given what the backend returned when it was
    /// asked to create the instrument.
    ///
    /// A name that is already bound keeps its handle, and `created` is dropped. An
    /// unbound name is bound to the created handle in the next free slot. If the
    /// backend failed, the failure is returned and no binding is made, so that a
    /// later request may try again.
    pub fn settle<E>(&mut self, name: &'static str, created: Result<H, E>) -> (r: Result<&H, TelemetryError<E>>)
        ensures
            distinct(final(self)@),
            final(self)@ == after_request(old(self)@, name@, created),
            lent(r) == answer(old(self)@, name@, created),
    {
        proof {
        }
        match self.slot_of(name) {
            Some(i) => Ok(&self.entries[i].handle),
            None => match created {
                Ok(handle) => {
                    let mut entries: Vec<Entry<H>> = Vec::new();
                    std::mem::swap(&mut entries, &mut self.entries);
                    let n: usize = entries.len();
                    entries.push(Entry { name, handle });
                    proof {
                        assert(bindings_of(entries@) =~= old(self)@.push(Binding { name: name@, handle }));
                        lemma_request_keeps_distinct(old(self)@, name@, created);
                    }
                    self.entries = entries;
                    Ok(&self.entries[n].handle)
                },
                Err(cause) => Err(TelemetryError::BackendCreationFailure(cause)),
            },
        }
    }

    /// The handle for `name`, created through `create` if this is the first
    /// request for that name.
    ///
    /// A bound name is answered from the registry and `create` is not called. For
    /// an unbound name `create` is called once, with `name`, and what it returns is
    /// settled as in [`Registry::settle`].
    pub fn get_or_create_counter<E, F>(&mut self, name: &'static str, create: F) -> (r: Result<&H, TelemetryError<E>>)
        where F: FnOnce(&'static str) -> Result<H, E>
        requires
            !bound(old(self)@, name@) ==> create.requires((name,)),
        ensures
            distinct(final(self)@),
            bound(old(self)@, name@) ==> final(self)@ == old(self)@,
            bound(old(self)@, name@) ==> lent(r) == Ok::<H, TelemetryError<E>>(handle_of(old(self)@, name@)),
            !bound(old(self)@, name@) ==> exists|created: Result<H, E>|
                #[trigger] create.ensures((name,), created)
                    && final(self)@ == after_request(old(self)@, name@, created)
                    && lent(r) == answer(old(self)@, name@, created),
    {
        match self.slot_of(name) {
            Some(i) => Ok(&self.entries[i].handle),
            None => {
                let created = create(name);
                self.settle(name, created)
            },
        }
    }

    /// Records `value` under `name`, tagged with `attributes`.
    ///
    /// The instrument is resolved as in [`Registry::get_or_create_counter`]. If
    /// that fails, `append` is not called and the creation failure is returned. Else
    /// `append` is called once, on the handle bound to `name`, with `value` and
    /// `attributes` as given. A failed addition is returned to the caller and
    /// leaves the binding in place.
    pub fn record<V, A, E, C, R>(
        &mut self,
        name: &'static str,
        value: V,
        attributes: A,
        create: C,
        append: R,
    ) -> (r: Result<(), TelemetryError<E>>)
        where C: FnOnce(&'static str) -> Result<H, E>, R: FnOnce(&H, V, A) -> Result<(), E>
        requires
            bound(old(self)@, name@) ==> append.requires((&handle_of(old(self)@, name@), value, attributes)),
            !bound(old(self)@, name@) ==> create.requires((name,)),
            !bound(old(self)@, name@) ==> forall|handle: H| #[trigger]
                create.ensures((name,), Ok(handle)) ==> append.requires((&handle, value, attributes)),
        ensures
            distinct(final(self)@),
            bound(old(self)@, name@) ==> final(self)@ == old(self)@,
            bound(old(self)@, name@) ==> exists|added: Result<(), E>|
                #[trigger] append.ensures((&handle_of(old(self)@, name@), value, attributes), added)
                    && r == addition_answer(added),
            !bound(old(self)@, name@) ==> exists|created: Result<H, E>|
                #[trigger] create.ensures((name,), created)
                    && final(self)@ == after_request(old(self)@, name@, created)
                    && (created matches Err(cause) ==> r == Err::<(), TelemetryError<E>>(
                        TelemetryError::BackendCreationFailure(cause),
                    ))
                    && (addition(old(self)@, name@, created, value, attributes) matches Some(a)
                        ==> exists|added: Result<(), E>|
                        #[trigger] append.ensures((&a.handle, a.value, a.attributes), added)
                            && r == addition_answer(added)),
    {
        let resolved = self.get_or_create_counter(name, create);
        match resolved {
            Ok(handle) => {
                let added = append(handle, value, attributes);
                proof {
                    if !bound(old(self)@, name@) {
                        let created = choose|created: Result<H, E>|
                            #[trigger] create.ensures((name,), created)
                                && final(self)@ == after_request(old(self)@, name@, created)
                                && lent(resolved) == answer(old(self)@, name@, created);
                        let a = addition(old(self)@, name@, created, value, attributes)->Some_0;
                        assert(append.ensures((&a.handle, a.value, a.attributes), added));
                    }
                }
                match added {
                    Ok(_) => Ok(()),
                    Err(cause) => Err(TelemetryError::BackendAdditionFailure(cause)),
                }
            },
            Err(error) => Err(error),
        }
    }
}

} // verus!
