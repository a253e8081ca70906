//! A registry of shared items, each under a fresh random identifier.

use vstd::prelude::*;
use vstd::string::*;
use std::sync::Arc;
use crate::collections::{StringMap, map_of_entries};

verus! {

/// A failure to register an item.
#[derive(Debug, PartialEq, Eq)]
pub enum RegistrationManagerError {
    RetryableFailure(),
}

impl RegistrationManagerError {
    /// The error's message.
    pub fn to_string(&self) -> (r: String)
        ensures
            r@ == "Failed to insert item"@,
    {
        String::from_str("Failed to insert item")
    }
}

/// The identifier of a registered item; handing it back to the manager
/// removes the item.
#[derive(Debug)]
pub struct Registration {
    id: String,
}

impl Registration {
    /// The identifier.
    pub closed spec fn id_view(self) -> Seq<char> {
        self.id@
    }

    pub fn new(id: String) -> (r: Registration)
        ensures
            r.id_view() == id@,
    {
        Registration { id }
    }
}

/// A fresh random identifier: uuid's `Uuid::new_v4`, in its hyphenated text
/// form.  Nothing is claimed of it: it is random.
#[verifier::external_body]
fn new_registration_id() -> String {
    uuid::Uuid::new_v4().to_string()
}

/// Registered items by identifier.
pub struct ArcRegistrationManager<T> {
    registrations: StringMap<Arc<T>>,
}

impl<T> ArcRegistrationManager<T> {
    /// The registered items by identifier.
    pub closed spec fn items(self) -> Map<Seq<char>, Arc<T>> {
        self.registrations@
    }

    /// The identifiers in the order in which they were registered.
    pub closed spec fn registration_order(self) -> Seq<Seq<char>> {
        self.registrations.entries_view().map_values(|e: (String, Arc<T>)| e.0@)
    }

    pub fn new() -> (r: ArcRegistrationManager<T>)
        ensures
            r.items() == Map::<Seq<char>, Arc<T>>::empty(),
    {
        ArcRegistrationManager { registrations: StringMap::new() }
    }

    /// Registers `item` under a fresh identifier.  In the unlikely case that
    /// the identifier is taken, fails, and the item that had the identifier
    /// is removed, as handing back its registration would remove it.
    pub fn register(&mut self, item: Arc<T>) -> (r: Result<Registration, RegistrationManagerError>)
        ensures
            match r {
                Ok(registration) => !old(self).items().contains_key(registration.id_view()) && final(self).items()
                    == old(self).items().insert(registration.id_view(), item),
                Err(RegistrationManagerError::RetryableFailure()) => exists|id: Seq<char>|
                    old(self).items().contains_key(id) && final(self).items() == old(self).items().remove(id),
            },
    {
        let id = new_registration_id();
        let registration = Registration::new(id.clone());
        match self.perform_registration(id, item) {
            Ok(()) => Ok(registration),
            Err(e) => {
                self.unregister(&registration);
                Err(e)
            },
        }
    }

    /// A snapshot of the registered items, in the order they were registered:
    /// one for each registration, each identifier once.
    pub fn get_registered_items(&self) -> (r: Vec<Arc<T>>)
        ensures
            r@.len() == self.items().len(),
            self.registration_order().no_duplicates(),
            forall|id: Seq<char>| #[trigger] self.items().contains_key(id) ==> self.registration_order().contains(id),
            r@.len() == self.registration_order().len(),
            forall|i: int| 0 <= i < r@.len() ==> self.items().contains_key(#[trigger] self.registration_order()[i])
                && r@[i] == self.items()[self.registration_order()[i]],
    {
        let entries = self.registrations.entries();
        let mut items: Vec<Arc<T>> = Vec::new();
        let mut i: usize = 0;
        while i < entries.len()
            invariant
                i <= entries@.len(),
                entries@ == self.registrations.entries_view(),
                items@.len() == i,
                forall|j: int| 0 <= j < i ==> #[trigger] items@[j] == entries@[j].1,
            decreases entries@.len() - i,
        {
            items.push(entries[i].1.clone());
            i = i + 1;
        }
        proof {
            assert forall|j: int| 0 <= j < items@.len() implies self.items().contains_key(
                #[trigger] self.registration_order()[j],
            ) && items@[j] == self.items()[self.registration_order()[j]] by {
                crate::collections::lemma_value_at(entries@, j);
                assert(self.registration_order()[j] == entries@[j].0@);
            }
            assert forall|a: int, b: int|
                0 <= a < self.registration_order().len() && 0 <= b < self.registration_order().len() && a != b implies self.registration_order()[a]
                != self.registration_order()[b] by {
                assert(self.registration_order()[a] == entries@[a].0@);
                assert(self.registration_order()[b] == entries@[b].0@);
            }
            assert forall|id: Seq<char>| #[trigger] self.items().contains_key(id) implies self.registration_order().contains(id) by {
                assert(crate::collections::has_key(entries@, id));
                let k = choose|k: int| 0 <= k < entries@.len() && #[trigger] entries@[k].0@ == id;
                assert(self.registration_order()[k] == id);
            }
        }
        items
    }

    /// Removes the item registered under `registration`.
    pub fn unregister(&mut self, registration: &Registration)
        ensures
            final(self).items() == old(self).items().remove(registration.id_view()),
    {
        let _ = self.registrations.remove(&registration.id);
    }

    /// Registers `item` under `id`, unless an item has it already.
    pub fn perform_registration(&mut self, id: String, item: Arc<T>) -> (r: Result<(), RegistrationManagerError>)
        ensures
            match r {
                Ok(()) => !old(self).items().contains_key(id@) && final(self).items() == old(self).items().insert(id@, item),
                Err(RegistrationManagerError::RetryableFailure()) => final(self).items() == old(self).items() && old(
                    self,
                ).items().contains_key(id@),
            },
    {
        if self.registrations.contains_key(&id) {
            return Err(RegistrationManagerError::RetryableFailure());
        }
        let _ = self.registrations.insert(id, item);
        Ok(())
    }
}

} // verus!
