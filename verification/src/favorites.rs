//! The user's favorite sounds.

use vstd::prelude::*;

use std::collections::HashSet;

use crate::EntryId;

verus! {

broadcast use vstd::std_specs::hash::group_hash_axioms;

/// The id of the sound that is a favorite before the user picks any ("Fire In The Hole").
pub const FIRE_IN_THE_HOLE: EntryId = 4451;

/// The ids of the user's favorite sounds.
#[derive(Debug)]
pub struct Favorites(pub HashSet<EntryId>);

impl View for Favorites {
    type V = Set<EntryId>;

    open spec fn view(&self) -> Set<EntryId> {
        self.0@
    }
}

/// The favorites after toggling `id`: added when it was not one, removed when it was.
pub open spec fn toggled(favorites: Set<EntryId>, id: EntryId) -> Set<EntryId> {
    if favorites.contains(id) {
        favorites.remove(id)
    } else {
        favorites.insert(id)
    }
}

impl Default for Favorites {
    /// Only "Fire In The Hole" is a favorite.
    fn default() -> (r: Favorites)
        ensures
            r@ == set![FIRE_IN_THE_HOLE],
    {
        let mut favorites: HashSet<EntryId> = HashSet::new();
        favorites.insert(FIRE_IN_THE_HOLE);
        assert(favorites@ =~= set![FIRE_IN_THE_HOLE]);
        Favorites(favorites)
    }
}

impl Favorites {
    /// The favorites read from the favorites file, or the default ones when it could not be
    /// read (`loaded` is `None`).
    pub fn load_or_default(loaded: Option<Favorites>) -> (r: Favorites)
        ensures
            r@ == match loaded {
                Some(f) => f@,
                None => set![FIRE_IN_THE_HOLE],
            },
    {
        match loaded {
            Some(f) => f,
            None => Favorites::default(),
        }
    }

    /// Whether the sound `id` is a favorite.
    pub fn has_favorite(&self, id: EntryId) -> (r: bool)
        ensures
            r == self@.contains(id),
    {
        self.0.contains(&id)
    }

    /// Adds `id` when it is not a favorite and removes it when it is.
    fn toggle(&mut self, id: EntryId)
        ensures
            final(self)@ == toggled(old(self)@, id),
    {
        if !self.0.insert(id) {
            self.0.remove(&id);
        }
        assert(self@ =~= toggled(old(self)@, id));
    }

    /// Toggles `id` and saves the favorites with `try_save`; when saving fails, the toggle is
    /// undone, so the favorites in memory stay those on disk. Returns whether saving worked:
    /// what `try_save` answered when it was given the toggled favorites.
    pub fn toggle_favorite<F: FnOnce(&Favorites) -> bool>(&mut self, id: EntryId, try_save: F) -> (saved: bool)
        requires
            forall|f: &Favorites| call_requires(try_save, (f,)),
        ensures
            exists|f: &Favorites| f@ == toggled(old(self)@, id) && #[trigger] call_ensures(try_save, (f,), saved),
            saved ==> final(self)@ == toggled(old(self)@, id),
            !saved ==> final(self)@ == old(self)@,
    {
        self.toggle(id);
        let saved = try_save(&*self);
        assert(call_ensures(try_save, (&*self,), saved));
        if !saved {
            self.toggle(id);
            proof { lemma_toggle_twice(old(self)@, id); }
        }
        saved
    }
}

/// Law: toggling the same sound twice leaves the favorites as they were.
pub proof fn lemma_toggle_twice(favorites: Set<EntryId>, id: EntryId)
    ensures
        toggled(toggled(favorites, id), id) == favorites,
{
    assert(toggled(toggled(favorites, id), id) =~= favorites);
}

/// Law: toggling a sound flips whether it is a favorite and leaves every other sound as it was.
pub proof fn lemma_toggle_flips(favorites: Set<EntryId>, id: EntryId, other: EntryId)
    ensures
        toggled(favorites, id).contains(id) == !favorites.contains(id),
        other != id ==> toggled(favorites, id).contains(other) == favorites.contains(other),
{
}

} // verus!
