//! Secret key sequences: each one fires when its keys are pressed one after the other.
//!
//! Keys are given by number; the caller reads the keyboard, tells each sequence whether the
//! key it waits for is down, and runs the action of every sequence that fires.

use vstd::prelude::*;

verus! {

/// A key sequence and how far it has been typed: `index` is the key waited for, and `armed`
/// tells whether the sequence is ready to take that key going down.
#[derive(Debug)]
pub struct KonamiString {
    keys: Vec<u32>,
    index: usize,
    armed: bool,
}

/// The progress of a sequence of `len` keys after one frame in which the key it waits for was
/// down (`down`) or not: returns the new index, the new armed flag, and whether the sequence
/// fired. Nothing happens unless the armed flag equals `down`. An unarmed sequence seeing its
/// key up becomes armed; an armed one seeing its key down moves to the next key, fires and
/// starts over after the last key, and stays armed.
pub open spec fn konami_step(len: nat, index: nat, armed: bool, down: bool) -> (nat, bool, bool) {
    if armed != down {
        (index, armed, false)
    } else if !armed {
        (index, true, false)
    } else if index + 1 >= len {
        (0, true, true)
    } else {
        ((index + 1) as nat, true, false)
    }
}

impl KonamiString {
    /// The keys of the sequence.
    pub closed spec fn keys(&self) -> Seq<u32> {
        self.keys@
    }

    /// The position of the key waited for.
    pub closed spec fn position(&self) -> nat {
        self.index as nat
    }

    /// Whether the sequence is ready to take its key going down.
    pub closed spec fn is_armed(&self) -> bool {
        self.armed
    }

    /// A sequence is never empty and always waits for one of its keys.
    pub closed spec fn wf(&self) -> bool {
        0 <= self.index < self.keys@.len()
    }

    /// A new sequence of `keys`, waiting for the first key, not armed. An empty sequence is
    /// refused.
    pub fn new(keys: Vec<u32>) -> (r: KonamiString)
        requires
            keys.len() > 0,
        ensures
            r.wf(),
            r.keys() == keys@,
            r.position() == 0,
            r.position() < r.keys().len(),
            !r.is_armed(),
    {
        KonamiString { keys, index: 0, armed: false }
    }

    /// The key the sequence waits for.
    pub fn current_key(&self) -> (r: u32)
        requires
            self.wf(),
        ensures
            r == self.keys()[self.position() as int],
    {
        self.keys[self.index]
    }

    /// Takes one frame in which the key waited for was down or not; returns whether the
    /// sequence fired, that is whether its action is to run now.
    pub fn update(&mut self, key_down: bool) -> (fired: bool)
        requires
            old(self).wf(),
        ensures
            final(self).wf(),
            final(self).keys() == old(self).keys(),
            final(self).position() < final(self).keys().len(),
            (final(self).position(), final(self).is_armed(), fired) == konami_step(
                old(self).keys().len(),
                old(self).position(),
                old(self).is_armed(),
                key_down,
            ),
    {
        let mut fired = false;
        if self.armed == key_down {
            if self.armed {
                assert(self.index < self.keys.len());
                self.index = self.index + 1;
                if self.index >= self.keys.len() {
                    self.index = 0;
                    fired = true;
                }
                self.armed = false;
            }
            self.armed = !self.armed;
        }
        fired
    }

    /// Whether two sequences have the same keys.
    pub fn same_keys(&self, other: &KonamiString) -> (r: bool)
        ensures
            r == (self.keys() == other.keys()),
    {
        if self.keys.len() != other.keys.len() {
            return false;
        }
        let mut i: usize = 0;
        while i < self.keys.len()
            invariant
                self.keys.len() == other.keys.len(),
                i <= self.keys.len(),
                forall|j: int| 0 <= j < i ==> self.keys@[j] == other.keys@[j],
            decreases self.keys.len() - i,
        {
            if self.keys[i] != other.keys[i] {
                return false;
            }
            i = i + 1;
        }
        assert(self.keys@ =~= other.keys@);
        true
    }
}

/// Whether `after` is `before` after one frame with the keys in `keys_down` down, having
/// fired or not as `fired` says.
pub open spec fn stepped(before: KonamiString, after: KonamiString, fired: bool, keys_down: Seq<u32>) -> bool {
    &&& after.keys() == before.keys()
    &&& (after.position(), after.is_armed(), fired) == konami_step(
        before.keys().len(),
        before.position(),
        before.is_armed(),
        keys_down.contains(before.keys()[before.position() as int]),
    )
}

/// The secret sequences of the application, each with different keys.
#[derive(Debug)]
pub struct Konami {
    konami: Vec<KonamiString>,
}

impl Konami {
    /// The sequences, in the order they were added.
    pub closed spec fn sequences(&self) -> Seq<KonamiString> {
        self.konami@
    }

    /// Every sequence is well formed and no two have the same keys.
    pub closed spec fn wf(&self) -> bool {
        &&& forall|i: int| 0 <= i < self.konami@.len() ==> #[trigger] self.konami@[i].wf()
        &&& forall|i: int, j: int|
            0 <= i < j < self.konami@.len() ==> self.konami@[i].keys() != self.konami@[j].keys()
    }

    /// No sequences yet.
    pub fn new() -> (r: Konami)
        ensures
            r.wf(),
            r.sequences().len() == 0,
    {
        Konami { konami: Vec::new() }
    }

    /// Adds a sequence unless one with the same keys is there already.
    pub fn push(&mut self, konami: KonamiString)
        requires
            old(self).wf(),
            konami.wf(),
        ensures
            final(self).wf(),
            (exists|i: int| 0 <= i < old(self).sequences().len() && #[trigger] old(self).sequences()[i].keys() == konami.keys())
                ==> final(self).sequences() == old(self).sequences(),
            !(exists|i: int| 0 <= i < old(self).sequences().len() && #[trigger] old(self).sequences()[i].keys() == konami.keys())
                ==> final(self).sequences() == old(self).sequences().push(konami),
    {
        let mut i: usize = 0;
        while i < self.konami.len()
            invariant
                old(self).wf(),
                i <= self.konami.len(),
                self.konami@ == old(self).konami@,
                forall|j: int| 0 <= j < i ==> self.konami@[j].keys() != konami.keys(),
            decreases self.konami.len() - i,
        {
            if self.konami[i].same_keys(&konami) {
                assert(old(self).sequences()[i as int].keys() == konami.keys());
                return;
            }
            i = i + 1;
        }
        self.konami.push(konami);
        assert forall|a: int, b: int| 0 <= a < b < self.konami@.len() implies self.konami@[a].keys() != self.konami@[b].keys() by {
            if b == self.konami@.len() - 1 {
                assert(old(self).konami@[a].keys() != konami.keys());
            } else {
                assert(old(self).konami@[a] == self.konami@[a]);
                assert(old(self).konami@[b] == self.konami@[b]);
            }
        }
        assert forall|a: int| 0 <= a < self.konami@.len() implies #[trigger] self.konami@[a].wf() by {
            if a < old(self).konami@.len() {
                assert(old(self).konami@[a] == self.konami@[a]);
            }
        }
    }

    /// Takes one frame in which the keys in `keys_down` were down: every sequence is told
    /// whether the key it waits for is among them. Returns, for each sequence in order,
    /// whether it fired.
    pub fn update(&mut self, keys_down: &[u32]) -> (fired: Vec<bool>)
        requires
            old(self).wf(),
        ensures
            final(self).wf(),
            final(self).sequences().len() == old(self).sequences().len(),
            fired@.len() == old(self).sequences().len(),
            forall|i: int|
                0 <= i < old(self).sequences().len() ==> #[trigger] stepped(
                    old(self).sequences()[i],
                    final(self).sequences()[i],
                    fired@[i],
                    keys_down@,
                ),
    {
        let ghost start = self.konami@;
        let mut old_list: Vec<KonamiString> = Vec::new();
        std::mem::swap(&mut old_list, &mut self.konami);
        let mut fired: Vec<bool> = Vec::new();
        let mut new_list: Vec<KonamiString> = Vec::new();
        let mut i: usize = 0;
        let n = old_list.len();
        while i < n
            invariant
                n == old_list.len(),
                old_list@ == start,
                i <= n,
                new_list@.len() == i,
                fired@.len() == i,
                forall|j: int| 0 <= j < n ==> #[trigger] start[j].wf(),
                forall|a: int, b: int| 0 <= a < b < n ==> start[a].keys() != start[b].keys(),
                forall|j: int| 0 <= j < i ==> #[trigger] new_list@[j].wf(),
                forall|j: int| 0 <= j < i ==> #[trigger] stepped(start[j], new_list@[j], fired@[j], keys_down@),
            decreases n - i,
        {
            assert(start[i as int].wf());
            let mut sequence = old_list[i].clone_state();
            let key = sequence.current_key();
            let down = contains_key(keys_down, key);
            let ghost before_seq = sequence;
            let f = sequence.update(down);
            let ghost before_list = new_list@;
            let ghost before_fired = fired@;
            new_list.push(sequence);
            fired.push(f);
            assert(new_list@ == before_list.push(sequence));
            assert(fired@ == before_fired.push(f));
            assert(key == start[i as int].keys()[start[i as int].position() as int]);
            assert(stepped(start[i as int], sequence, f, keys_down@));
            assert forall|j: int| 0 <= j < i + 1 implies #[trigger] stepped(start[j], new_list@[j], fired@[j], keys_down@) && new_list@[j].wf() by {
                if j < i {
                    assert(new_list@[j] == before_list[j]);
                    assert(fired@[j] == before_fired[j]);
                }
            }
            i = i + 1;
        }
        let ghost result = new_list@;
        self.konami = new_list;
        assert(self.konami@ == result);
        assert forall|a: int| 0 <= a < self.konami@.len() implies #[trigger] self.konami@[a].wf() by {
            assert(result[a].wf());
        }
        assert forall|a: int, b: int| 0 <= a < b < self.konami@.len() implies self.konami@[a].keys() != self.konami@[b].keys() by {
            assert(start[a].keys() != start[b].keys());
            assert(stepped(start[a], result[a], fired@[a], keys_down@));
            assert(stepped(start[b], result[b], fired@[b], keys_down@));
        }
        fired
    }
}

/// A well-formed sequence has keys and waits for one of them.
pub proof fn lemma_konami_wf(k: KonamiString)
    requires
        k.wf(),
    ensures
        k.keys().len() > 0,
        k.position() < k.keys().len(),
{
}

impl KonamiString {
    /// A copy of the sequence with its progress.
    fn clone_state(&self) -> (r: KonamiString)
        ensures
            r.keys() == self.keys(),
            r.position() == self.position(),
            r.is_armed() == self.is_armed(),
            r.wf() == self.wf(),
    {
        KonamiString { keys: self.keys.clone(), index: self.index, armed: self.armed }
    }
}

/// Whether `k` is among `keys`.
fn contains_key(keys: &[u32], k: u32) -> (r: bool)
    ensures
        r == keys@.contains(k),
{
    let mut i: usize = 0;
    while i < keys.len()
        invariant
            i <= keys.len(),
            forall|j: int| 0 <= j < i ==> keys@[j] != k,
        decreases keys.len() - i,
    {
        if keys[i] == k {
            assert(keys@[i as int] == k);
            return true;
        }
        i = i + 1;
    }
    false
}

/// Law: pressing each key of a sequence in turn, with the key released in between, fires the
/// sequence exactly when its last key goes down, and only then.
pub proof fn lemma_konami_fires_at_end(len: nat, index: nat)
    requires
        index < len,
    ensures
        konami_step(len, index, false, false) == (index, true, false),
        konami_step(len, index, true, true).2 == (index + 1 == len),
        konami_step(len, index, true, true).0 < len,
{
}

} // verus!
