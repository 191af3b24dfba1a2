//! The confirmation state machine.
//!
//! One keypress at a time drives the state from `Prompting` to `Confirmed`
//! or `Cancelled`; every other key leaves it waiting.  The surrounding
//! binary owns the terminal: it switches raw mode on, reads key events,
//! feeds them through `step`, and restores the terminal on every exit path.

use vstd::prelude::*;

verus! {

/// A keypress as the confirmation loop sees it: the accept key, the cancel
/// key, or anything else.
#[derive(Clone, Copy, Debug, PartialEq, Eq, Structural)]
pub enum Key {
    Accept,
    Cancel,
    Other,
}

#[derive(Clone, Copy, Debug, PartialEq, Eq, Structural)]
pub enum ConfirmState {
    Prompting,
    Confirmed,
    Cancelled,
}

impl ConfirmState {
    /// Where one keypress takes the machine; a decided state absorbs.
    pub open spec fn spec_step(self, k: Key) -> ConfirmState {
        match self {
            ConfirmState::Prompting => match k {
                Key::Accept => ConfirmState::Confirmed,
                Key::Cancel => ConfirmState::Cancelled,
                Key::Other => ConfirmState::Prompting,
            },
            _ => self,
        }
    }

    pub open spec fn spec_decided(self) -> bool {
        self != ConfirmState::Prompting
    }

    pub fn step(self, k: Key) -> (r: ConfirmState)
        ensures
            r == self.spec_step(k),
    {
        match self {
            ConfirmState::Prompting => match k {
                Key::Accept => ConfirmState::Confirmed,
                Key::Cancel => ConfirmState::Cancelled,
                Key::Other => ConfirmState::Prompting,
            },
            ConfirmState::Confirmed => ConfirmState::Confirmed,
            ConfirmState::Cancelled => ConfirmState::Cancelled,
        }
    }

    pub fn decided(self) -> (r: bool)
        ensures
            r == self.spec_decided(),
    {
        match self {
            ConfirmState::Prompting => false,
            _ => true,
        }
    }
}

/// The state after a whole sequence of keypresses, from `start`.
pub open spec fn spec_run_keys(start: ConfirmState, keys: Seq<Key>) -> ConfirmState
    decreases keys.len(),
{
    if keys.len() == 0 {
        start
    } else {
        spec_run_keys(start.spec_step(keys[0]), keys.drop_first())
    }
}

/// Feeds a sequence of keypresses through the machine.
pub fn run_keys(start: ConfirmState, keys: &Vec<Key>) -> (r: ConfirmState)
    ensures
        r == spec_run_keys(start, keys@),
{
    let n = keys.len();
    let mut s = start;
    let mut i: usize = 0;
    proof {
        assert(keys@.skip(0) =~= keys@);
    }
    while i < n
        invariant
            0 <= i <= n,
            n == keys@.len(),
            spec_run_keys(start, keys@) == spec_run_keys(s, keys@.skip(i as int)),
        decreases n - i,
    {
        proof {
            assert(keys@.skip(i as int)[0] == keys@[i as int]);
            assert(keys@.skip(i as int).drop_first() =~= keys@.skip(i + 1));
        }
        s = s.step(keys[i]);
        i += 1;
    }
    proof {
        assert(keys@.skip(n as int) =~= Seq::<Key>::empty());
    }
    s
}

/// Law: unrecognized keys never change the state — a run of them leaves
/// the machine where it stood.
pub proof fn lemma_ignored_keys(start: ConfirmState, keys: Seq<Key>)
    requires
        forall|i: int| 0 <= i < keys.len() ==> keys[i] == Key::Other,
    ensures
        spec_run_keys(start, keys) == start,
    decreases keys.len(),
{
    if keys.len() > 0 {
        assert(keys[0] == Key::Other);
        let t = keys.drop_first();
        assert(forall|i: int| 0 <= i < t.len() ==> #[trigger] t[i] == Key::Other);
        lemma_ignored_keys(start.spec_step(keys[0]), t);
    }
}

/// Law: after any run of ignored keys, the accept key confirms and the
/// cancel key cancels.
pub proof fn lemma_first_decisive_key(keys: Seq<Key>, k: Key)
    requires
        forall|i: int| 0 <= i < keys.len() ==> keys[i] == Key::Other,
        k != Key::Other,
    ensures
        spec_run_keys(ConfirmState::Prompting, keys.push(k)) == if k == Key::Accept {
            ConfirmState::Confirmed
        } else {
            ConfirmState::Cancelled
        },
    decreases keys.len(),
{
    let w = keys.push(k);
    if keys.len() == 0 {
        assert(w[0] == k);
        assert(w.drop_first() =~= Seq::<Key>::empty());
        let s1 = ConfirmState::Prompting.spec_step(k);
        assert(spec_run_keys(s1, Seq::<Key>::empty()) == s1);
        assert(spec_run_keys(ConfirmState::Prompting, w) == s1);
    } else {
        assert(w[0] == keys[0]);
        assert(keys[0] == Key::Other);
        let t = keys.drop_first();
        assert(forall|i: int| 0 <= i < t.len() ==> #[trigger] t[i] == Key::Other);
        assert(w.drop_first() =~= t.push(k));
        lemma_first_decisive_key(t, k);
    }
}

} // verus!
