//! Key-state tracking: which logical keys are held, and which changed
//! during the current tick. Keys are identified by a plain integer code.

use vstd::prelude::*;

verus! {

/// The state of one key: held down or not, and whether that changed since
/// the last tick was cleared.
#[derive(Clone, Copy, Debug, PartialEq, Eq, Structural)]
pub struct KeyState {
    pub pressed: bool,
    pub changed: bool,
}

/// The state of a key that was never touched.
pub open spec fn spec_key_default() -> KeyState {
    KeyState { pressed: false, changed: false }
}

/// The state recorded for `key` in the list, first entry winning; the
/// untouched default when no entry has that key.
pub open spec fn spec_get(s: Seq<(u64, KeyState)>, key: u64) -> KeyState
    decreases s.len(),
{
    if s.len() == 0 {
        spec_key_default()
    } else if s[0].0 == key {
        s[0].1
    } else {
        spec_get(s.drop_first(), key)
    }
}

/// Appending an entry for an absent key makes it that key's state and
/// leaves every other lookup unchanged.
proof fn lemma_get_push(s: Seq<(u64, KeyState)>, key: u64, v: KeyState, k2: u64)
    requires
        forall|i: int| 0 <= i < s.len() ==> (#[trigger] s[i]).0 != key,
    ensures
        spec_get(s.push((key, v)), k2) == if k2 == key {
            v
        } else {
            spec_get(s, k2)
        },
    decreases s.len(),
{
    if s.len() == 0 {
        assert(s.push((key, v)).len() == 1);
        assert(s.push((key, v))[0] == (key, v));
        assert(s.push((key, v)).drop_first().len() == 0);
        assert(spec_get(s.push((key, v)).drop_first(), k2) == spec_key_default());
    } else {
        assert(s.push((key, v)).drop_first() =~= s.drop_first().push((key, v)));
        lemma_get_push(s.drop_first(), key, v, k2);
    }
}

/// Updating the first entry holding `key` rewrites that key's state and
/// leaves every other lookup unchanged.
proof fn lemma_get_update(s: Seq<(u64, KeyState)>, i: int, v: KeyState, k2: u64)
    requires
        0 <= i < s.len(),
        forall|j: int| 0 <= j < i ==> (#[trigger] s[j]).0 != s[i].0,
    ensures
        spec_get(s.update(i, (s[i].0, v)), k2) == if k2 == s[i].0 {
            v
        } else {
            spec_get(s, k2)
        },
    decreases i,
{
    let t = s.update(i, (s[i].0, v));
    if i == 0 {
        assert(t[0] == (s[0].0, v));
        if k2 != s[0].0 {
            assert(t.drop_first() =~= s.drop_first());
        }
    } else {
        assert(t[0] == s[0]);
        assert(t.drop_first() =~= s.drop_first().update(i - 1, (s[i].0, v)));
        assert(s.drop_first()[i - 1] == s[i]);
        lemma_get_update(s.drop_first(), i - 1, v, k2);
    }
}

/// Some entry in the list holds `key`.
pub open spec fn spec_has(s: Seq<(u64, KeyState)>, key: u64) -> bool {
    exists|i: int| 0 <= i < s.len() && (#[trigger] s[i]).0 == key
}

/// A queryable snapshot of every key's state.
pub struct State {
    keys: Vec<(u64, KeyState)>,
}

impl State {
    /// The recorded states, as the lookup list.
    pub closed spec fn entries(&self) -> Seq<(u64, KeyState)> {
        self.keys@
    }

    /// The state of one key; untouched keys read as the default.
    pub fn get_key_state(&self, key: u64) -> (r: KeyState)
        ensures
            r == spec_get(self.entries(), key),
    {
        let n = self.keys.len();
        let mut i: usize = 0;
        proof {
            assert(self.keys@.skip(0) =~= self.keys@);
        }
        while i < n
            invariant
                i <= n,
                n == self.keys@.len(),
                spec_get(self.keys@, key) == spec_get(self.keys@.skip(i as int), key),
            decreases n - i,
        {
            let pair = self.keys[i];
            proof {
                assert(self.keys@.skip(i as int)[0] == self.keys@[i as int]);
                assert(self.keys@.skip(i as int).drop_first() =~= self.keys@.skip(i as int + 1));
            }
            if pair.0 == key {
                return pair.1;
            }
            i += 1;
        }
        proof {
            assert(self.keys@.skip(n as int).len() == 0);
        }
        KeyState { pressed: false, changed: false }
    }

    /// Whether the key is held down.
    pub fn is_key_pressed(&self, key: u64) -> (r: bool)
        ensures
            r == spec_get(self.entries(), key).pressed,
    {
        self.get_key_state(key).pressed
    }

    /// Whether the key went down this tick.
    pub fn is_key_clicked(&self, key: u64) -> (r: bool)
        ensures
            r == (spec_get(self.entries(), key).pressed && spec_get(self.entries(), key).changed),
    {
        let state = self.get_key_state(key);
        state.pressed && state.changed
    }

    /// Whether the key came up this tick.
    pub fn is_key_released(&self, key: u64) -> (r: bool)
        ensures
            r == (!spec_get(self.entries(), key).pressed && spec_get(self.entries(), key).changed),
    {
        let state = self.get_key_state(key);
        !state.pressed && state.changed
    }
}

/// The input tracker: receives key transitions and hands out the snapshot.
pub struct Input {
    state: State,
}

/// Each key occurs at most once in the lookup list.
pub open spec fn keys_unique(s: Seq<(u64, KeyState)>) -> bool {
    forall|i: int, j: int|
        0 <= i < j < s.len() ==> (#[trigger] s[i]).0 != (#[trigger] s[j]).0
}

impl Input {
    /// The recorded states of the tracker.
    pub closed spec fn entries(&self) -> Seq<(u64, KeyState)> {
        self.state.entries()
    }

    /// The tracker's internal list never records a key twice.
    pub closed spec fn wf(&self) -> bool {
        keys_unique(self.state.keys@)
    }

    /// A tracker with no key touched.
    pub fn new() -> (r: Input)
        ensures
            r.wf(),
            r.entries().len() == 0,
    {
        Input { state: State { keys: Vec::new() } }
    }

    /// Record that `key` is now down (`new_pressed`) or up. The key's
    /// `changed` flag is set exactly when the transition flipped its held
    /// state; a key never seen before counts as flipped either way, since
    /// the tracker seeds it with the opposite state.
    pub fn on_key_change(&mut self, key: u64, new_pressed: bool)
        requires
            old(self).wf(),
        ensures
            final(self).wf(),
            spec_get(final(self).entries(), key) == (KeyState {
                pressed: new_pressed,
                changed: if spec_has(old(self).entries(), key) {
                    spec_get(old(self).entries(), key).pressed != new_pressed
                } else {
                    true
                },
            }),
            forall|k2: u64|
                k2 != key ==> #[trigger] spec_get(final(self).entries(), k2) == spec_get(
                    old(self).entries(),
                    k2,
                ),
    {
        let n = self.state.keys.len();
        let mut i: usize = 0;
        while i < n
            invariant
                i <= n,
                n == self.state.keys@.len(),
                self.state.keys@ == old(self).state.keys@,
                keys_unique(self.state.keys@),
                forall|j: int| 0 <= j < i ==> (#[trigger] self.state.keys@[j]).0 != key,
            decreases n - i,
        {
            let pair = self.state.keys[i];
            if pair.0 == key {
                let updated = KeyState {
                    pressed: new_pressed,
                    changed: pair.1.pressed != new_pressed,
                };
                proof {
                    let s = self.state.keys@;
                    assert(spec_has(s, key));
                    lemma_get_first_occurrence(s, i as int);
                    assert(spec_get(s, key) == s[i as int].1) by {
                        lemma_get_at_first(s, i as int);
                    }
                    assert forall|k2: u64| true implies spec_get(
                        s.update(i as int, (key, updated)),
                        k2,
                    ) == if k2 == key {
                        updated
                    } else {
                        spec_get(s, k2)
                    } by {
                        lemma_get_update(s, i as int, updated, k2);
                    }
                }
                let ghost prev = self.state.keys@;
                self.state.keys.set(i, (key, updated));
                proof {
                    let t = self.state.keys@;
                    assert forall|i2: int, j2: int| 0 <= i2 < j2 < t.len() implies (
                    #[trigger] t[i2]).0 != (#[trigger] t[j2]).0 by {
                        assert(t[i2].0 == prev[i2].0);
                        assert(t[j2].0 == prev[j2].0);
                    }
                }
                return ;
            }
            i += 1;
        }
        let entry = KeyState { pressed: new_pressed, changed: true };
        proof {
            let s = self.state.keys@;
            assert(!spec_has(s, key));
            assert forall|k2: u64| true implies spec_get(s.push((key, entry)), k2) == if k2 == key {
                entry
            } else {
                spec_get(s, k2)
            } by {
                lemma_get_push(s, key, entry, k2);
            }
        }
        self.state.keys.push((key, entry));
        proof {
            assert(keys_unique(self.state.keys@)) by {
                let s = self.state.keys@;
                assert forall|i2: int, j2: int| 0 <= i2 < j2 < s.len() implies (
                #[trigger] s[i2]).0 != (#[trigger] s[j2]).0 by {
                    if j2 == s.len() - 1 {
                        assert(s[i2] == old(self).state.keys@[i2]);
                    }
                }
            }
        }
    }

    /// Clear every key's `changed` flag, keeping what is held down.
    pub fn clear_changed(&mut self)
        requires
            old(self).wf(),
        ensures
            final(self).wf(),
            final(self).entries().len() == old(self).entries().len(),
            forall|i: int|
                0 <= i < old(self).entries().len() ==> #[trigger] final(self).entries()[i] == (
                    old(self).entries()[i].0,
                    KeyState { pressed: old(self).entries()[i].1.pressed, changed: false },
                ),
    {
        let n = self.state.keys.len();
        let mut i: usize = 0;
        while i < n
            invariant
                i <= n,
                n == self.state.keys@.len(),
                self.state.keys@.len() == old(self).state.keys@.len(),
                forall|j: int|
                    i <= j < n ==> #[trigger] self.state.keys@[j] == old(self).state.keys@[j],
                forall|j: int|
                    0 <= j < i ==> #[trigger] self.state.keys@[j] == (
                        old(self).state.keys@[j].0,
                        KeyState {
                            pressed: old(self).state.keys@[j].1.pressed,
                            changed: false,
                        },
                    ),
            decreases n - i,
        {
            let pair = self.state.keys[i];
            self.state.keys.set(i, (pair.0, KeyState { pressed: pair.1.pressed, changed: false }));
            i += 1;
        }
        proof {
            assert(keys_unique(self.state.keys@));
        }
    }

    /// The queryable snapshot.
    pub fn get_state(&self) -> (r: &State)
        ensures
            r.entries() == self.entries(),
    {
        &self.state
    }
}

/// In a unique list, the entry at `i` is the first with its key.
proof fn lemma_get_first_occurrence(s: Seq<(u64, KeyState)>, i: int)
    requires
        keys_unique(s),
        0 <= i < s.len(),
    ensures
        forall|j: int| 0 <= j < i ==> (#[trigger] s[j]).0 != s[i].0,
{
}

/// When the entry at `i` is the first with its key, the lookup finds it.
proof fn lemma_get_at_first(s: Seq<(u64, KeyState)>, i: int)
    requires
        0 <= i < s.len(),
        forall|j: int| 0 <= j < i ==> (#[trigger] s[j]).0 != s[i].0,
    ensures
        spec_get(s, s[i].0) == s[i].1,
    decreases i,
{
    if i > 0 {
        assert(s.drop_first()[i - 1] == s[i]);
        lemma_get_at_first(s.drop_first(), i - 1);
    }
}

/// A key no entry holds reads as the default.
proof fn lemma_get_absent(s: Seq<(u64, KeyState)>, key: u64)
    requires
        forall|i: int| 0 <= i < s.len() ==> (#[trigger] s[i]).0 != key,
    ensures
        spec_get(s, key) == spec_key_default(),
    decreases s.len(),
{
    if s.len() > 0 {
        lemma_get_absent(s.drop_first(), key);
    }
}

} // verus!
