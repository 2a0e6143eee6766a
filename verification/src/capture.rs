//! Named capture slots filled by the step loop and read back by later steps.
//!
//! A capture key has the form `"step_id.capture_name"`. Every recorded value
//! is kept, oldest first; readers see the latest one.

use vstd::prelude::*;
use crate::text::{
    last_index, lemma_last_index_absent, lemma_last_index_at, lemma_last_index_push,
    lemma_last_index_range, opt_chars, push_str, strings_view,
};
use crate::time::Duration;

verus! {

/// A single named capture slot.
#[derive(Debug)]
pub struct CaptureSlot {
    /// All matched values, oldest first.
    pub history: Vec<String>,
}

impl View for CaptureSlot {
    type V = Seq<Seq<char>>;

    open spec fn view(&self) -> Seq<Seq<char>> {
        strings_view(self.history@)
    }
}

/// The latest value of a history, if it has one.
pub open spec fn latest_of(h: Seq<Seq<char>>) -> Option<Seq<char>> {
    if h.len() == 0 {
        None
    } else {
        Some(h.last())
    }
}

impl CaptureSlot {
    /// Latest matched value, or `None` if never matched.
    pub fn value(&self) -> (r: Option<&str>)
        ensures
            match r {
                Some(v) => latest_of(self@) == Some(v@),
                None => latest_of(self@) is None,
            },
    {
        let n = self.history.len();
        if n == 0 {
            None
        } else {
            Some(self.history[n - 1].as_str())
        }
    }
}

impl Clone for CaptureSlot {
    fn clone(&self) -> (c: Self)
        ensures
            c@ == self@,
    {
        let mut history: Vec<String> = Vec::new();
        let mut i: usize = 0;
        while i < self.history.len()
            invariant
                i <= self.history.len(),
                history@ == self.history@.take(i as int),
            decreases self.history.len() - i,
        {
            history.push(self.history[i].clone());
            proof {
                assert(self.history@.take(i + 1) =~= self.history@.take(i as int).push(
                    self.history@[i as int],
                ));
            }
            i = i + 1;
        }
        proof {
            assert(self.history@.take(self.history.len() as int) =~= self.history@);
        }
        CaptureSlot { history }
    }
}

impl Default for CaptureSlot {
    fn default() -> (c: Self)
        ensures
            c@.len() == 0,
    {
        CaptureSlot { history: Vec::new() }
    }
}

/// The keys of the slots, in order.
pub open spec fn keys_of(slots: Seq<(String, CaptureSlot)>) -> Seq<Seq<char>> {
    slots.map_values(|e: (String, CaptureSlot)| e.0@)
}

/// Store of captured values shared between the step loop and the output pumps.
///
/// Its view maps each key to its history of values, oldest first.
#[derive(Debug)]
pub struct CaptureStore {
    slots: Vec<(String, CaptureSlot)>,
}

impl View for CaptureStore {
    type V = Map<Seq<char>, Seq<Seq<char>>>;

    closed spec fn view(&self) -> Map<Seq<char>, Seq<Seq<char>>> {
        let keys = keys_of(self.slots@);
        Map::new(
            |k: Seq<char>| last_index(keys, k) >= 0,
            |k: Seq<char>| self.slots@[last_index(keys, k)].1@,
        )
    }
}

/// The history of `key` after one more `value` is recorded for it.
pub open spec fn history_after(
    m: Map<Seq<char>, Seq<Seq<char>>>,
    key: Seq<char>,
    value: Seq<char>,
) -> Seq<Seq<char>> {
    if m.contains_key(key) {
        m[key].push(value)
    } else {
        seq![value]
    }
}

/// The latest value recorded for `key`, if any.
pub open spec fn latest(m: Map<Seq<char>, Seq<Seq<char>>>, key: Seq<char>) -> Option<Seq<char>> {
    if m.contains_key(key) {
        latest_of(m[key])
    } else {
        None
    }
}

/// What a waiter does next.
#[derive(Debug)]
pub enum WaitStep {
    /// The key has a value: the latest one.
    Ready(String),
    /// No value yet and time is left: wait for the next record, at most the time left.
    Pending,
    /// No value and no time left: the wait has timed out.
    Expired,
}

impl Default for CaptureStore {
    fn default() -> (s: Self)
        ensures
            s@ == Map::<Seq<char>, Seq<Seq<char>>>::empty(),
    {
        Self::new()
    }
}

impl CaptureStore {
    /// Creates an empty capture store.
    pub fn new() -> (s: Self)
        ensures
            s@ == Map::<Seq<char>, Seq<Seq<char>>>::empty(),
    {
        let s = CaptureStore { slots: Vec::new() };
        assert(s@ =~= Map::<Seq<char>, Seq<Seq<char>>>::empty());
        s
    }

    /// Index of the slot of `key`, if it has one.
    fn find(&self, key: &String) -> (r: Option<usize>)
        ensures
            match r {
                Some(i) => i < self.slots@.len() && i == last_index(keys_of(self.slots@), key@),
                None => last_index(keys_of(self.slots@), key@) == -1,
            },
    {
        let ghost keys = keys_of(self.slots@);
        let mut i: usize = self.slots.len();
        while i > 0
            invariant
                i <= self.slots@.len(),
                keys == keys_of(self.slots@),
                forall|j: int| i <= j < keys.len() ==> keys[j] != key@,
            decreases i,
        {
            i = i - 1;
            if self.slots[i].0 == *key {
                proof {
                    lemma_last_index_at(keys, key@, i as int);
                }
                return Some(i);
            }
        }
        proof {
            lemma_last_index_absent(keys, key@);
        }
        None
    }

    /// Records a new value for a capture key `"step_id.capture_name"`,
    /// appending it to the key's history.
    pub fn record(&mut self, key: &str, value: String)
        ensures
            final(self)@ == old(self)@.insert(key@, history_after(old(self)@, key@, value@)),
    {
        let k = key.to_owned();
        let ghost old_slots = self.slots@;
        let ghost keys = keys_of(old_slots);
        match self.find(&k) {
            Some(i) => {
                proof {
                    lemma_last_index_range(keys, key@);
                }
                let ghost old_slot = old_slots[i as int].1;
                self.slots[i].1.history.push(value);
                proof {
                    assert(keys_of(self.slots@) =~= keys);
                    assert(self.slots@[i as int].1@ =~= old_slot@.push(value@));
                    assert forall|k2: Seq<char>| last_index(keys, k2) >= 0 && k2 != key@ implies
                        self.slots@[last_index(keys, k2)] == old_slots[last_index(keys, k2)] by {
                        lemma_last_index_range(keys, k2);
                    }
                    assert(old(self)@.contains_key(key@));
                    assert(old(self)@[key@] == old_slot@);
                    assert(self@[key@] == old_slot@.push(value@));
                    assert(self@ =~= old(self)@.insert(key@, history_after(old(self)@, key@, value@)));
                }
            },
            None => {
                let mut history: Vec<String> = Vec::new();
                history.push(value);
                let slot = CaptureSlot { history };
                proof {
                    assert(slot@ =~= seq![value@]);
                }
                self.slots.push((k, slot));
                proof {
                    assert(keys_of(self.slots@) =~= keys.push(key@));
                    assert forall|k2: Seq<char>| true implies
                        last_index(keys_of(self.slots@), k2) == (if k2 == key@ { keys.len() as int } else { last_index(keys, k2) }) by {
                        lemma_last_index_push(keys, key@, k2);
                        lemma_last_index_range(keys, k2);
                    }
                    assert forall|k2: Seq<char>| last_index(keys, k2) >= 0 implies
                        self.slots@[last_index(keys, k2)] == old_slots[last_index(keys, k2)] by {
                        lemma_last_index_range(keys, k2);
                    }
                    assert(self@ =~= old(self)@.insert(key@, history_after(old(self)@, key@, value@)));
                }
            },
        }
    }

    /// The latest value of `key`, or `None` if it has none (does not block).
    pub fn get(&self, key: &str) -> (r: Option<String>)
        ensures
            opt_chars(r) == latest(self@, key@),
    {
        let k = key.to_owned();
        match self.find(&k) {
            Some(i) => {
                proof {
                    lemma_last_index_range(keys_of(self.slots@), key@);
                }
                match self.slots[i].1.value() {
                    Some(v) => Some(v.to_owned()),
                    None => None,
                }
            },
            None => None,
        }
    }

    /// Decides one round of a bounded wait for `key`, with `remaining` time left:
    /// the latest value if there is one; otherwise `Expired` when no time is left,
    /// and `Pending` when there is.
    pub fn wait(&self, key: &str, remaining: Duration) -> (r: WaitStep)
        ensures
            match latest(self@, key@) {
                Some(v) => r matches WaitStep::Ready(s) && s@ == v,
                None => if remaining.spec_nanos() == 0 {
                    r is Expired
                } else {
                    r is Pending
                },
            },
    {
        match self.get(key) {
            Some(v) => WaitStep::Ready(v),
            None => if remaining.is_zero() {
                WaitStep::Expired
            } else {
                WaitStep::Pending
            },
        }
    }
}

/// Reading a key right after recording a value for it gives that value, its
/// history grows by that one value, and every other key reads as before.
pub proof fn law_get_after_record(
    m: Map<Seq<char>, Seq<Seq<char>>>,
    key: Seq<char>,
    value: Seq<char>,
    other: Seq<char>,
)
    ensures
        latest(m.insert(key, history_after(m, key, value)), key) == Some(value),
        m.insert(key, history_after(m, key, value))[key].len() == (if m.contains_key(key) {
            m[key].len() + 1
        } else {
            1
        }),
        m.contains_key(key) ==> m.insert(key, history_after(m, key, value))[key].take(m[key].len() as int)
            == m[key],
        other != key ==> latest(m.insert(key, history_after(m, key, value)), other) == latest(m, other),
{
    if m.contains_key(key) {
        assert(m[key].push(value).take(m[key].len() as int) =~= m[key]);
    }
}

/// The message of a wait that timed out on `key`.
pub open spec fn timeout_text(key: Seq<char>) -> Seq<char> {
    "timeout waiting for capture '"@ + key + "'"@
}

/// The error message of a wait on `key` that timed out.
pub fn timeout_message(key: &str) -> (m: String)
    ensures
        m@ == timeout_text(key@),
{
    let mut v: Vec<char> = Vec::new();
    push_str(&mut v, "timeout waiting for capture '");
    push_str(&mut v, key);
    push_str(&mut v, "'");
    crate::text::into_string(v)
}

} // verus!
