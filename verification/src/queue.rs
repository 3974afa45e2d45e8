//! The delivery queue: an ordered sequence of connection keys, conceptually
//! circular, used to pick which connections the next periodic batch of
//! request messages goes to.

use vstd::prelude::*;

use crate::key::{keys_view, ConnectionKey, ConnectionKeyView};
use crate::rotation::{rotated, rotation_width, selected_front};
use std::collections::VecDeque;

verus! {

/// `s` with its first occurrence of `key` removed; `s` itself when `key`
/// does not occur.
pub open spec fn without_first(s: Seq<ConnectionKeyView>, key: ConnectionKeyView) -> Seq<
    ConnectionKeyView,
> {
    match s.index_of_first(key) {
        Some(position) => s.remove(position),
        None => s,
    }
}

/// Removing the first occurrence of a key from a duplicate-free sequence
/// removes its only occurrence and leaves every other key untouched.
pub proof fn lemma_without_first_properties(s: Seq<ConnectionKeyView>, key: ConnectionKeyView)
    requires
        s.no_duplicates(),
    ensures
        without_first(s, key).no_duplicates(),
        !without_first(s, key).contains(key),
        forall|k: ConnectionKeyView|
            k != key ==> (#[trigger] without_first(s, key).contains(k) <==> s.contains(k)),
        s.contains(key) ==> without_first(s, key).len() == s.len() - 1,
        !s.contains(key) ==> without_first(s, key) == s,
{
    s.index_of_first_ensures(key);
    if s.contains(key) {
        let i = s.index_of_first(key).unwrap();
        let t = s.remove(i);
        assert forall|a: int, b: int| 0 <= a < b < t.len() implies t[a] != t[b] by {
            let a0 = if a < i {
                a
            } else {
                a + 1
            };
            let b0 = if b < i {
                b
            } else {
                b + 1
            };
            assert(t[a] == s[a0] && t[b] == s[b0]);
        }
        if t.contains(key) {
            let a = choose|a: int| 0 <= a < t.len() && t[a] == key;
            let a0 = if a < i {
                a
            } else {
                a + 1
            };
            assert(s[a0] == key && s[i] == key && a0 != i);
            assert(false);
        }
        assert forall|k: ConnectionKeyView| k != key implies (#[trigger] t.contains(k)
            <==> s.contains(k)) by {
            if t.contains(k) {
                let a = choose|a: int| 0 <= a < t.len() && t[a] == k;
                let a0 = if a < i {
                    a
                } else {
                    a + 1
                };
                assert(s[a0] == k);
            }
            if s.contains(k) {
                let a0 = choose|a0: int| 0 <= a0 < s.len() && s[a0] == k;
                assert(a0 != i);
                let a = if a0 < i {
                    a0
                } else {
                    a0 - 1
                };
                assert(t[a] == k);
            }
        }
    }
}

/// An ordered, conceptually circular sequence of connection keys. Entries
/// drained from the front by a rotation return to the back, so that repeated
/// rotations visit every queued key in round-robin order.
pub struct DeliveryQueue {
    items: VecDeque<ConnectionKey>,
}

impl View for DeliveryQueue {
    type V = Seq<ConnectionKeyView>;

    closed spec fn view(&self) -> Seq<ConnectionKeyView> {
        keys_view(self.items@)
    }
}

impl DeliveryQueue {
    /// An empty queue.
    pub fn new() -> (queue: Self)
        ensures
            queue@ == Seq::<ConnectionKeyView>::empty(),
    {
        let queue = DeliveryQueue { items: VecDeque::new() };
        proof {
            assert(queue@ =~= Seq::<ConnectionKeyView>::empty());
        }
        queue
    }

    /// How many keys are queued.
    pub fn len(&self) -> (length: usize)
        ensures
            length == self@.len(),
    {
        self.items.len()
    }

    /// Appends `key` at the back of the queue.
    pub fn push_back(&mut self, key: ConnectionKey)
        ensures
            final(self)@ == old(self)@.push(key@),
    {
        self.items.push_back(key);
        proof {
            assert(self@ =~= old(self)@.push(key@));
        }
    }

    /// Removes the first occurrence of `key`, scanning linearly from the
    /// front; reports whether the key was found at all.
    pub fn remove_value(&mut self, key: &ConnectionKey) -> (found: bool)
        ensures
            final(self)@ == without_first(old(self)@, key@),
            found == old(self)@.contains(key@),
    {
        let ghost original_items = self.items@;
        let ghost original = self@;
        let mut position: usize = 0;
        while position < self.items.len()
            invariant
                self.items@ == original_items,
                original_items == old(self).items@,
                original == keys_view(original_items),
                original == old(self)@,
                position <= original_items.len(),
                forall|j: int| 0 <= j < position ==> original_items[j]@ != key@,
            decreases original_items.len() - position,
        {
            if self.items[position] == *key {
                proof {
                    assert(original_items[position as int]@ == key@);
                    assert(original[position as int] == key@);
                }
                let _ = self.items.remove(position);
                proof {
                    assert(original.contains(key@));
                    original.index_of_first_ensures(key@);
                    let first = original.index_of_first(key@).unwrap();
                    assert(first == position as int);
                    assert(self@ =~= original.remove(position as int));
                }
                return true;
            }
            position = position + 1;
        }
        proof {
            assert(forall|j: int| 0 <= j < original.len() ==> original[j] != key@);
            if original.contains(key@) {
                let j = choose|j: int| 0 <= j < original.len() && original[j] == key@;
                assert(original[j] == key@);
                assert(false);
            }
            original.index_of_first_ensures(key@);
        }
        false
    }

    /// Atomically drains up to `count` keys from the front and reinserts the
    /// same keys at the back in the same relative order, returning the
    /// drained batch. When `count` exceeds the queue length the whole queue
    /// is drained and wraps to itself. The queue's length never changes.
    pub fn rotate_front(&mut self, count: usize) -> (drained: Vec<ConnectionKey>)
        ensures
            keys_view(drained@) == selected_front(old(self)@, count as nat),
            final(self)@ == rotated(old(self)@, count as nat),
            final(self)@.len() == old(self)@.len(),
    {
        let ghost original_items = self.items@;
        let ghost original = self@;
        let width: usize = if count <= self.items.len() {
            count
        } else {
            self.items.len()
        };
        proof {
            assert(width as nat == rotation_width(original.len(), count as nat));
        }
        let mut drained: Vec<ConnectionKey> = Vec::new();
        let mut taken: usize = 0;
        proof {
            assert(self.items@ =~= original_items.skip(0) + original_items.take(0));
        }
        while taken < width
            invariant
                taken <= width,
                width <= original_items.len(),
                original_items == old(self).items@,
                original == keys_view(original_items),
                original == old(self)@,
                width as nat == rotation_width(original.len(), count as nat),
                drained@ == original_items.take(taken as int),
                self.items@ == original_items.skip(taken as int) + original_items.take(
                    taken as int,
                ),
            decreases width - taken,
        {
            proof {
                assert(original_items.skip(taken as int).len() > 0);
                assert(self.items@[0] == original_items[taken as int]);
            }
            let key = self.items.pop_front().unwrap();
            let ghost popped = self.items@;
            self.items.push_back(key.clone());
            drained.push(key);
            proof {
                assert(popped =~= original_items.skip(taken as int + 1) + original_items.take(
                    taken as int,
                ));
                assert(original_items.take(taken as int).push(original_items[taken as int])
                    =~= original_items.take(taken as int + 1));
                assert(self.items@ =~= original_items.skip(taken as int + 1)
                    + original_items.take(taken as int + 1));
                assert(drained@ =~= original_items.take(taken as int + 1));
            }
            taken = taken + 1;
        }
        proof {
            let w = width as int;
            assert(self.items@ == original_items.skip(w) + original_items.take(w));
            assert(keys_view(original_items.skip(w) + original_items.take(w)) =~= keys_view(
                original_items,
            ).skip(w) + keys_view(original_items).take(w));
            assert(self@ =~= rotated(original, count as nat));
            assert(keys_view(drained@) =~= keys_view(original_items).take(w));
            assert(keys_view(drained@) =~= selected_front(original, count as nat));
        }
        drained
    }
}

} // verus!
