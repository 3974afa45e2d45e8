//! The connection registry: a mapping from connection key to that
//! connection's outbound message channel.

use vstd::prelude::*;

use crate::key::{ConnectionKey, ConnectionKeyView};
use crate::message::Message;
use tokio::sync::mpsc;

verus! {

struct RegistryEntry {
    key: ConnectionKey,
    socket: mpsc::Sender<Message>,
}

/// The mapping an entry sequence stands for. Later entries win, though a
/// well-formed registry never keeps two entries for one key.
spec fn entries_map(s: Seq<RegistryEntry>) -> Map<ConnectionKeyView, mpsc::Sender<Message>>
    decreases s.len(),
{
    if s.len() == 0 {
        Map::empty()
    } else {
        entries_map(s.drop_last()).insert(s.last().key@, s.last().socket)
    }
}

spec fn has_key(s: Seq<RegistryEntry>, key: ConnectionKeyView) -> bool {
    exists|i: int| 0 <= i < s.len() && s[i].key@ == key
}

spec fn distinct_keys(s: Seq<RegistryEntry>) -> bool {
    forall|i: int, j: int| 0 <= i < j < s.len() ==> s[i].key@ != s[j].key@
}

proof fn lemma_map_domain(s: Seq<RegistryEntry>)
    ensures
        forall|k: ConnectionKeyView| #[trigger] entries_map(s).contains_key(k) <==> has_key(s, k),
    decreases s.len(),
{
    if s.len() > 0 {
        lemma_map_domain(s.drop_last());
        assert forall|k: ConnectionKeyView| has_key(s, k) implies #[trigger] entries_map(
            s,
        ).contains_key(k) by {
            let i = choose|i: int| 0 <= i < s.len() && s[i].key@ == k;
            if i < s.len() - 1 {
                assert(s.drop_last()[i].key@ == k);
                assert(has_key(s.drop_last(), k));
                assert(entries_map(s.drop_last()).contains_key(k));
            } else {
                assert(k == s.last().key@);
            }
        }
        assert forall|k: ConnectionKeyView| #[trigger] entries_map(s).contains_key(k) implies
            has_key(s, k) by {
            if k != s.last().key@ {
                assert(entries_map(s.drop_last()).contains_key(k));
                assert(has_key(s.drop_last(), k));
                let i = choose|i: int| 0 <= i < s.drop_last().len() && s.drop_last()[i].key@ == k;
                assert(s[i] == s.drop_last()[i]);
                assert(s[i].key@ == k);
            } else {
                assert(s[s.len() - 1].key@ == k);
            }
        }
    }
}

proof fn lemma_map_index(s: Seq<RegistryEntry>, i: int)
    requires
        distinct_keys(s),
        0 <= i < s.len(),
    ensures
        entries_map(s).contains_key(s[i].key@),
        entries_map(s)[s[i].key@] == s[i].socket,
    decreases s.len(),
{
    lemma_map_domain(s);
    if i < s.len() - 1 {
        assert(s.drop_last()[i] == s[i]);
        lemma_map_index(s.drop_last(), i);
        assert(s[i].key@ != s.last().key@);
    }
}

proof fn lemma_distinct_remove(s: Seq<RegistryEntry>, i: int)
    requires
        distinct_keys(s),
        0 <= i < s.len(),
    ensures
        distinct_keys(s.remove(i)),
        forall|k: ConnectionKeyView| has_key(s.remove(i), k) ==> has_key(s, k),
{
    let t = s.remove(i);
    assert forall|a: int, b: int| 0 <= a < b < t.len() implies t[a].key@ != t[b].key@ by {
        let a0 = if a < i {
            a
        } else {
            a + 1
        };
        let b0 = if b < i {
            b
        } else {
            b + 1
        };
        assert(t[a] == s[a0] && t[b] == s[b0]);
    }
    assert forall|k: ConnectionKeyView| has_key(t, k) implies has_key(s, k) by {
        let a = choose|a: int| 0 <= a < t.len() && t[a].key@ == k;
        let a0 = if a < i {
            a
        } else {
            a + 1
        };
        assert(s[a0].key@ == k);
    }
}

proof fn lemma_map_remove(s: Seq<RegistryEntry>, i: int)
    requires
        distinct_keys(s),
        0 <= i < s.len(),
    ensures
        entries_map(s.remove(i)) == entries_map(s).remove(s[i].key@),
    decreases s.len(),
{
    lemma_map_domain(s.drop_last());
    if i == s.len() - 1 {
        assert(s.remove(i) =~= s.drop_last());
        assert(!has_key(s.drop_last(), s[i].key@));
        assert(entries_map(s.remove(i)) =~= entries_map(s).remove(s[i].key@));
    } else {
        assert(s.remove(i).drop_last() =~= s.drop_last().remove(i));
        assert(s.remove(i).last() == s.last());
        assert(s.drop_last()[i] == s[i]);
        lemma_map_remove(s.drop_last(), i);
        assert(s[i].key@ != s.last().key@);
        assert(entries_map(s.remove(i)) =~= entries_map(s).remove(s[i].key@));
    }
}

/// A mapping from connection key to that connection's outbound channel.
/// Inserting for a key that is already present replaces the old channel
/// handle; removal of an absent key is a no-op.
pub struct ConnectionRegistry {
    entries: Vec<RegistryEntry>,
}

impl View for ConnectionRegistry {
    type V = Map<ConnectionKeyView, mpsc::Sender<Message>>;

    closed spec fn view(&self) -> Map<ConnectionKeyView, mpsc::Sender<Message>> {
        entries_map(self.entries@)
    }
}

impl ConnectionRegistry {
    /// The registry keeps at most one entry per connection key.
    pub closed spec fn wf(&self) -> bool {
        distinct_keys(self.entries@)
    }

    /// An empty registry.
    pub fn new() -> (registry: Self)
        ensures
            registry.wf(),
            registry@ == Map::<ConnectionKeyView, mpsc::Sender<Message>>::empty(),
    {
        ConnectionRegistry { entries: Vec::new() }
    }

    /// Looks up the outbound channel registered for `key`, scanning without
    /// mutating anything.
    pub fn get(&self, key: &ConnectionKey) -> (socket: Option<&mpsc::Sender<Message>>)
        requires
            self.wf(),
        ensures
            match socket {
                Some(found) => self@.contains_key(key@) && *found == self@[key@],
                None => !self@.contains_key(key@),
            },
    {
        let ghost s = self.entries@;
        let mut position: usize = 0;
        while position < self.entries.len()
            invariant
                s == self.entries@,
                self.wf(),
                position <= s.len(),
                forall|j: int| 0 <= j < position ==> s[j].key@ != key@,
            decreases s.len() - position,
        {
            if self.entries[position].key == *key {
                proof {
                    lemma_map_domain(s);
                    lemma_map_index(s, position as int);
                }
                return Some(&self.entries[position].socket);
            }
            position = position + 1;
        }
        proof {
            lemma_map_domain(s);
            if has_key(s, key@) {
                let j = choose|j: int| 0 <= j < s.len() && s[j].key@ == key@;
                assert(false);
            }
        }
        None
    }

    /// Removes the entry for `key` if one is present; reports whether it was.
    pub fn remove(&mut self, key: &ConnectionKey) -> (removed: bool)
        requires
            old(self).wf(),
        ensures
            final(self).wf(),
            final(self)@ == old(self)@.remove(key@),
            removed == old(self)@.contains_key(key@),
    {
        let ghost s = self.entries@;
        let mut position: usize = 0;
        while position < self.entries.len()
            invariant
                s == self.entries@,
                s == old(self).entries@,
                old(self).wf(),
                position <= s.len(),
                forall|j: int| 0 <= j < position ==> s[j].key@ != key@,
            decreases s.len() - position,
        {
            if self.entries[position].key == *key {
                let _ = self.entries.remove(position);
                proof {
                    lemma_map_domain(s);
                    lemma_distinct_remove(s, position as int);
                    lemma_map_remove(s, position as int);
                }
                return true;
            }
            position = position + 1;
        }
        proof {
            lemma_map_domain(s);
            if has_key(s, key@) {
                let j = choose|j: int| 0 <= j < s.len() && s[j].key@ == key@;
                assert(false);
            }
            assert(self@ =~= old(self)@.remove(key@));
        }
        false
    }

    /// Registers or replaces the outbound channel for `key`. When `key`
    /// already has an entry the old channel handle is discarded in favor of
    /// the new one; no close signal is sent to it. Always succeeds.
    pub fn insert(&mut self, key: ConnectionKey, socket: mpsc::Sender<Message>)
        requires
            old(self).wf(),
        ensures
            final(self).wf(),
            final(self)@ == old(self)@.insert(key@, socket),
    {
        let _ = self.remove(&key);
        let ghost s = self.entries@;
        proof {
            assert(self@ == entries_map(s));
            assert(!self@.contains_key(key@));
            lemma_map_domain(s);
            assert(!has_key(s, key@));
        }
        self.entries.push(RegistryEntry { key, socket });
        proof {
            assert(self.entries@.drop_last() =~= s);
            assert(!has_key(s, self.entries@.last().key@));
            assert forall|a: int, b: int|
                0 <= a < b < self.entries@.len() implies self.entries@[a].key@
                != self.entries@[b].key@ by {
                if b == self.entries@.len() - 1 {
                    assert(s[a].key@ == self.entries@[a].key@);
                    assert(has_key(s, s[a].key@));
                }
            }
            assert(self@ =~= old(self)@.insert(self.entries@.last().key@, socket));
        }
    }
}

} // verus!
