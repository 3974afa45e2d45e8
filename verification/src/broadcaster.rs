//! The public delivery API: global broadcast, targeted send, best-effort
//! batch send, and fairness-rotated batch selection, over one registry and
//! one rotation queue whose membership it keeps consistent.

use vstd::prelude::*;

use crate::channel::{global_send, global_subscribe, new_global_sender, socket_try_send};
use crate::key::{keys_view, ConnectionKey, ConnectionKeyView};
use crate::message::{BroadcastError, Message};
use crate::queue::{lemma_without_first_properties, without_first, DeliveryQueue};
use crate::registry::ConnectionRegistry;
use crate::rotation::{lemma_rotated_permutes, rotated, selected_front};
use crate::GLOBAL_CHANNEL_CAPACITY;
use tokio::sync::broadcast;
use tokio::sync::mpsc;

verus! {

/// What a broadcaster amounts to mathematically: which connection is
/// registered with which outbound channel, and in which order the
/// connections stand in the rotation queue.
pub ghost struct BroadcasterView {
    pub sockets: Map<ConnectionKeyView, mpsc::Sender<Message>>,
    pub queue: Seq<ConnectionKeyView>,
}

/// The intended invariant of the delivery state: the rotation queue holds
/// exactly the currently registered keys, without duplicates.
pub open spec fn consistent(state: BroadcasterView) -> bool {
    &&& state.queue.no_duplicates()
    &&& forall|k: ConnectionKeyView|
        #[trigger] state.queue.contains(k) <==> state.sockets.contains_key(k)
}

/// The state after `subscribe(key, socket)`: the registry maps `key` to the
/// fresh channel, and `key` stands exactly once at the back of the queue.
pub open spec fn subscribed_view(
    state: BroadcasterView,
    key: ConnectionKeyView,
    socket: mpsc::Sender<Message>,
) -> BroadcasterView {
    BroadcasterView {
        sockets: state.sockets.insert(key, socket),
        queue: without_first(state.queue, key).push(key),
    }
}

/// The state after `unsubscribe(key)`: the registry entry and the queue
/// entry for `key` are both gone.
pub open spec fn unsubscribed_view(state: BroadcasterView, key: ConnectionKeyView)
    -> BroadcasterView {
    BroadcasterView {
        sockets: state.sockets.remove(key),
        queue: without_first(state.queue, key),
    }
}

/// Registry consistency: after a subscribe of `key` followed by an
/// unsubscribe of `key`, the key is registered nowhere — lookups find no
/// channel for it and the queue does not hold it — while every other
/// connection's registration is exactly what it was.
pub proof fn lemma_subscribe_then_unsubscribe(
    state: BroadcasterView,
    key: ConnectionKeyView,
    socket: mpsc::Sender<Message>,
)
    requires
        consistent(state),
    ensures
        !unsubscribed_view(subscribed_view(state, key, socket), key).sockets.contains_key(key),
        !unsubscribed_view(subscribed_view(state, key, socket), key).queue.contains(key),
        forall|k: ConnectionKeyView|
            k != key ==> #[trigger] unsubscribed_view(
                subscribed_view(state, key, socket),
                key,
            ).sockets.contains_key(k) == state.sockets.contains_key(k),
        consistent(unsubscribed_view(subscribed_view(state, key, socket), key)),
{
    lemma_without_first_properties(state.queue, key);
    let trimmed = without_first(state.queue, key);
    let after_sub = trimmed.push(key);
    assert forall|a: int, b: int| 0 <= a < b < after_sub.len() implies after_sub[a]
        != after_sub[b] by {
        if b == after_sub.len() - 1 {
            if after_sub[a] == key {
                assert(trimmed[a] == key);
                assert(trimmed.contains(key));
            }
        } else {
            assert(after_sub[a] == trimmed[a] && after_sub[b] == trimmed[b]);
        }
    }
    lemma_without_first_properties(after_sub, key);
    let after_unsub = without_first(after_sub, key);
    assert forall|k: ConnectionKeyView| k != key implies (#[trigger] after_unsub.contains(k)
        <==> state.queue.contains(k)) by {
        assert(after_unsub.contains(k) <==> after_sub.contains(k));
        if after_sub.contains(k) {
            let i = choose|i: int| 0 <= i < after_sub.len() && after_sub[i] == k;
            assert(i < trimmed.len());
            assert(trimmed[i] == k);
            assert(trimmed.contains(k));
        }
        if trimmed.contains(k) {
            let i = choose|i: int| 0 <= i < trimmed.len() && trimmed[i] == k;
            assert(after_sub[i] == k);
        }
    }
}

/// The subsequence of `targets` that is registered in `state`, in order:
/// the keys a batch delivery actually attempts.
pub open spec fn registered_targets(
    targets: Seq<ConnectionKeyView>,
    state: BroadcasterView,
) -> Seq<ConnectionKeyView> {
    targets.filter(|k: ConnectionKeyView| state.sockets.contains_key(k))
}

/// Appending one more target keeps or extends the attempted subsequence,
/// according to whether that target is registered.
proof fn lemma_registered_targets_push(
    targets: Seq<ConnectionKeyView>,
    next: ConnectionKeyView,
    state: BroadcasterView,
)
    ensures
        state.sockets.contains_key(next) ==> registered_targets(targets.push(next), state)
            == registered_targets(targets, state).push(next),
        !state.sockets.contains_key(next) ==> registered_targets(targets.push(next), state)
            == registered_targets(targets, state),
{
    reveal(Seq::filter);
    assert(targets.push(next).drop_last() =~= targets);
    assert(targets.push(next).last() == next);
}

/// Composes the global broadcast channel, the connection registry and the
/// delivery queue into the delivery API. One instance owns all three; shared
/// access is the caller's affair.
pub struct Broadcaster {
    global_transmitter: broadcast::Sender<Message>,
    sockets: ConnectionRegistry,
    queue: DeliveryQueue,
}

impl View for Broadcaster {
    type V = BroadcasterView;

    closed spec fn view(&self) -> BroadcasterView {
        BroadcasterView { sockets: self.sockets@, queue: self.queue@ }
    }
}

impl Broadcaster {
    /// The broadcaster's internal invariant: the registry is well formed and
    /// the queue mirrors its key set.
    pub closed spec fn wf(&self) -> bool {
        &&& self.sockets.wf()
        &&& consistent(self@)
    }

    /// The internal invariant always yields the stated consistency of the
    /// visible state.
    pub proof fn lemma_wf_consistent(&self)
        requires
            self.wf(),
        ensures
            consistent(self@),
    {
    }

    /// A broadcaster with no registered connection and an empty queue; its
    /// global channel starts without consumers.
    pub fn new() -> (broadcaster: Self)
        ensures
            broadcaster.wf(),
            broadcaster@.sockets == Map::<ConnectionKeyView, mpsc::Sender<Message>>::empty(),
            broadcaster@.queue == Seq::<ConnectionKeyView>::empty(),
    {
        let broadcaster = Broadcaster {
            global_transmitter: new_global_sender(GLOBAL_CHANNEL_CAPACITY),
            sockets: ConnectionRegistry::new(),
            queue: DeliveryQueue::new(),
        };
        proof {
            assert forall|k: ConnectionKeyView| !(#[trigger] broadcaster@.queue.contains(k)) by {
            }
        }
        broadcaster
    }

    /// Registers `key` with its outbound channel, moves `key` to the back of
    /// the queue (appending it if it was not queued, so that subscribing
    /// twice never duplicates it), and mints a fresh consumer handle of the
    /// global channel. Always succeeds.
    pub fn subscribe(
        &mut self,
        key: ConnectionKey,
        socket: mpsc::Sender<Message>,
    ) -> (receiver: broadcast::Receiver<Message>)
        requires
            old(self).wf(),
        ensures
            final(self).wf(),
            final(self)@ == subscribed_view(old(self)@, key@, socket),
    {
        proof {
            lemma_without_first_properties(old(self)@.queue, key@);
        }
        self.sockets.insert(key.clone(), socket);
        let _ = self.queue.remove_value(&key);
        self.queue.push_back(key);
        proof {
            let pre = old(self)@;
            let trimmed = without_first(pre.queue, key@);
            assert(self@.queue == trimmed.push(key@));
            assert forall|k: ConnectionKeyView| #[trigger]
                self@.queue.contains(k) <==> self@.sockets.contains_key(k) by {
                if self@.queue.contains(k) {
                    let i = choose|i: int| 0 <= i < self@.queue.len() && self@.queue[i] == k;
                    if i < trimmed.len() {
                        assert(trimmed[i] == k);
                        assert(trimmed.contains(k));
                    } else {
                        assert(k == key@);
                    }
                }
                if self@.sockets.contains_key(k) {
                    if k == key@ {
                        assert(self@.queue[self@.queue.len() - 1] == k);
                    } else {
                        assert(pre.sockets.contains_key(k));
                        assert(pre.queue.contains(k));
                        assert(trimmed.contains(k));
                        let i = choose|i: int| 0 <= i < trimmed.len() && trimmed[i] == k;
                        assert(self@.queue[i] == k);
                    }
                }
            }
            assert forall|a: int, b: int|
                0 <= a < b < self@.queue.len() implies self@.queue[a] != self@.queue[b] by {
                if b < trimmed.len() {
                } else {
                    assert(self@.queue[b] == key@);
                    assert(trimmed[a] == self@.queue[a]);
                    assert(!trimmed.contains(key@));
                }
            }
        }
        global_subscribe(&self.global_transmitter)
    }

    /// Removes `key` from the registry and from the queue; a key absent from
    /// either is simply not there afterwards, and the call never fails.
    /// Reports whether the key was queued, so a caller can log the oddity of
    /// an unsubscribe for a connection that was never fairly inserted.
    pub fn unsubscribe(&mut self, key: &ConnectionKey) -> (was_queued: bool)
        requires
            old(self).wf(),
        ensures
            final(self).wf(),
            final(self)@ == unsubscribed_view(old(self)@, key@),
            was_queued == old(self)@.queue.contains(key@),
            !final(self)@.sockets.contains_key(key@),
            !final(self)@.queue.contains(key@),
    {
        proof {
            lemma_without_first_properties(old(self)@.queue, key@);
        }
        let _ = self.sockets.remove(key);
        let was_queued = self.queue.remove_value(key);
        proof {
            assert forall|k: ConnectionKeyView| #[trigger]
                self@.queue.contains(k) <==> self@.sockets.contains_key(k) by {
                if k != key@ {
                    assert(old(self)@.queue.contains(k) <==> old(self)@.sockets.contains_key(k));
                }
            }
        }
        was_queued
    }

    /// Publishes `message` on the global channel. On success the result is
    /// the number of live consumer handles that observed it, at least one;
    /// with no consumer the call reports `NoReceivers`, a signal rather than
    /// a fatal error.
    pub fn broadcast(&self, message: Message) -> (delivered: Result<usize, BroadcastError>)
        ensures
            delivered matches Ok(receivers) ==> receivers >= 1,
    {
        match global_send(&self.global_transmitter, message) {
            Ok(receivers) => Ok(receivers),
            Err(_unsent) => Err(BroadcastError::NoReceivers),
        }
    }

    /// Sends `message` once to every target that is currently registered,
    /// best-effort: a full or closed channel is skipped without affecting
    /// the remaining targets, and targets not in the registry are silently
    /// skipped. No send ever blocks, so one slow or stalled peer cannot
    /// delay delivery to the others. Returns the targets that were found
    /// registered, in order, so callers can audit which connections were
    /// chosen.
    pub fn batch(&self, message: Message, targets: &Vec<ConnectionKey>) -> (attempted: Vec<
        ConnectionKey,
    >)
        requires
            self.wf(),
        ensures
            keys_view(attempted@) == registered_targets(keys_view(targets@), self@),
    {
        let mut attempted: Vec<ConnectionKey> = Vec::new();
        let mut position: usize = 0;
        proof {
            assert(keys_view(attempted@) =~= registered_targets(keys_view(targets@.take(0)), self@));
        }
        while position < targets.len()
            invariant
                self.wf(),
                position <= targets@.len(),
                keys_view(attempted@) == registered_targets(
                    keys_view(targets@.take(position as int)),
                    self@,
                ),
            decreases targets@.len() - position,
        {
            let target = &targets[position];
            let ghost before = attempted@;
            match self.sockets.get(target) {
                Some(socket) => {
                    let _ = socket_try_send(socket, message);
                    attempted.push(target.clone());
                },
                None => {},
            }
            proof {
                let taken = keys_view(targets@.take(position as int));
                let next = targets@[position as int]@;
                lemma_registered_targets_push(taken, next, self@);
                assert(keys_view(targets@.take(position as int + 1)) =~= taken.push(next));
                if self@.sockets.contains_key(next) {
                    assert(keys_view(attempted@) =~= keys_view(before).push(next));
                } else {
                    assert(attempted@ == before);
                }
            }
            position = position + 1;
        }
        proof {
            assert(targets@.take(targets@.len() as int) =~= targets@);
        }
        attempted
    }

    /// Sends the given messages, in order, to the one connection registered
    /// under `id`, best-effort per message; reports whether `id` was
    /// registered at all.
    pub fn broadcast_to_user(&self, messages: &Vec<Message>, id: &ConnectionKey) -> (delivered_to:
        bool)
        requires
            self.wf(),
        ensures
            delivered_to == self@.sockets.contains_key(id@),
    {
        match self.sockets.get(id) {
            Some(socket) => {
                let mut position: usize = 0;
                while position < messages.len()
                    decreases messages@.len() - position,
                {
                    let _ = socket_try_send(socket, messages[position]);
                    position = position + 1;
                }
                true
            },
            None => false,
        }
    }

    /// Drains up to `count` keys from the front of the queue and reinserts
    /// the same keys at the back in the same relative order, returning the
    /// drained batch; with `count` beyond the queue length the whole queue
    /// wraps to itself. Queue length and registry are left unchanged: this
    /// is the fairness primitive, and repeated calls visit every queued key
    /// once per full cycle.
    pub fn move_queue(&mut self, count: usize) -> (drained: Vec<ConnectionKey>)
        requires
            old(self).wf(),
        ensures
            final(self).wf(),
            keys_view(drained@) == selected_front(old(self)@.queue, count as nat),
            final(self)@.queue == rotated(old(self)@.queue, count as nat),
            final(self)@.sockets == old(self)@.sockets,
            final(self)@.queue.len() == old(self)@.queue.len(),
    {
        let drained = self.queue.rotate_front(count);
        proof {
            lemma_rotated_permutes(old(self)@.queue, count as nat);
        }
        drained
    }

    /// One scheduler tick of rotated delivery: selects the next `count` keys
    /// by rotating the queue, sends every message of `messages`, in order,
    /// to each selected connection still present in the registry
    /// (best-effort, as in `batch`), and returns the selected keys whatever
    /// the delivery outcome, so callers can audit which connections were
    /// chosen.
    pub fn queue_multiple(&mut self, messages: &Vec<Message>, count: usize) -> (drained: Vec<
        ConnectionKey,
    >)
        requires
            old(self).wf(),
        ensures
            final(self).wf(),
            keys_view(drained@) == selected_front(old(self)@.queue, count as nat),
            final(self)@.queue == rotated(old(self)@.queue, count as nat),
            final(self)@.sockets == old(self)@.sockets,
            final(self)@.queue.len() == old(self)@.queue.len(),
    {
        let drained = self.move_queue(count);
        let ghost mid = *self;
        let mut position: usize = 0;
        while position < drained.len()
            invariant
                *self == mid,
                mid.wf(),
                self.wf(),
            decreases drained@.len() - position,
        {
            match self.sockets.get(&drained[position]) {
                Some(socket) => {
                    let mut sent: usize = 0;
                    while sent < messages.len()
                        decreases messages@.len() - sent,
                    {
                        let _ = socket_try_send(socket, messages[sent]);
                        sent = sent + 1;
                    }
                },
                None => {},
            }
            position = position + 1;
        }
        drained
    }

    /// Read-only lookup of the outbound channel registered for `key`;
    /// `None` exactly when no connection is registered under it.
    pub fn get(&self, key: &ConnectionKey) -> (socket: Option<&mpsc::Sender<Message>>)
        requires
            self.wf(),
        ensures
            match socket {
                Some(found) => self@.sockets.contains_key(key@) && *found == self@.sockets[key@],
                None => !self@.sockets.contains_key(key@),
            },
    {
        self.sockets.get(key)
    }

    /// How many keys currently stand in the rotation queue.
    pub fn queue_len(&self) -> (length: usize)
        ensures
            length == self@.queue.len(),
    {
        self.queue.len()
    }
}

impl Default for Broadcaster {
    /// Same as [`Broadcaster::new`].
    fn default() -> (broadcaster: Self)
        ensures
            broadcaster.wf(),
            broadcaster@.sockets == Map::<ConnectionKeyView, mpsc::Sender<Message>>::empty(),
            broadcaster@.queue == Seq::<ConnectionKeyView>::empty(),
    {
        Broadcaster::new()
    }
}

} // verus!
