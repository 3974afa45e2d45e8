//! Identity of one logical connection.

use vstd::prelude::*;

verus! {

/// Identity of one logical connection: the owning account together with the
/// originating network address. At most one live registry entry carries a
/// given key at a time.
#[derive(Debug)]
pub struct ConnectionKey {
    /// Identifier of the account the connection belongs to.
    pub owner: u128,
    /// Network address the connection originates from.
    pub address: String,
}

/// Mathematical identity of a [`ConnectionKey`]: the owner identifier
/// together with the characters of the address.
pub ghost struct ConnectionKeyView {
    pub owner: u128,
    pub address: Seq<char>,
}

impl View for ConnectionKey {
    type V = ConnectionKeyView;

    open spec fn view(&self) -> ConnectionKeyView {
        ConnectionKeyView { owner: self.owner, address: self.address@ }
    }
}

impl ConnectionKey {
    pub fn new(owner: u128, address: String) -> (key: Self)
        ensures
            key@ == (ConnectionKeyView { owner, address: address@ }),
    {
        ConnectionKey { owner, address }
    }
}

impl Clone for ConnectionKey {
    fn clone(&self) -> (cloned: Self)
        ensures
            cloned == *self,
    {
        ConnectionKey { owner: self.owner, address: self.address.clone() }
    }
}

impl PartialEq for ConnectionKey {
    fn eq(&self, other: &Self) -> (same: bool) {
        self.owner == other.owner && self.address == other.address
    }
}

impl vstd::std_specs::cmp::PartialEqSpecImpl for ConnectionKey {
    open spec fn obeys_eq_spec() -> bool {
        true
    }

    open spec fn eq_spec(&self, other: &Self) -> bool {
        self@ == other@
    }
}

impl Eq for ConnectionKey {}

/// The identities of a sequence of keys, in order.
pub open spec fn keys_view(keys: Seq<ConnectionKey>) -> Seq<ConnectionKeyView> {
    keys.map_values(|key: ConnectionKey| key@)
}

} // verus!
