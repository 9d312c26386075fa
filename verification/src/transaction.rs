//! Transactions: a batch of events plus the scope that says how far
//! confirmation must travel before the commit returns success.

use vstd::prelude::*;
use std::collections::HashMap;
use crate::event::EventData;
use crate::meta::MetaAuthorization;
use crate::meta::MetaAuthorizationV;
use crate::meta::MetaParent;

verus! {

broadcast use vstd::std_specs::hash::group_hash_axioms;

/// How far a commit's confirmation must travel before it returns.
#[derive(Debug, Clone, Copy, PartialEq, Eq, Structural)]
pub enum Scope {
    /// Return as soon as the events are appended locally, without
    /// waiting for any storage confirmation.
    NoWait,
    /// Wait for the local fsync.
    Local,
    /// Wait for the local fsync and never forward up the pipe.
    LocalOnly,
    /// Wait until one root server has confirmed.
    One,
    /// Wait until every root server has confirmed.
    Full,
}

/// A batch of events heading into a chain under one scope.
pub struct Transaction {
    pub scope: Scope,
    pub events: Vec<EventData>,
}

/// Authorization and parent declarations that ride with a pending
/// transaction and take precedence over stored chain state while it
/// resolves.
pub struct TransactionMetadata {
    pub auth: HashMap<u128, MetaAuthorization>,
    pub parents: HashMap<u128, MetaParent>,
}

/// The mathematical shape of pending transaction metadata.
#[verifier::ext_equal]
pub struct TransMetaV {
    pub auth: Map<u128, MetaAuthorizationV>,
    pub parents: Map<u128, MetaParent>,
}

impl View for TransactionMetadata {
    type V = TransMetaV;

    open spec fn view(&self) -> TransMetaV {
        TransMetaV {
            auth: self.auth@.map_values(|a: MetaAuthorization| a@),
            parents: self.parents@,
        }
    }
}

/// The empty pending metadata.
pub open spec fn spec_trans_empty() -> TransMetaV {
    TransMetaV { auth: Map::empty(), parents: Map::empty() }
}

impl TransactionMetadata {
    pub fn new() -> (r: TransactionMetadata)
        ensures
            r@.auth =~= spec_trans_empty().auth,
            r@.parents =~= spec_trans_empty().parents,
    {
        let r = TransactionMetadata { auth: HashMap::new(), parents: HashMap::new() };
        proof {
            assert(r@.auth =~= Map::<u128, MetaAuthorizationV>::empty());
        }
        r
    }

    /// Declares pending authorization for a key.
    pub fn set_auth(&mut self, key: u128, auth: MetaAuthorization)
        ensures
            final(self)@.auth == old(self)@.auth.insert(key, auth@),
            final(self)@.parents == old(self)@.parents,
    {
        self.auth.insert(key, auth);
        proof {
            assert(final(self)@.auth =~= old(self)@.auth.insert(key, self.auth@[key]@));
        }
    }

    /// Declares a pending parent for a key.
    pub fn set_parent(&mut self, key: u128, parent: MetaParent)
        ensures
            final(self)@.parents == old(self)@.parents.insert(key, parent),
            final(self)@.auth == old(self)@.auth,
    {
        self.parents.insert(key, parent);
    }
}

} // verus!
