//! The chains of all users, kept by user identity.

use crate::model::ChainModel;
use crate::table::{lemma_trained, Table};
use crate::token::{tokenize, tokens_of};
use std::collections::HashMap;
use vstd::std_specs::hash::spec_keys_iter;
use vstd::std_specs::iter::IteratorSpec;
use vstd::prelude::*;

verus! {

broadcast use vstd::std_specs::hash::group_hash_axioms;

/// One chain for each user that has one, all of the same order.
pub struct ChainStore {
    order: usize,
    models: HashMap<u64, ChainModel>,
}

impl View for ChainStore {
    type V = Map<u64, Table>;

    closed spec fn view(&self) -> Map<u64, Table> {
        self.models@.map_values(|m: ChainModel| m@)
    }
}

impl ChainStore {
    /// The order that every chain of this store has.
    pub closed spec fn chain_order(&self) -> nat {
        self.order as nat
    }

    /// Every chain is well formed and of the store's order.
    pub closed spec fn wf(&self) -> bool {
        forall|user: u64| #[trigger]
            self.models@.contains_key(user) ==> self.models@[user].wf() && self.models@[user]@.order
                == self.order
    }

    /// The table that a user's chain holds, empty where the user has none.
    pub open spec fn table_of(&self, user: u64) -> Table {
        if self@.contains_key(user) {
            self@[user]
        } else {
            Table::empty(self.chain_order())
        }
    }

    /// Every table of a well-formed store is well formed and of the store's
    /// order, and its weight fits in a `u64`.
    pub proof fn lemma_tables(&self)
        requires
            self.wf(),
        ensures
            forall|user: u64| #[trigger]
                self@.contains_key(user) ==> {
                    &&& self@[user].wf()
                    &&& self@[user].order == self.chain_order()
                    &&& self@[user].weight() <= u64::MAX
                },
    {
        assert forall|user: u64| #[trigger] self@.contains_key(user) implies {
            &&& self@[user].wf()
            &&& self@[user].order == self.chain_order()
            &&& self@[user].weight() <= u64::MAX
        } by {
            self.models@[user].lemma_table_wf();
        }
    }

    /// A store without chains.
    pub fn new(order: usize) -> (store: ChainStore)
        ensures
            store.wf(),
            store.chain_order() == order,
            store@ == Map::<u64, Table>::empty(),
    {
        let store = ChainStore { order, models: HashMap::new() };
        store
    }

    /// The order that every chain of this store has.
    pub fn order(&self) -> (order: usize)
        ensures
            order == self.chain_order(),
    {
        self.order
    }

    /// The number of users that have a chain.
    pub fn len(&self) -> (n: usize)
        ensures
            n == self@.dom().len(),
    {
        assert(self@.dom() =~= self.models@.dom());
        self.models.len()
    }

    /// Whether `user` has a chain.
    pub fn contains(&self, user: u64) -> (found: bool)
        ensures
            found == self@.contains_key(user),
    {
        self.models.contains_key(&user)
    }

    /// The users that have a chain, each once, in no particular order.
    pub fn users(&self) -> (users: Vec<u64>)
        ensures
            users@.no_duplicates(),
            users@.to_set() == self@.dom(),
    {
        let mut users: Vec<u64> = Vec::new();
        let ghost keys = spec_keys_iter(&self.models).remaining();
        for user in it: self.models.keys()
            invariant
                it.seq() == keys,
                users@.len() == it.index(),
                forall|j: int| 0 <= j < users@.len() ==> users@[j] == *keys[j],
        {
            users.push(*user);
        }
        proof {
            assert(users@ =~= keys.unref());
        }
        users
    }

    /// Sets `model` as the chain of `user`, in place of the one that the
    /// user may have.
    pub fn put(&mut self, user: u64, model: ChainModel)
        requires
            old(self).wf(),
            model.wf(),
            model@.order == old(self).chain_order(),
        ensures
            final(self).wf(),
            final(self).chain_order() == old(self).chain_order(),
            final(self)@ == old(self)@.insert(user, model@),
    {
        self.models.insert(user, model);
    }

    /// The chain of `user`, or `None` where the user has none. A user whose
    /// chain was cleared has one, and it is empty.
    pub fn get(&self, user: u64) -> (found: Option<&ChainModel>)
        requires
            self.wf(),
        ensures
            found is Some <==> self@.contains_key(user),
            found matches Some(model) ==> model.wf() && model@ == self@[user] && model@.order
                == self.chain_order(),
    {
        let found = self.models.get(&user);
        found
    }

    /// The chain of `user` for training. A user without a chain gets an
    /// empty one of the store's order first.
    ///
    /// The store holds whatever the handle is left with: it stays well
    /// formed where that is a well-formed chain of the store's order.
    pub fn get_or_create(&mut self, user: u64) -> (handle: &mut ChainModel)
        requires
            old(self).wf(),
        ensures
            handle.wf(),
            handle@ == old(self).table_of(user),
            handle@.order == old(self).chain_order(),
            final(self).chain_order() == old(self).chain_order(),
            final(self)@ == old(self)@.insert(user, final(handle)@),
            final(handle).wf() && final(handle)@.order == old(self).chain_order()
                ==> final(self).wf(),
    {
        let fresh = ChainModel::new(self.order);
        let handle = self.models.entry(user).or_insert(fresh);
        handle
    }

    /// Replaces the chain of `user` by an empty one of the store's order. The
    /// user has a chain afterwards; the chains of all others stay.
    pub fn clear(&mut self, user: u64)
        requires
            old(self).wf(),
        ensures
            final(self).wf(),
            final(self).chain_order() == old(self).chain_order(),
            final(self)@ == old(self)@.insert(user, Table::empty(old(self).chain_order())),
    {
        let fresh = ChainModel::new(self.order);
        self.models.insert(user, fresh);
    }

    /// Trains the chain of `user` on the tokens of `text`, creating the
    /// chain first where the user has none. The result is that of
    /// `ChainModel::train`.
    pub fn learn(&mut self, user: u64, text: &str) -> (trained: bool)
        requires
            old(self).wf(),
        ensures
            final(self).wf(),
            final(self).chain_order() == old(self).chain_order(),
            trained <==> (tokens_of(text@).len() == 0 || old(self).table_of(user).weight()
                + tokens_of(text@).len() + 1 <= u64::MAX),
            final(self)@ == old(self)@.insert(
                user,
                if trained {
                    old(self).table_of(user).trained(tokens_of(text@))
                } else {
                    old(self).table_of(user)
                },
            ),
    {
        let tokens = tokenize(text);
        let handle = self.get_or_create(user);
        proof {
            handle.lemma_table_wf();
            lemma_trained(handle@, tokens.deep_view());
        }
        let trained = handle.train(&tokens);
        trained
    }
}

} // verus!
