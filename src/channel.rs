use vstd::prelude::*;

use crate::error::DirError;
use crate::keys::{fresh_hyphenated_uuid, fresh_uuid, is_hyphenated_uuid, is_simple_uuid};
use crate::names::{copy_list, ids_of, lemma_push_contains, lemma_remove_value_no_duplicates, list_remove_first};
use crate::storage::SingleKvStorage;
use crate::user::{
    users_ok, with_owns, with_subscribes, User, UserInterface, UserView,
};

verus! {

/// A named broadcast topic with one owner and a list of subscribers.
pub struct Channel {
    pub id: String,
    pub sendkey: String,
    pub name: String,
    pub owner: String,
    pub subscribers: Vec<String>,
}

/// What a `Channel` holds, as mathematical values.
pub struct ChannelView {
    pub id: Seq<char>,
    pub sendkey: Seq<char>,
    pub name: Seq<char>,
    pub owner: Seq<char>,
    pub subscribers: Seq<Seq<char>>,
}

impl View for Channel {
    type V = ChannelView;

    open spec fn view(&self) -> ChannelView {
        ChannelView {
            id: self.id@,
            sendkey: self.sendkey@,
            name: self.name@,
            owner: self.owner@,
            subscribers: ids_of(self.subscribers@),
        }
    }
}

impl Channel {
    pub fn copy(&self) -> (r: Channel)
        ensures
            r@ == self@,
    {
        Channel {
            id: self.id.clone(),
            sendkey: self.sendkey.clone(),
            name: self.name.clone(),
            owner: self.owner.clone(),
            subscribers: copy_list(&self.subscribers),
        }
    }
}

/// A channel as created: nobody subscribed yet.
pub open spec fn new_channel_view(
    id: Seq<char>,
    sendkey: Seq<char>,
    name: Seq<char>,
    owner: Seq<char>,
) -> ChannelView {
    ChannelView { id, sendkey, name, owner, subscribers: Seq::empty() }
}

pub open spec fn with_subscribers(c: ChannelView, s: Seq<Seq<char>>) -> ChannelView {
    ChannelView { subscribers: s, ..c }
}

/// Each record is stored under its own id, and no two channels share a
/// publish key.
pub open spec fn channels_ok(m: Map<Seq<char>, ChannelView>) -> bool {
    &&& forall|k: Seq<char>| #[trigger] m.contains_key(k) ==> m[k].id == k
    &&& forall|k1: Seq<char>, k2: Seq<char>|
        #[trigger] m.contains_key(k1) && #[trigger] m.contains_key(k2) && k1 != k2
            ==> m[k1].sendkey != m[k2].sendkey
}

/// Whether some channel is published to with `key`.
pub open spec fn sendkey_used(m: Map<Seq<char>, ChannelView>, key: Seq<char>) -> bool {
    exists|k: Seq<char>| #[trigger] m.contains_key(k) && m[k].sendkey == key
}

/// Whether fresh random draws could clash with what `m` holds: some stored id
/// has the simple UUID form, or some stored key the hyphenated one.
pub open spec fn draws_may_collide(m: Map<Seq<char>, ChannelView>) -> bool {
    exists|k: Seq<char>| #[trigger]
        m.contains_key(k) && (is_simple_uuid(k) || is_hyphenated_uuid(m[k].sendkey))
}

/// Both sides of every subscription agree: a channel lists a user exactly when
/// that user lists the channel, and no channel lists a user twice.
pub open spec fn mirrored(chans: Map<Seq<char>, ChannelView>, users: Map<Seq<char>, UserView>) -> bool {
    &&& forall|c: Seq<char>, u: Seq<char>|
        #[trigger] chans.contains_key(c) && #[trigger] users.contains_key(u) ==> (
        chans[c].subscribers.contains(u) <==> users[u].subscribes.contains(c))
    &&& forall|c: Seq<char>| #[trigger] chans.contains_key(c) ==> chans[c].subscribers.no_duplicates()
}

/// The users that `subs` names, each as the directory `users` holds it.
pub open spec fn resolve_users(subs: Seq<Seq<char>>, users: Map<Seq<char>, UserView>) -> Seq<UserView> {
    subs.map_values(|s: Seq<char>| users[s])
}

/// The channels of `chans`, in the order `order`, that `owner` owns.
pub open spec fn owned_by(
    order: Seq<Seq<char>>,
    chans: Map<Seq<char>, ChannelView>,
    owner: Seq<char>,
) -> Seq<ChannelView> {
    records_in(order, chans).filter(|c: ChannelView| c.owner == owner)
}

/// The records of `chans` under the ids of `order`, in that order.
pub open spec fn records_in(order: Seq<Seq<char>>, chans: Map<Seq<char>, ChannelView>) -> Seq<ChannelView> {
    order.map_values(|k: Seq<char>| chans[k])
}

/// The channel directory: channel id to channel record.
pub struct ChannelInterface {
    storage: SingleKvStorage<Channel>,
}

impl View for ChannelInterface {
    type V = Map<Seq<char>, ChannelView>;

    closed spec fn view(&self) -> Map<Seq<char>, ChannelView> {
        self.storage@.map_values(|c: Channel| c@)
    }
}

impl ChannelInterface {
    pub closed spec fn wf(&self) -> bool {
        self.storage.wf() && channels_ok(self@)
    }

    /// The channel ids in scan order, which is key order.
    pub closed spec fn scan_order(&self) -> Seq<Seq<char>> {
        self.storage.key_order()
    }

    pub proof fn lemma_channels_ok(&self)
        requires
            self.wf(),
        ensures
            channels_ok(self@),
            self.scan_order().no_duplicates(),
            forall|k: Seq<char>| #[trigger] self@.contains_key(k) <==> self.scan_order().contains(k),
            forall|i: int, j: int|
                0 <= i < j < self.scan_order().len() ==> crate::order::lex_le(
                    #[trigger] self.scan_order()[i],
                    #[trigger] self.scan_order()[j],
                ),
    {
        self.storage.lemma_key_order();
        assert forall|k: Seq<char>| #[trigger] self@.contains_key(k) <==> self.scan_order().contains(k) by {
            assert(self@.contains_key(k) <==> self.storage@.contains_key(k));
        }
    }

    pub fn new() -> (r: ChannelInterface)
        ensures
            r.wf(),
            r@ == Map::<Seq<char>, ChannelView>::empty(),
    {
        let r = ChannelInterface { storage: SingleKvStorage::new() };
        assert(r@ =~= Map::<Seq<char>, ChannelView>::empty());
        r
    }

    pub fn get_channel_by_id(&self, id: &str) -> (r: Result<Channel, DirError>)
        requires
            self.wf(),
        ensures
            match r {
                Ok(c) => self@.contains_key(id@) && c@ == self@[id@],
                Err(e) => e == DirError::NotFound && !self@.contains_key(id@),
            },
    {
        match self.storage.get_single(id) {
            Some(c) => Ok(c.copy()),
            None => Err(DirError::NotFound),
        }
    }

    /// Puts back a changed record of a stored channel, publish key unchanged.
    fn store_existing(&mut self, c: Channel)
        requires
            old(self).wf(),
            old(self)@.contains_key(c@.id),
            old(self)@[c@.id].sendkey == c@.sendkey,
        ensures
            final(self).wf(),
            final(self)@ == old(self)@.insert(c@.id, c@),
    {
        let ghost v = c@;
        let id = c.id.clone();
        self.storage.put_single(id.as_str(), c);
        assert(self@ =~= old(self)@.insert(v.id, v));
    }

    /// Position in scan order of the channel published to with `key`.
    fn find_sendkey(&self, key: &str) -> (r: Option<usize>)
        requires
            self.wf(),
        ensures
            match r {
                Some(i) => i < self.scan_order().len() && self@[self.scan_order()[i as int]].sendkey
                    == key@,
                None => !sendkey_used(self@, key@),
            },
    {
        proof {
            self.lemma_channels_ok();
        }
        let k = key.to_owned();
        let n = self.storage.len();
        let mut i: usize = 0;
        while i < n
            invariant
                self.wf(),
                k@ == key@,
                n == self.scan_order().len(),
                0 <= i <= n,
                forall|j: int| 0 <= j < i ==> self@[self.scan_order()[j]].sendkey != key@,
            decreases n - i,
        {
            let (_, c) = self.storage.entry_at(i);
            if c.sendkey == k {
                return Some(i);
            }
            i = i + 1;
        }
        proof {
            self.lemma_channels_ok();
            assert forall|kk: Seq<char>| #[trigger] self@.contains_key(kk) implies self@[kk].sendkey
                != key@ by {
                assert(self.scan_order().contains(kk));
                let j = choose|j: int| 0 <= j < self.scan_order().len() && self.scan_order()[j] == kk;
            }
        }
        None
    }

    /// Stores a new channel under the id and publish key given, then records
    /// the owner's ownership. Where the id or the key is already in use, or
    /// the key is the id itself, nothing is stored. Where the owner is not
    /// registered, the channel stays stored and the owner's `NotFound` is
    /// returned.
    pub fn add_channel_with_keys(
        &mut self,
        users: &mut UserInterface,
        name: &str,
        owner: &str,
        id: String,
        sendkey: String,
    ) -> (r: Result<String, DirError>)
        requires
            old(self).wf(),
            old(users).wf(),
        ensures
            final(self).wf(),
            final(users).wf(),
            old(self)@.contains_key(id@) || sendkey_used(old(self)@, sendkey@) || sendkey@ == id@ ==> r
                == Err::<String, DirError>(DirError::AlreadyExists) && final(self)@ == old(self)@
                && final(users)@ == old(users)@,
            mirrored(old(self)@, old(users)@) && (forall|u: Seq<char>| #[trigger]
                old(users)@.contains_key(u) ==> !old(users)@[u].subscribes.contains(id@)) ==> mirrored(
                final(self)@,
                final(users)@,
            ),
            !old(self)@.contains_key(id@) && !sendkey_used(old(self)@, sendkey@) && sendkey@ != id@ ==> {
                &&& final(self)@ == old(self)@.insert(
                    id@,
                    new_channel_view(id@, sendkey@, name@, owner@),
                )
                &&& old(users)@.contains_key(owner@) ==> final(users)@ == old(users)@.insert(
                    owner@,
                    with_owns(old(users)@[owner@], old(users)@[owner@].owns.push(id@)),
                ) && (r matches Ok(rid) && rid@ == id@)
                &&& !old(users)@.contains_key(owner@) ==> final(users)@ == old(users)@ && r == Err::<
                    String,
                    DirError,
                >(DirError::NotFound)
            },
    {
        if self.storage.contains(id.as_str()) || sendkey == id {
            return Err(DirError::AlreadyExists);
        }
        if self.find_sendkey(sendkey.as_str()).is_some() {
            proof {
                self.lemma_channels_ok();
            }
            return Err(DirError::AlreadyExists);
        }
        let c = Channel {
            id: id.clone(),
            sendkey,
            name: name.to_owned(),
            owner: owner.to_owned(),
            subscribers: Vec::new(),
        };
        let ghost v = c@;
        assert(ids_of(c.subscribers@) =~= Seq::<Seq<char>>::empty());
        assert(v =~= new_channel_view(id@, v.sendkey, name@, owner@));
        self.storage.put_single(id.as_str(), c);
        assert(self@ =~= old(self)@.insert(id@, v));
        proof {
            old(self).lemma_channels_ok();
            assert forall|k1: Seq<char>, k2: Seq<char>|
                #[trigger] self@.contains_key(k1) && #[trigger] self@.contains_key(k2) && k1 != k2
                implies self@[k1].sendkey != self@[k2].sendkey by {
                if k1 != id@ && k2 != id@ {
                    assert(old(self)@.contains_key(k1) && old(self)@.contains_key(k2));
                } else if k1 == id@ {
                    assert(old(self)@.contains_key(k2));
                } else {
                    assert(old(self)@.contains_key(k1));
                }
            }
        }
        let r = match users.user_new_channel(owner, id.as_str()) {
            Ok(_) => Ok(id),
            Err(e) => Err(e),
        };
        proof {
            if mirrored(old(self)@, old(users)@) && (forall|u: Seq<char>| #[trigger]
                old(users)@.contains_key(u) ==> !old(users)@[u].subscribes.contains(id@)) {
                assert forall|c: Seq<char>, u: Seq<char>|
                    #[trigger] self@.contains_key(c) && #[trigger] users@.contains_key(u) implies (
                    self@[c].subscribers.contains(u) <==> users@[u].subscribes.contains(c)) by {
                    assert(old(users)@.contains_key(u));
                    assert(users@[u].subscribes == old(users)@[u].subscribes);
                    if c != id@ {
                        assert(old(self)@.contains_key(c));
                    }
                }
                assert forall|c: Seq<char>| #[trigger] self@.contains_key(c) implies self@[c].subscribers.no_duplicates() by {
                    if c != id@ {
                        assert(old(self)@.contains_key(c));
                    }
                }
            }
        }
        r
    }

    /// Creates a channel named `name` owned by `owner`, under a fresh random id
    /// (simple UUID form) and a fresh random publish key (hyphenated UUID
    /// form, so never equal to an id), and returns its id. Where the owner is
    /// not registered, the channel stays stored and `NotFound` is returned.
    pub fn add_channel(&mut self, users: &mut UserInterface, name: &str, owner: &str) -> (r: Result<
        String,
        DirError,
    >)
        requires
            old(self).wf(),
            old(users).wf(),
        ensures
            final(self).wf(),
            final(users).wf(),
            !draws_may_collide(old(self)@) ==> (old(users)@.contains_key(owner@) <==> r is Ok),
            !draws_may_collide(old(self)@) && !old(users)@.contains_key(owner@) ==> r == Err::<
                String,
                DirError,
            >(DirError::NotFound),
            match r {
                Ok(id) => {
                    &&& !old(self)@.contains_key(id@)
                    &&& is_simple_uuid(id@)
                    &&& final(self)@.contains_key(id@)
                    &&& final(self)@ == old(self)@.insert(id@, final(self)@[id@])
                    &&& final(self)@[id@] == new_channel_view(id@, final(self)@[id@].sendkey, name@, owner@)
                    &&& is_hyphenated_uuid(final(self)@[id@].sendkey)
                    &&& final(self)@[id@].sendkey != id@
                    &&& !sendkey_used(old(self)@, final(self)@[id@].sendkey)
                    &&& old(users)@.contains_key(owner@)
                    &&& final(users)@ == old(users)@.insert(
                        owner@,
                        with_owns(old(users)@[owner@], old(users)@[owner@].owns.push(id@)),
                    )
                },
                Err(DirError::NotFound) => {
                    &&& !old(users)@.contains_key(owner@)
                    &&& final(users)@ == old(users)@
                    &&& exists|i: Seq<char>| #[trigger] final(self)@.contains_key(i) && {
                        &&& !old(self)@.contains_key(i)
                        &&& is_simple_uuid(i)
                        &&& is_hyphenated_uuid(final(self)@[i].sendkey)
                        &&& !sendkey_used(old(self)@, final(self)@[i].sendkey)
                        &&& final(self)@ == old(self)@.insert(
                            i,
                            new_channel_view(i, final(self)@[i].sendkey, name@, owner@),
                        )
                    }
                },
                Err(DirError::AlreadyExists) => {
                    &&& draws_may_collide(old(self)@)
                    &&& final(self)@ == old(self)@
                    &&& final(users)@ == old(users)@
                },
            },
    {
        let id = fresh_uuid();
        let sendkey = fresh_hyphenated_uuid();
        let ghost (i, k) = (id@, sendkey@);
        proof {
            assert(i.len() != k.len());
            assert(i != k);
        }
        let r = self.add_channel_with_keys(users, name, owner, id, sendkey);
        proof {
            if old(self)@.contains_key(i) {
                assert(is_simple_uuid(i));
            }
            if sendkey_used(old(self)@, k) {
                let kk = choose|kk: Seq<char>| #[trigger] old(self)@.contains_key(kk) && old(self)@[kk].sendkey == k;
                assert(is_hyphenated_uuid(old(self)@[kk].sendkey));
            }
            if !old(self)@.contains_key(i) && !sendkey_used(old(self)@, k) {
                assert(self@[i].sendkey == k);
                assert(self@.contains_key(i));
            }
        }
        r
    }

    /// Subscribes `user` to `channel`: the user's side first, then the
    /// channel's.
    pub fn subscribe(&mut self, users: &mut UserInterface, channel: &str, user: &str) -> (r: Result<
        bool,
        DirError,
    >)
        requires
            old(self).wf(),
            old(users).wf(),
        ensures
            final(self).wf(),
            final(users).wf(),
            mirrored(old(self)@, old(users)@) ==> mirrored(final(self)@, final(users)@),
            !old(self)@.contains_key(channel@) || !old(users)@.contains_key(user@) ==> r == Err::<
                bool,
                DirError,
            >(DirError::NotFound) && final(self)@ == old(self)@ && final(users)@ == old(users)@,
            old(self)@.contains_key(channel@) && old(users)@.contains_key(user@)
                && old(users)@[user@].subscribes.contains(channel@) ==> r == Err::<bool, DirError>(
                DirError::AlreadyExists,
            ) && final(self)@ == old(self)@ && final(users)@ == old(users)@,
            old(self)@.contains_key(channel@) && old(users)@.contains_key(user@)
                && !old(users)@[user@].subscribes.contains(channel@) ==> {
                &&& r == Ok::<bool, DirError>(true)
                &&& final(users)@ == old(users)@.insert(
                    user@,
                    with_subscribes(old(users)@[user@], old(users)@[user@].subscribes.push(channel@)),
                )
                &&& final(self)@ == old(self)@.insert(
                    channel@,
                    with_subscribers(old(self)@[channel@], old(self)@[channel@].subscribers.push(user@)),
                )
            },
    {
        let mut chn = match self.get_channel_by_id(channel) {
            Ok(c) => c,
            Err(e) => {
                return Err(e);
            },
        };
        match users.user_subscribe(user, channel) {
            Ok(_) => {},
            Err(e) => {
                return Err(e);
            },
        }
        proof {
            self.lemma_channels_ok();
        }
        let ghost before = chn@;
        chn.subscribers.push(user.to_owned());
        assert(ids_of(chn.subscribers@) =~= before.subscribers.push(user@));
        assert(chn@ =~= with_subscribers(before, before.subscribers.push(user@)));
        self.store_existing(chn);
        proof {
            if mirrored(old(self)@, old(users)@) {
                lemma_subscribe_keeps_mirror(old(self)@, old(users)@, channel@, user@);
            }
        }
        Ok(true)
    }

    /// Unsubscribes `user` from `channel`: the user's side first, then the
    /// channel's; each drops its first matching entry, if any.
    pub fn unsubscribe(&mut self, users: &mut UserInterface, channel: &str, user: &str) -> (r: Result<
        bool,
        DirError,
    >)
        requires
            old(self).wf(),
            old(users).wf(),
        ensures
            final(self).wf(),
            final(users).wf(),
            mirrored(old(self)@, old(users)@) ==> mirrored(final(self)@, final(users)@),
            !old(self)@.contains_key(channel@) || !old(users)@.contains_key(user@) ==> r == Err::<
                bool,
                DirError,
            >(DirError::NotFound) && final(self)@ == old(self)@ && final(users)@ == old(users)@,
            old(self)@.contains_key(channel@) && old(users)@.contains_key(user@) ==> {
                &&& r == Ok::<bool, DirError>(true)
                &&& final(users)@ == old(users)@.insert(
                    user@,
                    with_subscribes(
                        old(users)@[user@],
                        old(users)@[user@].subscribes.remove_value(channel@),
                    ),
                )
                &&& final(self)@ == old(self)@.insert(
                    channel@,
                    with_subscribers(
                        old(self)@[channel@],
                        old(self)@[channel@].subscribers.remove_value(user@),
                    ),
                )
            },
            old(self)@.contains_key(channel@) && old(users)@.contains_key(user@)
                && !old(self)@[channel@].subscribers.contains(user@)
                && !old(users)@[user@].subscribes.contains(channel@) ==> final(self)@ == old(self)@
                && final(users)@ == old(users)@,
    {
        let mut chn = match self.get_channel_by_id(channel) {
            Ok(c) => c,
            Err(e) => {
                return Err(e);
            },
        };
        proof {
            users.lemma_users_ok();
        }
        match users.user_unsubscribe(user, channel) {
            Ok(_) => {},
            Err(e) => {
                return Err(e);
            },
        }
        proof {
            self.lemma_channels_ok();
        }
        let ghost before = chn@;
        list_remove_first(&mut chn.subscribers, user);
        assert(chn@ =~= with_subscribers(before, before.subscribers.remove_value(user@)));
        self.store_existing(chn);
        proof {
            let cv = old(self)@[channel@];
            let uv = old(users)@[user@];
            if mirrored(old(self)@, old(users)@) {
                old(users).lemma_users_ok();
                lemma_unsubscribe_keeps_mirror(old(self)@, old(users)@, channel@, user@);
            }
            if !cv.subscribers.contains(user@) && !uv.subscribes.contains(channel@) {
                cv.subscribers.index_of_first_ensures(user@);
                uv.subscribes.index_of_first_ensures(channel@);
                assert(with_subscribers(cv, cv.subscribers) == cv);
                assert(with_subscribes(uv, uv.subscribes) == uv);
                assert(self@ =~= old(self)@);
                assert(users@ =~= old(users)@);
            }
        }
        Ok(true)
    }

    /// Every channel that `owner` owns, in scan order; empty where there is
    /// none.
    pub fn get_channel_by_owner(&self, owner: &str) -> (r: Result<Vec<Channel>, DirError>)
        requires
            self.wf(),
        ensures
            r matches Ok(v) && v@.map_values(|c: Channel| c@) == owned_by(self.scan_order(), self@, owner@),
    {
        let o = owner.to_owned();
        let n = self.storage.len();
        let mut ret: Vec<Channel> = Vec::new();
        let mut i: usize = 0;
        while i < n
            invariant
                self.wf(),
                o@ == owner@,
                n == self.scan_order().len(),
                0 <= i <= n,
                ret@.map_values(|c: Channel| c@) == owned_by(self.scan_order().subrange(0, i as int), self@, owner@),
            decreases n - i,
        {
            let (_, c) = self.storage.entry_at(i);
            let ghost pre = self.scan_order().subrange(0, i as int);
            let ghost next = self.scan_order().subrange(0, i + 1);
            assert(next =~= pre.push(self.scan_order()[i as int]));
            assert(records_in(next, self@) =~= records_in(pre, self@).push(c@));
            assert(records_in(next, self@).drop_last() =~= records_in(pre, self@));
            proof {
                reveal(Seq::filter);
            }
            let ghost old_ret = ret@;
            if c.owner == o {
                ret.push(c.copy());
                assert(ret@.map_values(|c: Channel| c@) =~= old_ret.map_values(|c: Channel| c@).push(c@));
            }
            i = i + 1;
        }
        assert(self.scan_order().subrange(0, n as int) =~= self.scan_order());
        Ok(ret)
    }

    /// The channel published to with `key`.
    pub fn get_channel_by_sendkey(&self, key: &str) -> (r: Result<Channel, DirError>)
        requires
            self.wf(),
        ensures
            match r {
                Ok(c) => self@.contains_key(c@.id) && self@[c@.id] == c@ && c@.sendkey == key@,
                Err(e) => e == DirError::NotFound && !sendkey_used(self@, key@),
            },
    {
        match self.find_sendkey(key) {
            Some(i) => {
                let (k, c) = self.storage.entry_at(i);
                proof {
                    self.lemma_channels_ok();
                    assert(self@.contains_key(k@));
                    assert(self@[k@] == c@);
                }
                Ok(c.copy())
            },
            None => Err(DirError::NotFound),
        }
    }

    /// The records of every subscriber of channel `id`, in subscription order.
    pub fn get_subscribers(&self, users: &UserInterface, id: &str) -> (r: Result<Vec<User>, DirError>)
        requires
            self.wf(),
            users.wf(),
        ensures
            !self@.contains_key(id@) ==> r == Err::<Vec<User>, DirError>(DirError::NotFound),
            self@.contains_key(id@) ==> {
                let subs = self@[id@].subscribers;
                &&& (forall|i: int| 0 <= i < subs.len() ==> users@.contains_key(#[trigger] subs[i]))
                    ==> (r matches Ok(v) && v@.map_values(|u: User| u@) == resolve_users(subs, users@))
                &&& (exists|i: int| 0 <= i < subs.len() && !users@.contains_key(#[trigger] subs[i]))
                    ==> r == Err::<Vec<User>, DirError>(DirError::NotFound)
            },
    {
        let chn = match self.get_channel_by_id(id) {
            Ok(c) => c,
            Err(e) => {
                return Err(e);
            },
        };
        let ghost subs = chn@.subscribers;
        let mut ret: Vec<User> = Vec::new();
        let mut i: usize = 0;
        while i < chn.subscribers.len()
            invariant
                subs == ids_of(chn.subscribers@),
                subs == self@[id@].subscribers,
                users.wf(),
                0 <= i <= subs.len(),
                forall|j: int| 0 <= j < i ==> users@.contains_key(#[trigger] subs[j]),
                ret@.map_values(|u: User| u@) == resolve_users(subs.subrange(0, i as int), users@),
            decreases subs.len() - i,
        {
            assert(chn.subscribers@[i as int]@ == subs[i as int]);
            let u = match users.get_user(chn.subscribers[i].as_str()) {
                Ok(u) => u,
                Err(e) => {
                    return Err(e);
                },
            };
            let ghost old_ret = ret@;
            ret.push(u);
            assert(ret@.map_values(|u: User| u@) =~= old_ret.map_values(|u: User| u@).push(u@));
            assert(subs.subrange(0, i + 1) =~= subs.subrange(0, i as int).push(subs[i as int]));
            assert(resolve_users(subs.subrange(0, i + 1), users@) =~= resolve_users(subs.subrange(0, i as int), users@).push(users@[subs[i as int]]));
            i = i + 1;
        }
        assert(subs.subrange(0, subs.len() as int) =~= subs);
        Ok(ret)
    }

    /// Takes channel `id` out of the directory.
    fn remove_channel(&mut self, id: &str)
        requires
            old(self).wf(),
        ensures
            final(self).wf(),
            final(self)@ == old(self)@.remove(id@),
    {
        self.storage.del_single(id);
        assert(self@ =~= old(self)@.remove(id@));
    }

    /// Deletes channel `id` as `delete_channel` does, but only for its
    /// recorded owner: for anyone else the channel is not found.
    pub fn delete_channel_checked(&mut self, users: &mut UserInterface, id: &str, requester: &str) -> (r: Result<
        bool,
        DirError,
    >)
        requires
            old(self).wf(),
            old(users).wf(),
        ensures
            final(self).wf(),
            final(users).wf(),
            mirrored(old(self)@, old(users)@) ==> mirrored(final(self)@, final(users)@),
            r is Err ==> r == Err::<bool, DirError>(DirError::NotFound),
            !old(self)@.contains_key(id@) || old(self)@[id@].owner != requester@ ==> r == Err::<
                bool,
                DirError,
            >(DirError::NotFound) && final(self)@ == old(self)@ && final(users)@ == old(users)@,
            old(self)@.contains_key(id@) && old(self)@[id@].owner == requester@ ==> (r is Ok <==> all_registered(
                old(self)@[id@].subscribers,
                old(users)@,
            ) && old(users)@.contains_key(requester@)),
            r is Ok ==> r == Ok::<bool, DirError>(true) && final(self)@ == old(self)@.remove(id@)
                && final(users)@ == users_after_delete(
                old(users)@,
                old(self)@[id@].subscribers,
                id@,
                requester@,
            ),
            old(self)@.contains_key(id@) && r is Err ==> final(self)@.contains_key(id@),
            old(self)@.contains_key(id@) && old(self)@[id@].owner == requester@ && all_registered(
                old(self)@[id@].subscribers,
                old(users)@,
            ) && !old(users)@.contains_key(requester@) ==> {
                &&& final(self)@ == old(self)@.insert(
                    id@,
                    with_subscribers(old(self)@[id@], Seq::empty()),
                )
                &&& final(users)@ == unsubscribed_all(old(users)@, old(self)@[id@].subscribers, id@)
            },
    {
        let chn = match self.get_channel_by_id(id) {
            Ok(c) => c,
            Err(e) => {
                return Err(e);
            },
        };
        if chn.owner != requester.to_owned() {
            return Err(DirError::NotFound);
        }
        self.delete_channel(users, id, requester)
    }

    /// Deletes channel `id`: unsubscribes each of its subscribers in turn, then
    /// drops it from what `owner` owns, and only then removes the channel
    /// record. That `owner` is the channel's recorded owner is left to the
    /// caller. A failing step ends the deletion; the steps done stay done.
    pub fn delete_channel(&mut self, users: &mut UserInterface, id: &str, owner: &str) -> (r: Result<
        bool,
        DirError,
    >)
        requires
            old(self).wf(),
            old(users).wf(),
        ensures
            final(self).wf(),
            final(users).wf(),
            mirrored(old(self)@, old(users)@) ==> mirrored(final(self)@, final(users)@),
            r is Err ==> r == Err::<bool, DirError>(DirError::NotFound),
            !old(self)@.contains_key(id@) ==> r == Err::<bool, DirError>(DirError::NotFound)
                && final(self)@ == old(self)@ && final(users)@ == old(users)@,
            old(self)@.contains_key(id@) ==> (r is Ok <==> all_registered(
                old(self)@[id@].subscribers,
                old(users)@,
            ) && old(users)@.contains_key(owner@)),
            r is Ok ==> r == Ok::<bool, DirError>(true) && final(self)@ == old(self)@.remove(id@)
                && final(users)@ == users_after_delete(
                old(users)@,
                old(self)@[id@].subscribers,
                id@,
                owner@,
            ),
            r is Ok && mirrored(old(self)@, old(users)@) ==> forall|u: Seq<char>| #[trigger]
                final(users)@.contains_key(u) ==> !final(users)@[u].subscribes.contains(id@),
            old(self)@.contains_key(id@) && r is Err ==> final(self)@.contains_key(id@),
            old(self)@.contains_key(id@) && all_registered(old(self)@[id@].subscribers, old(users)@)
                && !old(users)@.contains_key(owner@) ==> {
                &&& final(self)@ == old(self)@.insert(
                    id@,
                    with_subscribers(old(self)@[id@], Seq::empty()),
                )
                &&& final(users)@ == unsubscribed_all(old(users)@, old(self)@[id@].subscribers, id@)
            },
    {
        let chn = match self.get_channel_by_id(id) {
            Ok(c) => c,
            Err(e) => {
                return Err(e);
            },
        };
        let ghost subs = chn@.subscribers;
        let ghost n = subs.len() as int;
        proof {
            old(users).lemma_users_ok();
            assert(subs.subrange(0, n) =~= subs);
            assert(with_subscribers(old(self)@[id@], subs) == old(self)@[id@]);
            assert(self@ =~= old(self)@.insert(id@, with_subscribers(old(self)@[id@], subs.subrange(0, n))));
            assert(users@ =~= unsubscribed_all(old(users)@, subs.subrange(0, 0), id@));
        }
        let mut i: usize = 0;
        while i < chn.subscribers.len()
            invariant
                self.wf(),
                users.wf(),
                users_ok(old(users)@),
                subs == ids_of(chn.subscribers@),
                subs == old(self)@[id@].subscribers,
                n == subs.len(),
                old(self)@.contains_key(id@),
                0 <= i <= n,
                self@ == old(self)@.insert(id@, with_subscribers(old(self)@[id@], subs.subrange(i as int, n))),
                users@ == unsubscribed_all(old(users)@, subs.subrange(0, i as int), id@),
                forall|j: int| 0 <= j < i ==> old(users)@.contains_key(#[trigger] subs[j]),
                mirrored(old(self)@, old(users)@) ==> mirrored(self@, users@),
            decreases n - i,
        {
            let ghost u = subs[i as int];
            let ghost pre_users = users@;
            assert(chn.subscribers@[i as int]@ == u);
            match self.unsubscribe(users, id, chn.subscribers[i].as_str()) {
                Ok(_) => {},
                Err(e) => {
                    proof {
                        assert(!pre_users.contains_key(u));
                        assert(!old(users)@.contains_key(subs[i as int]));
                    }
                    return Err(e);
                },
            }
            proof {
                let t = subs.subrange(i as int, n);
                t.index_of_first_ensures(u);
                assert(t[0] == u);
                assert(t.remove_value(u) =~= subs.subrange(i + 1, n));
                let p = subs.subrange(0, i as int);
                let q = subs.subrange(0, i + 1);
                assert(q =~= p.push(u));
                assert(old(users)@.contains_key(u));
                lemma_remove_value_no_duplicates(old(users)@[u].subscribes, id@);
                let x = old(users)@[u].subscribes.remove_value(id@);
                x.index_of_first_ensures(id@);
                assert forall|k: Seq<char>| #[trigger] q.contains(k) <==> p.contains(k) || k == u by {
                    lemma_push_contains(p, u, k);
                }
                assert(users@ =~= unsubscribed_all(old(users)@, q, id@));
            }
            i = i + 1;
        }
        let ghost m = users@;
        proof {
            assert(subs.subrange(0, n) =~= subs);
            assert(m.dom() =~= old(users)@.dom());
            assert(subs.subrange(n, n) =~= Seq::<Seq<char>>::empty());
        }
        match users.user_del_channel(owner, id) {
            Ok(_) => {},
            Err(e) => {
                return Err(e);
            },
        }
        proof {
            if mirrored(old(self)@, old(users)@) {
                lemma_owns_change_keeps_mirror(self@, m, owner@, with_owns(m[owner@], m[owner@].owns.remove_value(id@)));
            }
        }
        let ghost chans_before = self@;
        self.remove_channel(id);
        proof {
            assert(self@ =~= old(self)@.remove(id@));
            if mirrored(old(self)@, old(users)@) {
                assert forall|c: Seq<char>, u: Seq<char>|
                    #[trigger] self@.contains_key(c) && #[trigger] users@.contains_key(u) implies (
                    self@[c].subscribers.contains(u) <==> users@[u].subscribes.contains(c)) by {
                    assert(chans_before.contains_key(c));
                }
                assert forall|c: Seq<char>| #[trigger] self@.contains_key(c) implies self@[c].subscribers.no_duplicates() by {
                    assert(chans_before.contains_key(c));
                }
                assert forall|u: Seq<char>| #[trigger] users@.contains_key(u) implies !users@[u].subscribes.contains(id@) by {
                    assert(old(users)@.contains_key(u));
                    assert(users@[u].subscribes == m[u].subscribes);
                    if subs.contains(u) {
                        lemma_remove_value_no_duplicates(old(users)@[u].subscribes, id@);
                    } else {
                        assert(old(self)@.contains_key(id@) && old(users)@.contains_key(u));
                    }
                }
            }
        }
        Ok(true)
    }
}

/// A new channel directory is in agreement with any user directory.
pub proof fn lemma_new_directory_mirrored(users: Map<Seq<char>, UserView>)
    ensures
        mirrored(Map::empty(), users),
{
}

/// No two channels of a directory share a publish key, however many were
/// created.
pub proof fn lemma_publish_keys_distinct(chans: &ChannelInterface, a: Seq<char>, b: Seq<char>)
    requires
        chans.wf(),
        chans@.contains_key(a),
        chans@.contains_key(b),
        a != b,
    ensures
        chans@[a].sendkey != chans@[b].sendkey,
{
    chans.lemma_channels_ok();
}

/// Every id of `subs` is a registered user.
pub open spec fn all_registered(subs: Seq<Seq<char>>, users: Map<Seq<char>, UserView>) -> bool {
    forall|i: int| 0 <= i < subs.len() ==> users.contains_key(#[trigger] subs[i])
}

/// The users after each of `subs` dropped channel `c` from what it follows.
pub open spec fn unsubscribed_all(
    users: Map<Seq<char>, UserView>,
    subs: Seq<Seq<char>>,
    c: Seq<char>,
) -> Map<Seq<char>, UserView> {
    Map::new(
        |k: Seq<char>| users.contains_key(k),
        |k: Seq<char>|
            if subs.contains(k) {
                with_subscribes(users[k], users[k].subscribes.remove_value(c))
            } else {
                users[k]
            },
    )
}

/// The users after channel `c`, followed by `subs` and owned by `owner`, was
/// deleted.
pub open spec fn users_after_delete(
    users: Map<Seq<char>, UserView>,
    subs: Seq<Seq<char>>,
    c: Seq<char>,
    owner: Seq<char>,
) -> Map<Seq<char>, UserView> {
    let m = unsubscribed_all(users, subs, c);
    m.insert(owner, with_owns(m[owner], m[owner].owns.remove_value(c)))
}

/// Changing what a user owns, and nothing it follows, keeps subscriptions in
/// agreement.
pub proof fn lemma_owns_change_keeps_mirror(
    chans: Map<Seq<char>, ChannelView>,
    users: Map<Seq<char>, UserView>,
    u: Seq<char>,
    v: UserView,
)
    requires
        mirrored(chans, users),
        users.contains_key(u),
        v.subscribes == users[u].subscribes,
    ensures
        mirrored(chans, users.insert(u, v)),
{
    assert forall|c2: Seq<char>, u2: Seq<char>|
        #[trigger] chans.contains_key(c2) && #[trigger] users.insert(u, v).contains_key(u2) implies (
        chans[c2].subscribers.contains(u2) <==> users.insert(u, v)[u2].subscribes.contains(c2)) by {
        assert(users.contains_key(u2));
    }
}

/// A successful subscription keeps both sides of every subscription in
/// agreement.
pub proof fn lemma_subscribe_keeps_mirror(
    chans: Map<Seq<char>, ChannelView>,
    users: Map<Seq<char>, UserView>,
    c: Seq<char>,
    u: Seq<char>,
)
    requires
        mirrored(chans, users),
        chans.contains_key(c),
        users.contains_key(u),
        !users[u].subscribes.contains(c),
    ensures
        mirrored(
            chans.insert(c, with_subscribers(chans[c], chans[c].subscribers.push(u))),
            users.insert(u, with_subscribes(users[u], users[u].subscribes.push(c))),
        ),
{
    let nc = chans.insert(c, with_subscribers(chans[c], chans[c].subscribers.push(u)));
    let nu = users.insert(u, with_subscribes(users[u], users[u].subscribes.push(c)));
    assert forall|c2: Seq<char>, u2: Seq<char>|
        #[trigger] nc.contains_key(c2) && #[trigger] nu.contains_key(u2) implies (
        nc[c2].subscribers.contains(u2) <==> nu[u2].subscribes.contains(c2)) by {
        assert(chans.contains_key(c2) && users.contains_key(u2));
        lemma_push_contains(chans[c].subscribers, u, u2);
        lemma_push_contains(users[u].subscribes, c, c2);
    }
    assert forall|c2: Seq<char>| #[trigger] nc.contains_key(c2) implies nc[c2].subscribers.no_duplicates() by {
        assert(chans.contains_key(c2));
        if c2 == c {
            let s = chans[c].subscribers;
            assert(!s.contains(u));
            assert forall|a: int, b: int| 0 <= a < s.push(u).len() && 0 <= b < s.push(u).len() && a != b
                implies s.push(u)[a] != s.push(u)[b] by {
                if a < s.len() && b < s.len() {
                } else if a < s.len() {
                    assert(s[a] == s.push(u)[a]);
                } else {
                    assert(s[b] == s.push(u)[b]);
                }
            }
        }
    }
}

/// An unsubscription keeps both sides of every subscription in agreement.
pub proof fn lemma_unsubscribe_keeps_mirror(
    chans: Map<Seq<char>, ChannelView>,
    users: Map<Seq<char>, UserView>,
    c: Seq<char>,
    u: Seq<char>,
)
    requires
        mirrored(chans, users),
        users_ok(users),
        chans.contains_key(c),
        users.contains_key(u),
    ensures
        mirrored(
            chans.insert(c, with_subscribers(chans[c], chans[c].subscribers.remove_value(u))),
            users.insert(u, with_subscribes(users[u], users[u].subscribes.remove_value(c))),
        ),
{
    let nc = chans.insert(c, with_subscribers(chans[c], chans[c].subscribers.remove_value(u)));
    let nu = users.insert(u, with_subscribes(users[u], users[u].subscribes.remove_value(c)));
    lemma_remove_value_no_duplicates(chans[c].subscribers, u);
    lemma_remove_value_no_duplicates(users[u].subscribes, c);
    assert forall|c2: Seq<char>, u2: Seq<char>|
        #[trigger] nc.contains_key(c2) && #[trigger] nu.contains_key(u2) implies (
        nc[c2].subscribers.contains(u2) <==> nu[u2].subscribes.contains(c2)) by {
        assert(chans.contains_key(c2) && users.contains_key(u2));
    }
    assert forall|c2: Seq<char>| #[trigger] nc.contains_key(c2) implies nc[c2].subscribers.no_duplicates() by {
        assert(chans.contains_key(c2));
    }
}

} // verus!
