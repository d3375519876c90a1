use vstd::prelude::*;

use crate::error::DirError;
use crate::names::{copy_list, ids_of, lemma_remove_value_no_duplicates, list_contains, list_remove_first};
use crate::storage::SingleKvStorage;

verus! {

/// A user of the push platform, with the channels it owns and follows.
pub struct User {
    pub id: String,
    pub name: String,
    pub owns: Vec<String>,
    pub subscribes: Vec<String>,
}

/// What a `User` holds, as mathematical values.
pub struct UserView {
    pub id: Seq<char>,
    pub name: Seq<char>,
    pub owns: Seq<Seq<char>>,
    pub subscribes: Seq<Seq<char>>,
}

impl View for User {
    type V = UserView;

    open spec fn view(&self) -> UserView {
        UserView {
            id: self.id@,
            name: self.name@,
            owns: ids_of(self.owns@),
            subscribes: ids_of(self.subscribes@),
        }
    }
}

impl User {
    pub fn copy(&self) -> (r: User)
        ensures
            r@ == self@,
    {
        User {
            id: self.id.clone(),
            name: self.name.clone(),
            owns: copy_list(&self.owns),
            subscribes: copy_list(&self.subscribes),
        }
    }
}

/// A freshly registered user: no channel owned, none followed.
pub open spec fn new_user_view(id: Seq<char>, name: Seq<char>) -> UserView {
    UserView { id, name, owns: Seq::empty(), subscribes: Seq::empty() }
}

pub open spec fn with_subscribes(u: UserView, s: Seq<Seq<char>>) -> UserView {
    UserView { subscribes: s, ..u }
}

pub open spec fn with_owns(u: UserView, s: Seq<Seq<char>>) -> UserView {
    UserView { owns: s, ..u }
}

/// Each record is stored under its own id, and follows no channel twice.
pub open spec fn users_ok(m: Map<Seq<char>, UserView>) -> bool {
    forall|k: Seq<char>| #[trigger]
        m.contains_key(k) ==> m[k].id == k && m[k].subscribes.no_duplicates()
}

/// The user directory: user id to user record.
pub struct UserInterface {
    storage: SingleKvStorage<User>,
}

impl View for UserInterface {
    type V = Map<Seq<char>, UserView>;

    closed spec fn view(&self) -> Map<Seq<char>, UserView> {
        self.storage@.map_values(|u: User| u@)
    }
}

impl UserInterface {
    pub closed spec fn wf(&self) -> bool {
        self.storage.wf() && users_ok(self@)
    }

    pub proof fn lemma_users_ok(&self)
        requires
            self.wf(),
        ensures
            users_ok(self@),
    {
    }

    pub fn new() -> (r: UserInterface)
        ensures
            r.wf(),
            r@ == Map::<Seq<char>, UserView>::empty(),
    {
        let r = UserInterface { storage: SingleKvStorage::new() };
        assert(r@ =~= Map::<Seq<char>, UserView>::empty());
        r
    }

    pub fn get_user(&self, id: &str) -> (r: Result<User, DirError>)
        requires
            self.wf(),
        ensures
            match r {
                Ok(u) => self@.contains_key(id@) && u@ == self@[id@],
                Err(e) => e == DirError::NotFound && !self@.contains_key(id@),
            },
    {
        match self.storage.get_single(id) {
            Some(u) => Ok(u.copy()),
            None => Err(DirError::NotFound),
        }
    }

    pub fn contains(&self, id: &str) -> (r: bool)
        requires
            self.wf(),
        ensures
            r == self@.contains_key(id@),
    {
        self.storage.contains(id)
    }

    /// Stores `u` under its own id.
    fn store(&mut self, u: User)
        requires
            old(self).wf(),
            u@.subscribes.no_duplicates(),
        ensures
            final(self).wf(),
            final(self)@ == old(self)@.insert(u@.id, u@),
    {
        let ghost v = u@;
        let id = u.id.clone();
        self.storage.put_single(id.as_str(), u);
        assert(self@ =~= old(self)@.insert(v.id, v));
    }

    /// Registers `id` under the display name `name`, which the push platform
    /// resolved for it.
    pub fn add_user(&mut self, id: &str, name: &str) -> (r: Result<bool, DirError>)
        requires
            old(self).wf(),
        ensures
            final(self).wf(),
            old(self)@.contains_key(id@) ==> r == Err::<bool, DirError>(DirError::AlreadyExists)
                && final(self)@ == old(self)@,
            !old(self)@.contains_key(id@) ==> r == Ok::<bool, DirError>(true) && final(self)@
                == old(self)@.insert(id@, new_user_view(id@, name@)),
    {
        if self.storage.contains(id) {
            return Err(DirError::AlreadyExists);
        }
        let u = User {
            id: id.to_owned(),
            name: name.to_owned(),
            owns: Vec::new(),
            subscribes: Vec::new(),
        };
        assert(ids_of(u.owns@) =~= Seq::<Seq<char>>::empty());
        assert(ids_of(u.subscribes@) =~= Seq::<Seq<char>>::empty());
        assert(u@ =~= new_user_view(id@, name@));
        self.store(u);
        Ok(true)
    }

    /// Adds `channel` to what `user` follows.
    pub fn user_subscribe(&mut self, user: &str, channel: &str) -> (r: Result<bool, DirError>)
        requires
            old(self).wf(),
        ensures
            final(self).wf(),
            !old(self)@.contains_key(user@) ==> r == Err::<bool, DirError>(DirError::NotFound)
                && final(self)@ == old(self)@,
            old(self)@.contains_key(user@) && old(self)@[user@].subscribes.contains(channel@) ==> r
                == Err::<bool, DirError>(DirError::AlreadyExists) && final(self)@ == old(self)@,
            old(self)@.contains_key(user@) && !old(self)@[user@].subscribes.contains(channel@) ==> r
                == Ok::<bool, DirError>(true) && final(self)@ == old(self)@.insert(
                user@,
                with_subscribes(old(self)@[user@], old(self)@[user@].subscribes.push(channel@)),
            ),
    {
        let mut u = match self.get_user(user) {
            Ok(u) => u,
            Err(e) => {
                return Err(e);
            },
        };
        if list_contains(&u.subscribes, channel) {
            return Err(DirError::AlreadyExists);
        }
        proof {
            self.lemma_users_ok();
        }
        let ghost before = u@;
        u.subscribes.push(channel.to_owned());
        assert(ids_of(u.subscribes@) =~= before.subscribes.push(channel@));
        assert(u@ =~= with_subscribes(before, before.subscribes.push(channel@)));
        self.store(u);
        Ok(true)
    }

    /// Removes the first entry `channel` from what `user` follows; where there
    /// is none, the record stays as it was.
    pub fn user_unsubscribe(&mut self, user: &str, channel: &str) -> (r: Result<bool, DirError>)
        requires
            old(self).wf(),
        ensures
            final(self).wf(),
            !old(self)@.contains_key(user@) ==> r == Err::<bool, DirError>(DirError::NotFound)
                && final(self)@ == old(self)@,
            old(self)@.contains_key(user@) ==> r == Ok::<bool, DirError>(true) && final(self)@
                == old(self)@.insert(
                user@,
                with_subscribes(old(self)@[user@], old(self)@[user@].subscribes.remove_value(channel@)),
            ),
    {
        let mut u = match self.get_user(user) {
            Ok(u) => u,
            Err(e) => {
                return Err(e);
            },
        };
        proof {
            self.lemma_users_ok();
        }
        let ghost before = u@;
        list_remove_first(&mut u.subscribes, channel);
        assert(u@ =~= with_subscribes(before, before.subscribes.remove_value(channel@)));
        proof {
            lemma_remove_value_no_duplicates(before.subscribes, channel@);
        }
        self.store(u);
        Ok(true)
    }

    /// Records that `user` owns `channel`.
    pub fn user_new_channel(&mut self, user: &str, channel: &str) -> (r: Result<bool, DirError>)
        requires
            old(self).wf(),
        ensures
            final(self).wf(),
            !old(self)@.contains_key(user@) ==> r == Err::<bool, DirError>(DirError::NotFound)
                && final(self)@ == old(self)@,
            old(self)@.contains_key(user@) ==> r == Ok::<bool, DirError>(true) && final(self)@
                == old(self)@.insert(
                user@,
                with_owns(old(self)@[user@], old(self)@[user@].owns.push(channel@)),
            ),
    {
        let mut u = match self.get_user(user) {
            Ok(u) => u,
            Err(e) => {
                return Err(e);
            },
        };
        proof {
            self.lemma_users_ok();
        }
        let ghost before = u@;
        u.owns.push(channel.to_owned());
        assert(ids_of(u.owns@) =~= before.owns.push(channel@));
        assert(u@ =~= with_owns(before, before.owns.push(channel@)));
        self.store(u);
        Ok(true)
    }

    /// Removes the first entry `channel` from what `user` owns.
    pub fn user_del_channel(&mut self, user: &str, channel: &str) -> (r: Result<bool, DirError>)
        requires
            old(self).wf(),
        ensures
            final(self).wf(),
            !old(self)@.contains_key(user@) ==> r == Err::<bool, DirError>(DirError::NotFound)
                && final(self)@ == old(self)@,
            old(self)@.contains_key(user@) ==> r == Ok::<bool, DirError>(true) && final(self)@
                == old(self)@.insert(
                user@,
                with_owns(old(self)@[user@], old(self)@[user@].owns.remove_value(channel@)),
            ),
    {
        let mut u = match self.get_user(user) {
            Ok(u) => u,
            Err(e) => {
                return Err(e);
            },
        };
        proof {
            self.lemma_users_ok();
        }
        let ghost before = u@;
        list_remove_first(&mut u.owns, channel);
        assert(u@ =~= with_owns(before, before.owns.remove_value(channel@)));
        self.store(u);
        Ok(true)
    }
}

} // verus!
