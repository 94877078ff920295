//! The credential store gateway: point lookups of `(user id, stored hash)` by
//! username and point updates of a stored hash by user id. The store here is
//! an in-memory table; a deployment reads and writes the same two fields in
//! its relational database, classifies its failures as [`StoreError`], and
//! hands the outcome to the verifier.

use vstd::prelude::*;
use vstd::pervasive::VecAdditionalExecFns;
use crate::secret::SecretBytes;

verus! {

/// An opaque, globally unique user identifier (128 bits, as a UUID is).
#[derive(Clone, Copy, PartialEq, Eq, Structural, Debug)]
pub struct UserId {
    pub value: u128,
}

/// An infrastructure failure of the persistence collaborator, distinct from
/// "no such user".
#[derive(Clone, Copy, PartialEq, Eq, Structural, Debug)]
pub enum StoreError {
    /// The collaborator could not be reached (no connection in time).
    Unreachable,
    /// The read or write itself failed.
    QueryFailed,
}

/// One user's authentication state.
pub struct UserRecord {
    pub username: String,
    pub user_id: UserId,
    pub password_hash: SecretBytes,
}

/// What a record holds, mathematically.
pub ghost struct RowView {
    pub username: Seq<char>,
    pub user_id: UserId,
    pub hash: Seq<u8>,
}

impl View for UserRecord {
    type V = RowView;

    open spec fn view(&self) -> RowView {
        RowView { username: self.username@, user_id: self.user_id, hash: self.password_hash@ }
    }
}

/// The stored hash for a claimed username: the first matching row.
pub open spec fn spec_lookup(rows: Seq<RowView>, username: Seq<char>) -> Option<(UserId, Seq<u8>)>
    decreases rows.len(),
{
    if rows.len() == 0 {
        None
    } else if rows[0].username == username {
        Some((rows[0].user_id, rows[0].hash))
    } else {
        spec_lookup(rows.drop_first(), username)
    }
}

/// The rows after overwriting the stored hash of `user_id`; rows of other
/// users are untouched, and a missing user leaves the store unchanged.
pub open spec fn spec_persist(rows: Seq<RowView>, user_id: UserId, hash: Seq<u8>) -> Seq<RowView> {
    rows.map_values(
        |r: RowView|
            if r.user_id == user_id {
                RowView { username: r.username, user_id: r.user_id, hash }
            } else {
                r
            },
    )
}

/// The in-memory credential store.
pub struct CredentialStore {
    users: Vec<UserRecord>,
}

impl View for CredentialStore {
    type V = Seq<RowView>;

    closed spec fn view(&self) -> Seq<RowView> {
        Seq::new(self.users@.len(), |i: int| self.users@[i]@)
    }
}

impl CredentialStore {
    /// Usernames are unique, and so are user ids.
    pub open spec fn wf(self) -> bool {
        forall|i: int, j: int|
            0 <= i < j < self@.len() ==> #[trigger] self@[i].username != #[trigger] self@[j].username
                && self@[i].user_id != self@[j].user_id
    }

    pub fn new() -> (s: Self)
        ensures
            s@ =~= Seq::<RowView>::empty(),
            s.wf(),
    {
        CredentialStore { users: Vec::new() }
    }

    /// Provision an account: refused (and the store unchanged) when the
    /// username or the id is already taken.
    pub fn add_user(&mut self, username: String, user_id: UserId, password_hash: SecretBytes) -> (r: bool)
        requires
            old(self).wf(),
        ensures
            final(self).wf(),
            r ==> final(self)@ =~= old(self)@.push(
                RowView { username: username@, user_id, hash: password_hash@ },
            ),
            !r ==> final(self)@ == old(self)@,
    {
        let n = self.users.len();
        let mut i: usize = 0;
        while i < n
            invariant
                old(self).wf(),
                self@ == old(self)@,
                n == self.users@.len(),
                i <= n,
                forall|k: int|
                    0 <= k < i ==> (#[trigger] self@[k]).username != username@ && self@[k].user_id
                        != user_id,
            decreases n - i,
        {
            let same_name = crate::strutil::str_eq(self.users[i].username.as_str(), username.as_str());
            if same_name || self.users[i].user_id.value == user_id.value {
                return false;
            }
            i = i + 1;
        }
        let ghost before = self@;
        let ghost row = RowView { username: username@, user_id, hash: password_hash@ };
        proof {
            assert forall|k: int| 0 <= k < before.len() implies #[trigger] before[k].username
                != username@ && before[k].user_id != user_id by {
                assert(self@[k].username != username@);
                assert(self@[k].user_id != user_id);
            }
            assert forall|a: int, b: int| 0 <= a < b < before.len() implies #[trigger] before[a].username
                != #[trigger] before[b].username && before[a].user_id != before[b].user_id by {
                assert(old(self)@[a].username != old(self)@[b].username);
                assert(old(self)@[a].user_id != old(self)@[b].user_id);
            }
        }
        self.users.push(UserRecord { username, user_id, password_hash });
        proof {
            assert(self@ =~= before.push(row));
            assert forall|a: int, b: int| 0 <= a < b < self@.len() implies #[trigger] self@[a].username
                != #[trigger] self@[b].username && self@[a].user_id != self@[b].user_id by {
                assert(self@[a] == before[a]);
                if b < before.len() {
                    assert(self@[b] == before[b]);
                } else {
                    assert(self@[b] == row);
                }
            }
        }
        true
    }

    /// Look the claimed username up; `None` is "no such user".
    pub fn lookup(&self, username: &str) -> (r: Option<(UserId, SecretBytes)>)
        ensures
            match r {
                Some((id, hash)) => spec_lookup(self@, username@) == Some((id, hash@)),
                None => spec_lookup(self@, username@) is None,
            },
    {
        let n = self.users.len();
        let mut i: usize = 0;
        proof {
            assert(self@.skip(0) =~= self@);
        }
        while i < n
            invariant
                n == self.users@.len(),
                i <= n,
                spec_lookup(self@, username@) == spec_lookup(self@.skip(i as int), username@),
            decreases n - i,
        {
            proof {
                assert(self@.skip(i as int)[0] == self@[i as int]);
                assert(self@.skip(i as int).drop_first() =~= self@.skip(i + 1));
            }
            if crate::strutil::str_eq(self.users[i].username.as_str(), username) {
                let id = self.users[i].user_id;
                let hash = crate::strutil::copy_bytes(self.users[i].password_hash.expose_secret());
                return Some((id, SecretBytes::new(hash)));
            }
            i = i + 1;
        }
        proof {
            assert(self@.skip(i as int).len() == 0);
        }
        None
    }

    /// Overwrite the stored hash of `user_id`. The write is atomic from the
    /// caller's side: afterwards the new hash is authoritative for that user
    /// and no other row has moved.
    pub fn persist(&mut self, user_id: UserId, new_hash: SecretBytes)
        requires
            old(self).wf(),
        ensures
            final(self).wf(),
            final(self)@ == spec_persist(old(self)@, user_id, new_hash@),
    {
        let ghost before = self@;
        let ghost goal = spec_persist(before, user_id, new_hash@);
        let n = self.users.len();
        let mut i: usize = 0;
        while i < n
            invariant
                old(self).wf(),
                before == old(self)@,
                goal == spec_persist(before, user_id, new_hash@),
                n == self.users@.len(),
                i <= n,
                self@.len() == before.len(),
                forall|k: int| 0 <= k < i ==> (#[trigger] self@[k]) == goal[k],
                forall|k: int| i <= k < n ==> (#[trigger] self@[k]) == before[k],
            decreases n - i,
        {
            let ghost pre = self@;
            let ghost pre_users = self.users@;
            if self.users[i].user_id.value == user_id.value {
                let hash = crate::strutil::copy_bytes(new_hash.expose_secret());
                let username = self.users[i].username.clone();
                proof {
                    assert(pre[i as int] == before[i as int]);
                    assert(before[i as int].user_id == UserId { value: before[i as int].user_id.value });
                    assert(before[i as int].user_id == user_id);
                    assert(username@ == before[i as int].username);
                }
                self.users.set(
                    i,
                    UserRecord { username, user_id, password_hash: SecretBytes::new(hash) },
                );
                proof {
                    assert(self.users@ == pre_users.update(i as int, self.users@[i as int]));
                    assert(self.users@[i as int]@ == RowView {
                        username: before[i as int].username,
                        user_id: before[i as int].user_id,
                        hash: new_hash@,
                    });
                    assert(goal[i as int] == RowView {
                        username: before[i as int].username,
                        user_id: before[i as int].user_id,
                        hash: new_hash@,
                    });
                    assert(self@[i as int] == goal[i as int]);
                    assert forall|k: int| 0 <= k < self@.len() && k != i implies self@[k]
                        == pre[k] by {
                        assert(self.users@[k] == pre_users[k]);
                        assert(self@[k] == self.users@[k]@);
                        assert(pre[k] == pre_users[k]@);
                    }
                    assert forall|k: int| 0 <= k < i + 1 implies self@[k] == goal[k] by {
                        if k < i {
                            assert(pre[k] == goal[k]);
                            assert(self@[k] == pre[k]);
                        } else {
                            assert(self@[i as int] == goal[i as int]);
                        }
                    }
                    assert forall|k: int| i + 1 <= k < n implies self@[k] == before[k] by {
                        assert(pre[k] == before[k]);
                        assert(self@[k] == pre[k]);
                    }
                }
            } else {
                proof {
                    assert(pre[i as int] == before[i as int]);
                    assert(before[i as int].user_id.value != user_id.value);
                    assert(goal[i as int] == before[i as int]);
                    assert(self@[i as int] == goal[i as int]);
                    assert forall|k: int| 0 <= k < i + 1 implies self@[k] == goal[k] by {
                        if k < i {
                            assert(pre[k] == goal[k]);
                        }
                    }
                    assert forall|k: int| i + 1 <= k < n implies self@[k] == before[k] by {
                        assert(pre[k] == before[k]);
                    }
                }
            }
            i = i + 1;
        }
        proof {
            assert(self@ =~= goal);
            assert forall|a: int, b: int| 0 <= a < b < self@.len() implies #[trigger] self@[a].username
                != #[trigger] self@[b].username && self@[a].user_id != self@[b].user_id by {
                assert(old(self)@[a].username != old(self)@[b].username);
                assert(old(self)@[a].user_id != old(self)@[b].user_id);
                assert(goal[a].username == before[a].username && goal[a].user_id == before[a].user_id);
                assert(goal[b].username == before[b].username && goal[b].user_id == before[b].user_id);
            }
        }
    }
}

} // verus!
