//! The user directory and the friend graph: presence listings, user lookup,
//! and the friend-request lifecycle.
use vstd::prelude::*;

use crate::lex::str_eq;
use crate::model::{
    are_friends, pending_request, user_named, user_index_named, user_with_id, user_index_with_id,
    FriendRequestRow, RequestStatus, ServerState, ServiceError,
};

verus! {

/// The usernames of the users currently marked online, in stored order.
pub open spec fn online_names(users: Seq<crate::model::UserRow>) -> Seq<Seq<char>>
    decreases users.len(),
{
    if users.len() == 0 {
        Seq::empty()
    } else if users[0].is_online {
        seq![users[0].username@] + online_names(users.drop_first())
    } else {
        online_names(users.drop_first())
    }
}

/// All usernames, except an optional excluded one, in stored order.
pub open spec fn all_names_except(
    users: Seq<crate::model::UserRow>,
    exclude: Option<Seq<char>>,
) -> Seq<Seq<char>>
    decreases users.len(),
{
    if users.len() == 0 {
        Seq::empty()
    } else if exclude matches Some(e) && users[0].username@ == e {
        all_names_except(users.drop_first(), exclude)
    } else {
        seq![users[0].username@] + all_names_except(users.drop_first(), exclude)
    }
}

/// Index of the pending request row for this ordered pair.
pub open spec fn pending_index(reqs: Seq<FriendRequestRow>, from: Seq<char>, to: Seq<char>) -> int {
    choose|i: int|
        0 <= i < reqs.len() && (#[trigger] reqs[i].from_user_id@) == from && reqs[i].to_user_id@
            == to && reqs[i].status == RequestStatus::Pending
}

impl ServerState {
    /// Usernames of all online users.
    pub fn list_online(&self) -> (r: Vec<String>)
        ensures
            crate::crypto::views_of(r@) == online_names(self.users@),
    {
        let ghost full = self.users@;
        let mut out: Vec<String> = Vec::new();
        let mut i: usize = 0;
        proof {
            assert(full.skip(0) =~= full);
            assert(crate::crypto::views_of(out@) =~= Seq::<Seq<char>>::empty());
            assert(online_names(full) =~= crate::crypto::views_of(out@) + online_names(
                full.skip(0),
            ));
        }
        while i < self.users.len()
            invariant
                0 <= i <= self.users@.len(),
                full == self.users@,
                online_names(full) == crate::crypto::views_of(out@) + online_names(
                    full.skip(i as int),
                ),
            decreases self.users@.len() - i,
        {
            proof {
                assert(full.skip(i as int)[0] == full[i as int]);
                assert(full.skip(i as int).drop_first() =~= full.skip(i as int + 1));
            }
            if self.users[i].is_online {
                let ghost pre = out@;
                out.push(self.users[i].username.clone());
                proof {
                    assert(crate::crypto::views_of(out@) =~= crate::crypto::views_of(pre).push(
                        full[i as int].username@,
                    ));
                    assert(online_names(full.skip(i as int)) =~= seq![full[i as int].username@]
                        + online_names(full.skip(i as int + 1)));
                    assert(crate::crypto::views_of(pre) + online_names(full.skip(i as int))
                        =~= crate::crypto::views_of(out@) + online_names(full.skip(i as int + 1)));
                }
            } else {
                proof {
                    assert(online_names(full.skip(i as int)) =~= online_names(
                        full.skip(i as int + 1),
                    ));
                }
            }
            i = i + 1;
        }
        proof {
            assert(full.skip(self.users@.len() as int) =~= Seq::<crate::model::UserRow>::empty());
            assert(online_names(full) =~= crate::crypto::views_of(out@));
        }
        out
    }

    /// Usernames of all users, optionally leaving one name out.
    pub fn list_all(&self, exclude: Option<&str>) -> (r: Vec<String>)
        ensures
            exclude matches Some(e) ==> crate::crypto::views_of(r@) == all_names_except(
                self.users@,
                Some(e@),
            ),
            exclude is None ==> crate::crypto::views_of(r@) == all_names_except(
                self.users@,
                None,
            ),
    {
        let ghost ex: Option<Seq<char>> = match exclude {
            Some(e) => Some(e@),
            None => None,
        };
        let ghost full = self.users@;
        let mut out: Vec<String> = Vec::new();
        let mut i: usize = 0;
        proof {
            assert(full.skip(0) =~= full);
            assert(crate::crypto::views_of(out@) =~= Seq::<Seq<char>>::empty());
            assert(all_names_except(full, ex) =~= crate::crypto::views_of(out@)
                + all_names_except(full.skip(0), ex));
        }
        while i < self.users.len()
            invariant
                0 <= i <= self.users@.len(),
                full == self.users@,
                (ex matches Some(e) ==> (exclude matches Some(s) && s@ == e)),
                (ex is None ==> exclude is None),
                all_names_except(full, ex) == crate::crypto::views_of(out@) + all_names_except(
                    full.skip(i as int),
                    ex,
                ),
            decreases self.users@.len() - i,
        {
            proof {
                assert(full.skip(i as int)[0] == full[i as int]);
                assert(full.skip(i as int).drop_first() =~= full.skip(i as int + 1));
            }
            let skip_this = match exclude {
                Some(e) => str_eq(self.users[i].username.as_str(), e),
                None => false,
            };
            if !skip_this {
                let ghost pre = out@;
                out.push(self.users[i].username.clone());
                proof {
                    assert(crate::crypto::views_of(out@) =~= crate::crypto::views_of(pre).push(
                        full[i as int].username@,
                    ));
                    assert(all_names_except(full.skip(i as int), ex)
                        =~= seq![full[i as int].username@] + all_names_except(
                        full.skip(i as int + 1),
                        ex,
                    ));
                    assert(crate::crypto::views_of(pre) + all_names_except(
                        full.skip(i as int),
                        ex,
                    ) =~= crate::crypto::views_of(out@) + all_names_except(
                        full.skip(i as int + 1),
                        ex,
                    ));
                }
            } else {
                proof {
                    assert(all_names_except(full.skip(i as int), ex) =~= all_names_except(
                        full.skip(i as int + 1),
                        ex,
                    ));
                }
            }
            i = i + 1;
        }
        proof {
            assert(full.skip(self.users@.len() as int) =~= Seq::<crate::model::UserRow>::empty());
            assert(all_names_except(full, ex) =~= crate::crypto::views_of(out@));
        }
        out
    }

    /// Finds the index of a pending friend request for an ordered pair.
    fn find_pending(&self, from: &str, to: &str) -> (r: Option<usize>)
        ensures
            r matches Some(i) ==> i < self.friend_requests@.len()
                && self.friend_requests@[i as int].from_user_id@ == from@
                && self.friend_requests@[i as int].to_user_id@ == to@
                && self.friend_requests@[i as int].status == RequestStatus::Pending,
            r is None ==> !pending_request(self.friend_requests@, from@, to@),
    {
        let mut i: usize = 0;
        while i < self.friend_requests.len()
            invariant
                0 <= i <= self.friend_requests@.len(),
                forall|j: int|
                    0 <= j < i ==> !((#[trigger] self.friend_requests@[j].from_user_id@) == from@
                        && self.friend_requests@[j].to_user_id@ == to@
                        && self.friend_requests@[j].status == RequestStatus::Pending),
            decreases self.friend_requests@.len() - i,
        {
            let row = &self.friend_requests[i];
            if str_eq(row.from_user_id.as_str(), from) && str_eq(row.to_user_id.as_str(), to)
                && matches!(row.status, RequestStatus::Pending) {
                return Some(i);
            }
            i = i + 1;
        }
        None
    }

    /// Decides whether two users are friends.
    pub fn check_friends(&self, a: &str, b: &str) -> (r: bool)
        ensures
            r == are_friends(self.friend_requests@, a@, b@),
    {
        let mut i: usize = 0;
        while i < self.friend_requests.len()
            invariant
                0 <= i <= self.friend_requests@.len(),
                forall|j: int|
                    0 <= j < i ==> !((#[trigger] self.friend_requests@[j].status)
                        == RequestStatus::Accepted && ((self.friend_requests@[j].from_user_id@
                        == a@ && self.friend_requests@[j].to_user_id@ == b@) || (
                    self.friend_requests@[j].from_user_id@ == b@
                        && self.friend_requests@[j].to_user_id@ == a@))),
            decreases self.friend_requests@.len() - i,
        {
            let row = &self.friend_requests[i];
            if matches!(row.status, RequestStatus::Accepted) {
                let fwd = str_eq(row.from_user_id.as_str(), a) && str_eq(
                    row.to_user_id.as_str(),
                    b,
                );
                let bwd = str_eq(row.from_user_id.as_str(), b) && str_eq(
                    row.to_user_id.as_str(),
                    a,
                );
                if fwd || bwd {
                    return true;
                }
            }
            i = i + 1;
        }
        false
    }

    /// Sends a friend request from a user to a username: rejected when the
    /// target does not exist, is the sender, is already a friend, or already
    /// has a pending request from the sender.
    pub fn send_friend_request(
        &mut self,
        from_uid: &str,
        to_username: &str,
        message: &str,
        now: i64,
    ) -> (r: Result<(), ServiceError>)
        requires
            old(self).wf(),
        ensures
            final(self).wf(),
            (r matches Err(e) && e == ServiceError::UserNotFound) <==> !user_named(
                old(self).users@,
                to_username@,
            ),
            (r matches Err(e) && e == ServiceError::SelfNotAllowed) <==> (user_named(
                old(self).users@,
                to_username@,
            ) && old(self).users@[user_index_named(old(self).users@, to_username@)].id@
                == from_uid@),
            (r matches Err(e) && e == ServiceError::AlreadyFriends) <==> (user_named(
                old(self).users@,
                to_username@,
            ) && old(self).users@[user_index_named(old(self).users@, to_username@)].id@
                != from_uid@ && are_friends(
                old(self).friend_requests@,
                from_uid@,
                old(self).users@[user_index_named(old(self).users@, to_username@)].id@,
            )),
            (r matches Err(e) && e == ServiceError::AlreadyPending) <==> (user_named(
                old(self).users@,
                to_username@,
            ) && old(self).users@[user_index_named(old(self).users@, to_username@)].id@
                != from_uid@ && !are_friends(
                old(self).friend_requests@,
                from_uid@,
                old(self).users@[user_index_named(old(self).users@, to_username@)].id@,
            ) && pending_request(
                old(self).friend_requests@,
                from_uid@,
                old(self).users@[user_index_named(old(self).users@, to_username@)].id@,
            )),
            r is Err ==> final(self).same_as(*old(self)),
            r is Ok ==> ({
                let to_id = old(self).users@[user_index_named(
                    old(self).users@,
                    to_username@,
                )].id@;
                &&& final(self).friend_requests@.len() == old(self).friend_requests@.len() + 1
                &&& final(self).friend_requests@.drop_last() == old(self).friend_requests@
                &&& final(self).friend_requests@.last().from_user_id@ == from_uid@
                &&& final(self).friend_requests@.last().to_user_id@ == to_id
                &&& final(self).friend_requests@.last().message@ == message@
                &&& final(self).friend_requests@.last().status == RequestStatus::Pending
                &&& final(self).friend_requests@.last().created_at == now
                &&& final(self).same_but_friends(*old(self))
            }),
    {
        let to_idx = match self.find_user_by_name(to_username) {
            Some(i) => i,
            None => {
                return Err(ServiceError::UserNotFound);
            },
        };
        proof {
            let ci = user_index_named(self.users@, to_username@);
            assert(self.users@[to_idx as int].username@ == to_username@);
            if ci != to_idx {
                assert(self.users@[ci].username@ == self.users@[to_idx as int].username@);
            }
        }
        let to_id = self.users[to_idx].id.clone();
        if str_eq(to_id.as_str(), from_uid) {
            return Err(ServiceError::SelfNotAllowed);
        }
        if self.check_friends(from_uid, to_id.as_str()) {
            return Err(ServiceError::AlreadyFriends);
        }
        if self.find_pending(from_uid, to_id.as_str()).is_some() {
            proof {
                assert(pending_request(self.friend_requests@, from_uid@, to_id@));
            }
            return Err(ServiceError::AlreadyPending);
        }
        let ghost tid = to_id@;
        let row = FriendRequestRow {
            from_user_id: String::from_str(from_uid),
            to_user_id: to_id,
            message: String::from_str(message),
            status: RequestStatus::Pending,
            created_at: now,
        };
        self.friend_requests.push(row);
        proof {
            let nf = self.friend_requests@;
            let of = old(self).friend_requests@;
            assert(nf.last().from_user_id@ == from_uid@);
            assert(nf.last().to_user_id@ == tid);
            assert(tid != from_uid@);
            assert forall|i: int| 0 <= i < nf.len() implies (#[trigger] nf[i].from_user_id@)
                != nf[i].to_user_id@ by {
                if i < of.len() {
                    assert(nf[i] == of[i]);
                    assert(of[i].from_user_id@ != of[i].to_user_id@);
                } else {
                    assert(i == nf.len() - 1);
                    assert(nf[i] == nf.last());
                }
            }
            assert forall|i: int, j: int| 0 <= i < j < nf.len() implies !((
            #[trigger] nf[i].from_user_id@) == (#[trigger] nf[j].from_user_id@)
                && nf[i].to_user_id@ == nf[j].to_user_id@ && nf[i].status == RequestStatus::Pending
                && nf[j].status == RequestStatus::Pending) by {
                if j < of.len() {
                    assert(nf[i] == of[i] && nf[j] == of[j]);
                } else {
                    assert(nf[i] == of[i]);
                }
            }
        }
        Ok(())
    }

    /// All fields but the friend-request table coincide.
    pub open spec fn same_but_friends(self, other: ServerState) -> bool {
        &&& self.users@ == other.users@
        &&& self.creds@ == other.creds@
        &&& self.sessions@ == other.sessions@
        &&& self.session_events@ == other.session_events@
        &&& self.groups@ == other.groups@
        &&& self.members@ == other.members@
        &&& self.invites@ == other.invites@
        &&& self.messages@ == other.messages@
        &&& self.next_user == other.next_user
        &&& self.next_group == other.next_group
        &&& self.next_invite == other.next_invite
        &&& self.next_message == other.next_message
        &&& self.next_event == other.next_event
    }

    /// Accepts the pending request sent by `from_username` to this user:
    /// the row becomes the symmetric friendship fact.
    pub fn accept_friend_request(&mut self, uid: &str, from_username: &str) -> (r: Result<
        (),
        ServiceError,
    >)
        requires
            old(self).wf(),
        ensures
            final(self).wf(),
            (r matches Err(e) && e == ServiceError::UserNotFound) <==> !user_named(
                old(self).users@,
                from_username@,
            ),
            (r matches Err(e) && e == ServiceError::NoSuchRequest) <==> (user_named(
                old(self).users@,
                from_username@,
            ) && !pending_request(
                old(self).friend_requests@,
                old(self).users@[user_index_named(old(self).users@, from_username@)].id@,
                uid@,
            )),
            r is Err ==> final(self).same_as(*old(self)),
            r is Ok ==> ({
                let from_id = old(self).users@[user_index_named(
                    old(self).users@,
                    from_username@,
                )].id@;
                let pi = pending_index(old(self).friend_requests@, from_id, uid@);
                &&& pending_request(old(self).friend_requests@, from_id, uid@)
                &&& final(self).friend_requests@.len() == old(self).friend_requests@.len()
                &&& (forall|j: int|
                    0 <= j < old(self).friend_requests@.len() && j != pi ==> final(self).friend_requests@[j] == old(self).friend_requests@[j])
                &&& final(self).friend_requests@[pi].status == RequestStatus::Accepted
                &&& final(self).friend_requests@[pi].from_user_id@ == from_id
                &&& final(self).friend_requests@[pi].to_user_id@ == uid@
                &&& are_friends(final(self).friend_requests@, uid@, from_id)
                &&& final(self).same_but_friends(*old(self))
            }),
    {
        let from_idx = match self.find_user_by_name(from_username) {
            Some(i) => i,
            None => {
                return Err(ServiceError::UserNotFound);
            },
        };
        proof {
            let ci = user_index_named(self.users@, from_username@);
            assert(self.users@[from_idx as int].username@ == from_username@);
            if ci != from_idx {
                assert(self.users@[ci].username@ == self.users@[from_idx as int].username@);
            }
        }
        let from_id = self.users[from_idx].id.clone();
        let pi = match self.find_pending(from_id.as_str(), uid) {
            Some(i) => i,
            None => {
                return Err(ServiceError::NoSuchRequest);
            },
        };
        proof {
            assert(pending_request(self.friend_requests@, from_id@, uid@));
            let ci = pending_index(self.friend_requests@, from_id@, uid@);
            assert(self.friend_requests@[pi as int].from_user_id@ == from_id@
                && self.friend_requests@[pi as int].to_user_id@ == uid@
                && self.friend_requests@[pi as int].status == RequestStatus::Pending);
            if ci != pi {
                assert(self.friend_requests@[ci].from_user_id@
                    == self.friend_requests@[pi as int].from_user_id@);
            }
        }
        let updated = FriendRequestRow {
            from_user_id: self.friend_requests[pi].from_user_id.clone(),
            to_user_id: self.friend_requests[pi].to_user_id.clone(),
            message: self.friend_requests[pi].message.clone(),
            status: RequestStatus::Accepted,
            created_at: self.friend_requests[pi].created_at,
        };
        self.friend_requests[pi] = updated;
        proof {
            let nf = self.friend_requests@;
            let of = old(self).friend_requests@;
            assert forall|i: int, j: int| 0 <= i < j < nf.len() implies !((
            #[trigger] nf[i].from_user_id@) == (#[trigger] nf[j].from_user_id@)
                && nf[i].to_user_id@ == nf[j].to_user_id@ && nf[i].status == RequestStatus::Pending
                && nf[j].status == RequestStatus::Pending) by {
                if i != pi as int && j != pi as int {
                    assert(nf[i] == of[i] && nf[j] == of[j]);
                }
            }
            assert(nf[pi as int].status == RequestStatus::Accepted);
        }
        Ok(())
    }

    /// Rejects the pending request sent by `from_username` to this user.
    pub fn reject_friend_request(&mut self, uid: &str, from_username: &str) -> (r: Result<
        (),
        ServiceError,
    >)
        requires
            old(self).wf(),
        ensures
            final(self).wf(),
            (r matches Err(e) && e == ServiceError::UserNotFound) <==> !user_named(
                old(self).users@,
                from_username@,
            ),
            (r matches Err(e) && e == ServiceError::NoSuchRequest) <==> (user_named(
                old(self).users@,
                from_username@,
            ) && !pending_request(
                old(self).friend_requests@,
                old(self).users@[user_index_named(old(self).users@, from_username@)].id@,
                uid@,
            )),
            r is Err ==> final(self).same_as(*old(self)),
            r is Ok ==> ({
                let from_id = old(self).users@[user_index_named(
                    old(self).users@,
                    from_username@,
                )].id@;
                let pi = pending_index(old(self).friend_requests@, from_id, uid@);
                &&& final(self).friend_requests@.len() == old(self).friend_requests@.len()
                &&& (forall|j: int|
                    0 <= j < old(self).friend_requests@.len() && j != pi ==> final(self).friend_requests@[j] == old(self).friend_requests@[j])
                &&& final(self).friend_requests@[pi].status == RequestStatus::Rejected
                &&& final(self).same_but_friends(*old(self))
            }),
    {
        let from_idx = match self.find_user_by_name(from_username) {
            Some(i) => i,
            None => {
                return Err(ServiceError::UserNotFound);
            },
        };
        proof {
            let ci = user_index_named(self.users@, from_username@);
            assert(self.users@[from_idx as int].username@ == from_username@);
            if ci != from_idx {
                assert(self.users@[ci].username@ == self.users@[from_idx as int].username@);
            }
        }
        let from_id = self.users[from_idx].id.clone();
        let pi = match self.find_pending(from_id.as_str(), uid) {
            Some(i) => i,
            None => {
                return Err(ServiceError::NoSuchRequest);
            },
        };
        proof {
            assert(pending_request(self.friend_requests@, from_id@, uid@));
            let ci = pending_index(self.friend_requests@, from_id@, uid@);
            assert(self.friend_requests@[pi as int].from_user_id@ == from_id@
                && self.friend_requests@[pi as int].to_user_id@ == uid@
                && self.friend_requests@[pi as int].status == RequestStatus::Pending);
            if ci != pi {
                assert(self.friend_requests@[ci].from_user_id@
                    == self.friend_requests@[pi as int].from_user_id@);
            }
        }
        let updated = FriendRequestRow {
            from_user_id: self.friend_requests[pi].from_user_id.clone(),
            to_user_id: self.friend_requests[pi].to_user_id.clone(),
            message: self.friend_requests[pi].message.clone(),
            status: RequestStatus::Rejected,
            created_at: self.friend_requests[pi].created_at,
        };
        self.friend_requests[pi] = updated;
        proof {
            let nf = self.friend_requests@;
            let of = old(self).friend_requests@;
            assert forall|i: int, j: int| 0 <= i < j < nf.len() implies !((
            #[trigger] nf[i].from_user_id@) == (#[trigger] nf[j].from_user_id@)
                && nf[i].to_user_id@ == nf[j].to_user_id@ && nf[i].status == RequestStatus::Pending
                && nf[j].status == RequestStatus::Pending) by {
                if i != pi as int && j != pi as int {
                    assert(nf[i] == of[i] && nf[j] == of[j]);
                }
            }
        }
        Ok(())
    }

    /// Usernames of this user's friends, one per accepted request that
    /// involves the user, in stored order.
    pub fn list_friends(&self, uid: &str) -> (r: Vec<String>)
        requires
            self.wf(),
        ensures
            crate::crypto::views_of(r@) == friend_names(
                self.friend_requests@,
                self.users@,
                uid@,
            ),
    {
        let ghost full = self.friend_requests@;
        let mut out: Vec<String> = Vec::new();
        let mut i: usize = 0;
        proof {
            assert(full.skip(0) =~= full);
            assert(crate::crypto::views_of(out@) =~= Seq::<Seq<char>>::empty());
            assert(friend_names(full, self.users@, uid@) =~= crate::crypto::views_of(out@)
                + friend_names(full.skip(0), self.users@, uid@));
        }
        while i < self.friend_requests.len()
            invariant
                0 <= i <= self.friend_requests@.len(),
                self.wf(),
                full == self.friend_requests@,
                friend_names(full, self.users@, uid@) == crate::crypto::views_of(out@)
                    + friend_names(full.skip(i as int), self.users@, uid@),
            decreases self.friend_requests@.len() - i,
        {
            proof {
                assert(full.skip(i as int)[0] == full[i as int]);
                assert(full.skip(i as int).drop_first() =~= full.skip(i as int + 1));
            }
            let row = &self.friend_requests[i];
            let accepted = matches!(row.status, RequestStatus::Accepted);
            let im_from = str_eq(row.from_user_id.as_str(), uid);
            let im_to = str_eq(row.to_user_id.as_str(), uid);
            if accepted && im_from {
                let peer = self.friend_requests[i].to_user_id.clone();
                let name = self.display_name(peer.as_str());
                let ghost pre = out@;
                out.push(name);
                proof {
                    assert(crate::crypto::views_of(out@) =~= crate::crypto::views_of(pre).push(
                        crate::messaging::display_of(self.users@, full[i as int].to_user_id@),
                    ));
                    assert(friend_names(full.skip(i as int), self.users@, uid@)
                        =~= seq![crate::messaging::display_of(
                        self.users@,
                        full[i as int].to_user_id@,
                    )] + friend_names(full.skip(i as int + 1), self.users@, uid@));
                    assert(crate::crypto::views_of(pre) + friend_names(
                        full.skip(i as int),
                        self.users@,
                        uid@,
                    ) =~= crate::crypto::views_of(out@) + friend_names(
                        full.skip(i as int + 1),
                        self.users@,
                        uid@,
                    ));
                }
            } else if accepted && im_to {
                let peer = self.friend_requests[i].from_user_id.clone();
                let name = self.display_name(peer.as_str());
                let ghost pre = out@;
                out.push(name);
                proof {
                    assert(crate::crypto::views_of(out@) =~= crate::crypto::views_of(pre).push(
                        crate::messaging::display_of(self.users@, full[i as int].from_user_id@),
                    ));
                    assert(friend_names(full.skip(i as int), self.users@, uid@)
                        =~= seq![crate::messaging::display_of(
                        self.users@,
                        full[i as int].from_user_id@,
                    )] + friend_names(full.skip(i as int + 1), self.users@, uid@));
                    assert(crate::crypto::views_of(pre) + friend_names(
                        full.skip(i as int),
                        self.users@,
                        uid@,
                    ) =~= crate::crypto::views_of(out@) + friend_names(
                        full.skip(i as int + 1),
                        self.users@,
                        uid@,
                    ));
                }
            } else {
                proof {
                    assert(friend_names(full.skip(i as int), self.users@, uid@) =~= friend_names(
                        full.skip(i as int + 1),
                        self.users@,
                        uid@,
                    ));
                }
            }
            i = i + 1;
        }
        proof {
            assert(full.skip(self.friend_requests@.len() as int)
                =~= Seq::<FriendRequestRow>::empty());
            assert(friend_names(full, self.users@, uid@) =~= crate::crypto::views_of(out@));
        }
        out
    }

    /// The `(sender username, message)` pairs of the pending requests
    /// addressed to this user, in stored order.
    pub fn received_friend_requests(&self, uid: &str) -> (r: Vec<(String, String)>)
        requires
            self.wf(),
        ensures
            pair_views(r@) == request_pairs(self.friend_requests@, self.users@, uid@, true),
    {
        self.collect_requests(uid, true)
    }

    /// The `(target username, message)` pairs of the pending requests this
    /// user has sent, in stored order.
    pub fn sent_friend_requests(&self, uid: &str) -> (r: Vec<(String, String)>)
        requires
            self.wf(),
        ensures
            pair_views(r@) == request_pairs(self.friend_requests@, self.users@, uid@, false),
    {
        self.collect_requests(uid, false)
    }

    /// Collects pending requests addressed to (`incoming`) or sent by this
    /// user, as `(peer username, message)` pairs.
    fn collect_requests(&self, uid: &str, incoming: bool) -> (r: Vec<(String, String)>)
        requires
            self.wf(),
        ensures
            pair_views(r@) == request_pairs(self.friend_requests@, self.users@, uid@, incoming),
    {
        let ghost full = self.friend_requests@;
        let mut out: Vec<(String, String)> = Vec::new();
        let mut i: usize = 0;
        proof {
            assert(full.skip(0) =~= full);
            assert(pair_views(out@) =~= Seq::<(Seq<char>, Seq<char>)>::empty());
            assert(request_pairs(full, self.users@, uid@, incoming) =~= pair_views(out@)
                + request_pairs(full.skip(0), self.users@, uid@, incoming));
        }
        while i < self.friend_requests.len()
            invariant
                0 <= i <= self.friend_requests@.len(),
                self.wf(),
                full == self.friend_requests@,
                request_pairs(full, self.users@, uid@, incoming) == pair_views(out@)
                    + request_pairs(full.skip(i as int), self.users@, uid@, incoming),
            decreases self.friend_requests@.len() - i,
        {
            proof {
                assert(full.skip(i as int)[0] == full[i as int]);
                assert(full.skip(i as int).drop_first() =~= full.skip(i as int + 1));
            }
            let row = &self.friend_requests[i];
            let mine = if incoming {
                str_eq(row.to_user_id.as_str(), uid)
            } else {
                str_eq(row.from_user_id.as_str(), uid)
            };
            if matches!(row.status, RequestStatus::Pending) && mine {
                let peer = if incoming {
                    self.friend_requests[i].from_user_id.clone()
                } else {
                    self.friend_requests[i].to_user_id.clone()
                };
                let name = self.display_name(peer.as_str());
                let msg = self.friend_requests[i].message.clone();
                let ghost pre = out@;
                out.push((name, msg));
                proof {
                    let ghost peer_view = if incoming {
                        full[i as int].from_user_id@
                    } else {
                        full[i as int].to_user_id@
                    };
                    assert(pair_views(out@) =~= pair_views(pre).push(
                        (crate::messaging::display_of(self.users@, peer_view), full[i as int].message@),
                    ));
                    assert(request_pairs(full.skip(i as int), self.users@, uid@, incoming)
                        =~= seq![(crate::messaging::display_of(self.users@, peer_view), full[i as int].message@)]
                        + request_pairs(full.skip(i as int + 1), self.users@, uid@, incoming));
                    assert(pair_views(pre) + request_pairs(
                        full.skip(i as int),
                        self.users@,
                        uid@,
                        incoming,
                    ) =~= pair_views(out@) + request_pairs(
                        full.skip(i as int + 1),
                        self.users@,
                        uid@,
                        incoming,
                    ));
                }
            } else {
                proof {
                    assert(request_pairs(full.skip(i as int), self.users@, uid@, incoming)
                        =~= request_pairs(full.skip(i as int + 1), self.users@, uid@, incoming));
                }
            }
            i = i + 1;
        }
        proof {
            assert(full.skip(self.friend_requests@.len() as int)
                =~= Seq::<FriendRequestRow>::empty());
            assert(request_pairs(full, self.users@, uid@, incoming) =~= pair_views(out@));
        }
        out
    }
}

/// The displayed friend list: for each accepted request that involves the
/// user, the other side's username.
pub open spec fn friend_names(
    reqs: Seq<FriendRequestRow>,
    users: Seq<crate::model::UserRow>,
    uid: Seq<char>,
) -> Seq<Seq<char>>
    decreases reqs.len(),
{
    if reqs.len() == 0 {
        Seq::empty()
    } else if reqs[0].status == RequestStatus::Accepted && reqs[0].from_user_id@ == uid {
        seq![crate::messaging::display_of(users, reqs[0].to_user_id@)] + friend_names(
            reqs.drop_first(),
            users,
            uid,
        )
    } else if reqs[0].status == RequestStatus::Accepted && reqs[0].to_user_id@ == uid {
        seq![crate::messaging::display_of(users, reqs[0].from_user_id@)] + friend_names(
            reqs.drop_first(),
            users,
            uid,
        )
    } else {
        friend_names(reqs.drop_first(), users, uid)
    }
}

/// The views of a sequence of string pairs.
pub open spec fn pair_views(s: Seq<(String, String)>) -> Seq<(Seq<char>, Seq<char>)> {
    Seq::new(s.len(), |i: int| (s[i].0@, s[i].1@))
}

/// The displayed pending requests of one user: incoming (`incoming`) or
/// outgoing, as `(peer username, message)` pairs.
pub open spec fn request_pairs(
    reqs: Seq<FriendRequestRow>,
    users: Seq<crate::model::UserRow>,
    uid: Seq<char>,
    incoming: bool,
) -> Seq<(Seq<char>, Seq<char>)>
    decreases reqs.len(),
{
    if reqs.len() == 0 {
        Seq::empty()
    } else if reqs[0].status == RequestStatus::Pending && ((incoming && reqs[0].to_user_id@ == uid)
        || (!incoming && reqs[0].from_user_id@ == uid)) {
        seq![
            (
                crate::messaging::display_of(
                    users,
                    if incoming {
                        reqs[0].from_user_id@
                    } else {
                        reqs[0].to_user_id@
                    },
                ),
                reqs[0].message@,
            ),
        ] + request_pairs(reqs.drop_first(), users, uid, incoming)
    } else {
        request_pairs(reqs.drop_first(), users, uid, incoming)
    }
}

} // verus!
