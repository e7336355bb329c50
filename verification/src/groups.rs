//! The group service: group creation, the invite lifecycle, membership
//! changes and membership queries.
use vstd::prelude::*;

use crate::lex::str_eq;
use crate::model::{
    gid_str, group_with_id, group_index_with_id, invite_with_id, invite_index_with_id, is_member,
    pending_invite, user_named, user_index_named, user_with_id, GroupRow, InviteRow, MemberRow,
    RequestStatus, ServerState, ServiceError,
};
use crate::session::lemma_gid_str_injective;
use crate::textnum::fmt_u64;

verus! {

/// The stored name of a group; the id itself when the group is unknown.
pub open spec fn group_name_of(groups: Seq<GroupRow>, gid: Seq<char>) -> Seq<char> {
    if group_with_id(groups, gid) {
        groups[group_index_with_id(groups, gid)].name@
    } else {
        gid
    }
}

/// The `(group id, group name)` pairs of the groups this user belongs to,
/// in stored order.
pub open spec fn group_entries(
    groups: Seq<GroupRow>,
    members: Seq<MemberRow>,
    uid: Seq<char>,
) -> Seq<(Seq<char>, Seq<char>)>
    decreases groups.len(),
{
    if groups.len() == 0 {
        Seq::empty()
    } else if is_member(members, groups[0].id@, uid) {
        seq![(groups[0].id@, groups[0].name@)] + group_entries(groups.drop_first(), members, uid)
    } else {
        group_entries(groups.drop_first(), members, uid)
    }
}

/// The `(invite id, group name, inviter username)` triples of the pending
/// invites addressed to this user, in stored order.
pub open spec fn invite_entries(
    invites: Seq<InviteRow>,
    groups: Seq<GroupRow>,
    users: Seq<crate::model::UserRow>,
    uid: Seq<char>,
) -> Seq<(u64, Seq<char>, Seq<char>)>
    decreases invites.len(),
{
    if invites.len() == 0 {
        Seq::empty()
    } else if invites[0].status == RequestStatus::Pending && invites[0].to_user_id@ == uid {
        seq![
            (
                invites[0].id,
                group_name_of(groups, invites[0].group_id@),
                crate::messaging::display_of(users, invites[0].from_user_id@),
            ),
        ] + invite_entries(invites.drop_first(), groups, users, uid)
    } else {
        invite_entries(invites.drop_first(), groups, users, uid)
    }
}

/// The views of a sequence of invite triples.
pub open spec fn triple_views(s: Seq<(u64, String, String)>) -> Seq<(u64, Seq<char>, Seq<char>)> {
    Seq::new(s.len(), |i: int| (s[i].0, s[i].1@, s[i].2@))
}

impl ServerState {
    /// All fields but the group and member tables and the group counter
    /// coincide.
    pub open spec fn same_but_groups(self, other: ServerState) -> bool {
        &&& self.users@ == other.users@
        &&& self.creds@ == other.creds@
        &&& self.sessions@ == other.sessions@
        &&& self.session_events@ == other.session_events@
        &&& self.friend_requests@ == other.friend_requests@
        &&& self.invites@ == other.invites@
        &&& self.messages@ == other.messages@
        &&& self.next_user == other.next_user
        &&& self.next_invite == other.next_invite
        &&& self.next_message == other.next_message
        &&& self.next_event == other.next_event
    }

    /// All fields but the invite table, its counter and the member table
    /// coincide.
    pub open spec fn same_but_invites(self, other: ServerState) -> bool {
        &&& self.users@ == other.users@
        &&& self.creds@ == other.creds@
        &&& self.sessions@ == other.sessions@
        &&& self.session_events@ == other.session_events@
        &&& self.friend_requests@ == other.friend_requests@
        &&& self.groups@ == other.groups@
        &&& self.messages@ == other.messages@
        &&& self.next_user == other.next_user
        &&& self.next_group == other.next_group
        &&& self.next_message == other.next_message
        &&& self.next_event == other.next_event
    }

    /// Creates a group and its founding membership in one step; returns the
    /// new group id.
    pub fn create_group(&mut self, owner_uid: &str, name: &str, now: i64) -> (r: String)
        requires
            old(self).wf(),
            old(self).next_group < u64::MAX,
            user_with_id(old(self).users@, owner_uid@),
        ensures
            final(self).wf(),
            r@ == gid_str(old(self).next_group as nat),
            final(self).groups@.len() == old(self).groups@.len() + 1,
            final(self).groups@.drop_last() == old(self).groups@,
            final(self).groups@.last().id@ == r@,
            final(self).groups@.last().name@ == name@,
            final(self).groups@.last().created_by@ == owner_uid@,
            final(self).groups@.last().created_at == now,
            final(self).members@.len() == old(self).members@.len() + 1,
            final(self).members@.drop_last() == old(self).members@,
            final(self).members@.last().group_id@ == r@,
            final(self).members@.last().user_id@ == owner_uid@,
            is_member(final(self).members@, r@, owner_uid@),
            final(self).next_group == old(self).next_group + 1,
            final(self).same_but_groups(*old(self)),
    {
        let k = self.next_group;
        let mut gid = crate::textnum::string_of_char('g');
        let digits = fmt_u64(k);
        gid.append(digits.as_str());
        proof {
            assert(gid@ =~= gid_str(k as nat));
        }
        let gid_ret = gid.clone();
        let gid_member = gid.clone();
        self.groups.push(
            GroupRow {
                idnum: k,
                id: gid,
                name: String::from_str(name),
                created_by: String::from_str(owner_uid),
                created_at: now,
            },
        );
        self.members.push(
            MemberRow { group_id: gid_member, user_id: String::from_str(owner_uid), joined_at: now },
        );
        self.next_group = k + 1;
        proof {
            let ng = self.groups@;
            let og = old(self).groups@;
            assert forall|i: int, j: int| 0 <= i < j < ng.len() implies (#[trigger] ng[i].id@) != (
            #[trigger] ng[j].id@) by {
                if j == og.len() {
                    lemma_gid_str_injective(ng[i].idnum as nat, k as nat);
                }
            }
            let nm = self.members@;
            let om = old(self).members@;
            assert forall|i: int, j: int| 0 <= i < j < nm.len() implies !((
            #[trigger] nm[i].group_id@) == (#[trigger] nm[j].group_id@) && nm[i].user_id@
                == nm[j].user_id@) by {
                if j == om.len() {
                    assert(nm[i] == om[i]);
                    assert(group_with_id(og, om[i].group_id@));
                    let w = choose|w: int| 0 <= w < og.len() && #[trigger] og[w].id@ == om[i].group_id@;
                    lemma_gid_str_injective(og[w].idnum as nat, k as nat);
                }
            }
            assert forall|i: int| 0 <= i < nm.len() implies group_with_id(
                ng,
                (#[trigger] nm[i].group_id@),
            ) by {
                if i < om.len() {
                    assert(nm[i] == om[i]);
                    assert(group_with_id(og, om[i].group_id@));
                    let w = choose|w: int| 0 <= w < og.len() && #[trigger] og[w].id@ == om[i].group_id@;
                    assert(ng[w].id@ == nm[i].group_id@);
                } else {
                    assert(ng[og.len() as int].id@ == nm[i].group_id@);
                }
            }
            assert forall|i: int| 0 <= i < nm.len() implies user_with_id(
                self.users@,
                (#[trigger] nm[i].user_id@),
            ) by {
                if i < om.len() {
                    assert(nm[i] == om[i]);
                }
            }
            assert(nm[nm.len() - 1].group_id@ == gid_ret@ && nm[nm.len() - 1].user_id@
                == owner_uid@);
            assert forall|i: int| 0 <= i < self.invites@.len() implies group_with_id(
                ng,
                (#[trigger] self.invites@[i].group_id@),
            ) by {
                assert(group_with_id(og, self.invites@[i].group_id@));
                let w = choose|w: int|
                    0 <= w < og.len() && #[trigger] og[w].id@ == self.invites@[i].group_id@;
                assert(ng[w].id@ == self.invites@[i].group_id@);
            }
        }
        gid_ret
    }

    /// Finds the row index of the invite carrying this id.
    fn find_invite(&self, invite_id: u64) -> (r: Option<usize>)
        ensures
            r matches Some(i) ==> i < self.invites@.len() && self.invites@[i as int].id
                == invite_id,
            r is None ==> !invite_with_id(self.invites@, invite_id),
    {
        let mut i: usize = 0;
        while i < self.invites.len()
            invariant
                0 <= i <= self.invites@.len(),
                forall|j: int| 0 <= j < i ==> (#[trigger] self.invites@[j].id) != invite_id,
            decreases self.invites@.len() - i,
        {
            if self.invites[i].id == invite_id {
                return Some(i);
            }
            i = i + 1;
        }
        None
    }

    /// Decides whether a pending invite for this (group, invitee) pair
    /// exists.
    fn any_pending_invite(&self, gid: &str, to_uid: &str) -> (r: bool)
        ensures
            r == pending_invite(self.invites@, gid@, to_uid@),
    {
        let mut i: usize = 0;
        while i < self.invites.len()
            invariant
                0 <= i <= self.invites@.len(),
                forall|j: int|
                    0 <= j < i ==> !((#[trigger] self.invites@[j].group_id@) == gid@
                        && self.invites@[j].to_user_id@ == to_uid@ && self.invites@[j].status
                        == RequestStatus::Pending),
            decreases self.invites@.len() - i,
        {
            let row = &self.invites[i];
            if str_eq(row.group_id.as_str(), gid) && str_eq(row.to_user_id.as_str(), to_uid)
                && matches!(row.status, RequestStatus::Pending) {
                return true;
            }
            i = i + 1;
        }
        false
    }

    /// Invites a user into a group: the actor must be a member, the invitee
    /// must exist, must not already belong, and must not already hold a
    /// pending invite for the group. Returns the invite id.
    pub fn invite(&mut self, actor_uid: &str, group_id: &str, invitee_username: &str, now: i64)
        -> (r: Result<u64, ServiceError>)
        requires
            old(self).wf(),
            old(self).next_invite < u64::MAX,
        ensures
            final(self).wf(),
            (r matches Err(e) && e == ServiceError::GroupNotFound) <==> !group_with_id(
                old(self).groups@,
                group_id@,
            ),
            (r matches Err(e) && e == ServiceError::NotAMember) <==> (group_with_id(
                old(self).groups@,
                group_id@,
            ) && !is_member(old(self).members@, group_id@, actor_uid@)),
            (r matches Err(e) && e == ServiceError::UserNotFound) <==> (group_with_id(
                old(self).groups@,
                group_id@,
            ) && is_member(old(self).members@, group_id@, actor_uid@) && !user_named(
                old(self).users@,
                invitee_username@,
            )),
            (r matches Err(e) && e == ServiceError::AlreadyMember) <==> (group_with_id(
                old(self).groups@,
                group_id@,
            ) && is_member(old(self).members@, group_id@, actor_uid@) && user_named(
                old(self).users@,
                invitee_username@,
            ) && is_member(
                old(self).members@,
                group_id@,
                old(self).users@[user_index_named(old(self).users@, invitee_username@)].id@,
            )),
            (r matches Err(e) && e == ServiceError::AlreadyPending) <==> (group_with_id(
                old(self).groups@,
                group_id@,
            ) && is_member(old(self).members@, group_id@, actor_uid@) && user_named(
                old(self).users@,
                invitee_username@,
            ) && !is_member(
                old(self).members@,
                group_id@,
                old(self).users@[user_index_named(old(self).users@, invitee_username@)].id@,
            ) && pending_invite(
                old(self).invites@,
                group_id@,
                old(self).users@[user_index_named(old(self).users@, invitee_username@)].id@,
            )),
            r is Err ==> final(self).same_as(*old(self)),
            r matches Ok(iid) ==> ({
                let to_id = old(self).users@[user_index_named(
                    old(self).users@,
                    invitee_username@,
                )].id@;
                &&& iid == old(self).next_invite
                &&& final(self).invites@.len() == old(self).invites@.len() + 1
                &&& final(self).invites@.drop_last() == old(self).invites@
                &&& final(self).invites@.last().id == iid
                &&& final(self).invites@.last().group_id@ == group_id@
                &&& final(self).invites@.last().from_user_id@ == actor_uid@
                &&& final(self).invites@.last().to_user_id@ == to_id
                &&& final(self).invites@.last().status == RequestStatus::Pending
                &&& final(self).invites@.last().created_at == now
                &&& final(self).next_invite == old(self).next_invite + 1
                &&& final(self).members@ == old(self).members@
                &&& final(self).same_but_invites(*old(self))
            }),
    {
        if self.find_group_by_id(group_id).is_none() {
            return Err(ServiceError::GroupNotFound);
        }
        if !self.check_member(group_id, actor_uid) {
            return Err(ServiceError::NotAMember);
        }
        let to_idx = match self.find_user_by_name(invitee_username) {
            Some(i) => i,
            None => {
                return Err(ServiceError::UserNotFound);
            },
        };
        proof {
            let ci = user_index_named(self.users@, invitee_username@);
            assert(self.users@[to_idx as int].username@ == invitee_username@);
            if ci != to_idx {
                assert(self.users@[ci].username@ == self.users@[to_idx as int].username@);
            }
        }
        let to_id = self.users[to_idx].id.clone();
        if self.check_member(group_id, to_id.as_str()) {
            return Err(ServiceError::AlreadyMember);
        }
        if self.any_pending_invite(group_id, to_id.as_str()) {
            return Err(ServiceError::AlreadyPending);
        }
        let iid = self.next_invite;
        self.invites.push(
            InviteRow {
                id: iid,
                group_id: String::from_str(group_id),
                from_user_id: String::from_str(actor_uid),
                to_user_id: to_id,
                status: RequestStatus::Pending,
                created_at: now,
            },
        );
        self.next_invite = iid + 1;
        proof {
            let ni = self.invites@;
            let oi = old(self).invites@;
            assert forall|i: int, j: int| 0 <= i < j < ni.len() implies (#[trigger] ni[i].id) != (
            #[trigger] ni[j].id) by {
                if j < oi.len() {
                    assert(ni[i] == oi[i] && ni[j] == oi[j]);
                } else {
                    assert(ni[i] == oi[i]);
                }
            }
            assert forall|i: int, j: int| 0 <= i < j < ni.len() implies !((
            #[trigger] ni[i].group_id@) == (#[trigger] ni[j].group_id@) && ni[i].to_user_id@
                == ni[j].to_user_id@ && ni[i].status == RequestStatus::Pending && ni[j].status
                == RequestStatus::Pending) by {
                if j < oi.len() {
                    assert(ni[i] == oi[i] && ni[j] == oi[j]);
                } else {
                    assert(ni[i] == oi[i]);
                }
            }
            assert forall|i: int| 0 <= i < ni.len() implies group_with_id(
                self.groups@,
                (#[trigger] ni[i].group_id@),
            ) by {
                if i < oi.len() {
                    assert(ni[i] == oi[i]);
                }
            }
        }
        Ok(iid)
    }

    /// Accepts a pending invite addressed to the actor: the invite becomes
    /// accepted and the membership row is inserted in the same step.
    pub fn accept_invite(&mut self, actor_uid: &str, invite_id: u64, now: i64) -> (r: Result<
        String,
        ServiceError,
    >)
        requires
            old(self).wf(),
            user_with_id(old(self).users@, actor_uid@),
        ensures
            final(self).wf(),
            r is Err <==> !(invite_with_id(old(self).invites@, invite_id) && old(self).invites@[
                invite_index_with_id(old(self).invites@, invite_id)
            ].to_user_id@ == actor_uid@ && old(self).invites@[invite_index_with_id(
                old(self).invites@,
                invite_id,
            )].status == RequestStatus::Pending),
            r matches Err(e) ==> e == ServiceError::NoSuchRequest && final(self).same_as(
                *old(self),
            ),
            r matches Ok(gid) ==> ({
                let ii = invite_index_with_id(old(self).invites@, invite_id);
                &&& gid@ == old(self).invites@[ii].group_id@
                &&& final(self).invites@.len() == old(self).invites@.len()
                &&& (forall|j: int|
                    0 <= j < old(self).invites@.len() && j != ii ==> final(self).invites@[j]
                        == old(self).invites@[j])
                &&& final(self).invites@[ii].status == RequestStatus::Accepted
                &&& is_member(final(self).members@, gid@, actor_uid@)
                &&& (is_member(old(self).members@, gid@, actor_uid@) ==> final(self).members@
                    == old(self).members@)
                &&& (!is_member(old(self).members@, gid@, actor_uid@) ==> final(self).members@.len()
                    == old(self).members@.len() + 1 && final(self).members@.drop_last() == old(self).members@
                    && final(self).members@.last().group_id@ == gid@
                    && final(self).members@.last().user_id@ == actor_uid@)
                &&& final(self).same_but_invites(*old(self))
            }),
    {
        let ii = match self.find_invite(invite_id) {
            Some(i) => i,
            None => {
                return Err(ServiceError::NoSuchRequest);
            },
        };
        proof {
            let ci = invite_index_with_id(self.invites@, invite_id);
            assert(self.invites@[ii as int].id == invite_id);
            if ci != ii {
                assert(self.invites@[ci].id == self.invites@[ii as int].id);
            }
        }
        if !str_eq(self.invites[ii].to_user_id.as_str(), actor_uid) {
            return Err(ServiceError::NoSuchRequest);
        }
        if !matches!(self.invites[ii].status, RequestStatus::Pending) {
            return Err(ServiceError::NoSuchRequest);
        }
        let gid = self.invites[ii].group_id.clone();
        let updated = InviteRow {
            id: self.invites[ii].id,
            group_id: self.invites[ii].group_id.clone(),
            from_user_id: self.invites[ii].from_user_id.clone(),
            to_user_id: self.invites[ii].to_user_id.clone(),
            status: RequestStatus::Accepted,
            created_at: self.invites[ii].created_at,
        };
        self.invites[ii] = updated;
        proof {
            let ni = self.invites@;
            let oi = old(self).invites@;
            assert forall|i: int, j: int| 0 <= i < j < ni.len() implies (#[trigger] ni[i].id) != (
            #[trigger] ni[j].id) by {
                assert(ni[i].id == oi[i].id && ni[j].id == oi[j].id);
            }
            assert forall|i: int, j: int| 0 <= i < j < ni.len() implies !((
            #[trigger] ni[i].group_id@) == (#[trigger] ni[j].group_id@) && ni[i].to_user_id@
                == ni[j].to_user_id@ && ni[i].status == RequestStatus::Pending && ni[j].status
                == RequestStatus::Pending) by {
                if i != ii as int && j != ii as int {
                    assert(ni[i] == oi[i] && ni[j] == oi[j]);
                } else {
                    assert(ni[ii as int].status == RequestStatus::Accepted);
                }
            }
            assert forall|i: int| 0 <= i < ni.len() implies group_with_id(
                self.groups@,
                (#[trigger] ni[i].group_id@),
            ) by {
                if i != ii as int {
                    assert(ni[i] == oi[i]);
                } else {
                    assert(ni[i].group_id@ == oi[i].group_id@);
                }
            }
        }
        if !self.check_member(gid.as_str(), actor_uid) {
            let gid_member = gid.clone();
            self.members.push(
                MemberRow {
                    group_id: gid_member,
                    user_id: String::from_str(actor_uid),
                    joined_at: now,
                },
            );
            proof {
                let nm = self.members@;
                let om = old(self).members@;
                assert forall|i: int, j: int| 0 <= i < j < nm.len() implies !((
                #[trigger] nm[i].group_id@) == (#[trigger] nm[j].group_id@) && nm[i].user_id@
                    == nm[j].user_id@) by {
                    if j == om.len() {
                        assert(nm[i] == om[i]);
                    }
                }
                assert forall|i: int| 0 <= i < nm.len() implies group_with_id(
                    self.groups@,
                    (#[trigger] nm[i].group_id@),
                ) by {
                    if i < om.len() {
                        assert(nm[i] == om[i]);
                    } else {
                        assert(nm[i].group_id@ == old(self).invites@[ii as int].group_id@);
                        assert(group_with_id(old(self).groups@, old(self).invites@[ii as int].group_id@));
                    }
                }
                assert forall|i: int| 0 <= i < nm.len() implies user_with_id(
                    self.users@,
                    (#[trigger] nm[i].user_id@),
                ) by {
                    if i < om.len() {
                        assert(nm[i] == om[i]);
                    }
                }
                assert(nm[nm.len() - 1].group_id@ == gid@ && nm[nm.len() - 1].user_id@
                    == actor_uid@);
            }
        }
        Ok(gid)
    }

    /// Rejects a pending invite addressed to the actor.
    pub fn reject_invite(&mut self, actor_uid: &str, invite_id: u64) -> (r: Result<
        (),
        ServiceError,
    >)
        requires
            old(self).wf(),
        ensures
            final(self).wf(),
            r is Err <==> !(invite_with_id(old(self).invites@, invite_id) && old(self).invites@[
                invite_index_with_id(old(self).invites@, invite_id)
            ].to_user_id@ == actor_uid@ && old(self).invites@[invite_index_with_id(
                old(self).invites@,
                invite_id,
            )].status == RequestStatus::Pending),
            r matches Err(e) ==> e == ServiceError::NoSuchRequest && final(self).same_as(
                *old(self),
            ),
            r is Ok ==> ({
                let ii = invite_index_with_id(old(self).invites@, invite_id);
                &&& final(self).invites@.len() == old(self).invites@.len()
                &&& (forall|j: int|
                    0 <= j < old(self).invites@.len() && j != ii ==> final(self).invites@[j]
                        == old(self).invites@[j])
                &&& final(self).invites@[ii].status == RequestStatus::Rejected
                &&& final(self).members@ == old(self).members@
                &&& final(self).same_but_invites(*old(self))
            }),
    {
        let ii = match self.find_invite(invite_id) {
            Some(i) => i,
            None => {
                return Err(ServiceError::NoSuchRequest);
            },
        };
        proof {
            let ci = invite_index_with_id(self.invites@, invite_id);
            assert(self.invites@[ii as int].id == invite_id);
            if ci != ii {
                assert(self.invites@[ci].id == self.invites@[ii as int].id);
            }
        }
        if !str_eq(self.invites[ii].to_user_id.as_str(), actor_uid) {
            return Err(ServiceError::NoSuchRequest);
        }
        if !matches!(self.invites[ii].status, RequestStatus::Pending) {
            return Err(ServiceError::NoSuchRequest);
        }
        let updated = InviteRow {
            id: self.invites[ii].id,
            group_id: self.invites[ii].group_id.clone(),
            from_user_id: self.invites[ii].from_user_id.clone(),
            to_user_id: self.invites[ii].to_user_id.clone(),
            status: RequestStatus::Rejected,
            created_at: self.invites[ii].created_at,
        };
        self.invites[ii] = updated;
        proof {
            let ni = self.invites@;
            let oi = old(self).invites@;
            assert forall|i: int, j: int| 0 <= i < j < ni.len() implies (#[trigger] ni[i].id) != (
            #[trigger] ni[j].id) by {
                assert(ni[i].id == oi[i].id && ni[j].id == oi[j].id);
            }
            assert forall|i: int, j: int| 0 <= i < j < ni.len() implies !((
            #[trigger] ni[i].group_id@) == (#[trigger] ni[j].group_id@) && ni[i].to_user_id@
                == ni[j].to_user_id@ && ni[i].status == RequestStatus::Pending && ni[j].status
                == RequestStatus::Pending) by {
                if i != ii as int && j != ii as int {
                    assert(ni[i] == oi[i] && ni[j] == oi[j]);
                } else {
                    assert(ni[ii as int].status == RequestStatus::Rejected);
                }
            }
            assert forall|i: int| 0 <= i < ni.len() implies group_with_id(
                self.groups@,
                (#[trigger] ni[i].group_id@),
            ) by {
                if i != ii as int {
                    assert(ni[i] == oi[i]);
                } else {
                    assert(ni[i].group_id@ == oi[i].group_id@);
                }
            }
        }
        Ok(())
    }

    /// Adds the actor to a group directly.
    pub fn join_group(&mut self, actor_uid: &str, group_id: &str, now: i64) -> (r: Result<
        (),
        ServiceError,
    >)
        requires
            old(self).wf(),
            user_with_id(old(self).users@, actor_uid@),
        ensures
            final(self).wf(),
            (r matches Err(e) && e == ServiceError::GroupNotFound) <==> !group_with_id(
                old(self).groups@,
                group_id@,
            ),
            (r matches Err(e) && e == ServiceError::AlreadyMember) <==> (group_with_id(
                old(self).groups@,
                group_id@,
            ) && is_member(old(self).members@, group_id@, actor_uid@)),
            r is Ok <==> (group_with_id(old(self).groups@, group_id@) && !is_member(
                old(self).members@,
                group_id@,
                actor_uid@,
            )),
            r is Err ==> final(self).same_as(*old(self)),
            r is Ok ==> ({
                &&& final(self).members@.len() == old(self).members@.len() + 1
                &&& final(self).members@.drop_last() == old(self).members@
                &&& final(self).members@.last().group_id@ == group_id@
                &&& final(self).members@.last().user_id@ == actor_uid@
                &&& is_member(final(self).members@, group_id@, actor_uid@)
                &&& final(self).groups@ == old(self).groups@
                &&& final(self).same_but_groups(*old(self))
                &&& final(self).next_group == old(self).next_group
            }),
    {
        if self.find_group_by_id(group_id).is_none() {
            return Err(ServiceError::GroupNotFound);
        }
        if self.check_member(group_id, actor_uid) {
            return Err(ServiceError::AlreadyMember);
        }
        self.members.push(
            MemberRow {
                group_id: String::from_str(group_id),
                user_id: String::from_str(actor_uid),
                joined_at: now,
            },
        );
        proof {
            let nm = self.members@;
            let om = old(self).members@;
            assert forall|i: int, j: int| 0 <= i < j < nm.len() implies !((
            #[trigger] nm[i].group_id@) == (#[trigger] nm[j].group_id@) && nm[i].user_id@
                == nm[j].user_id@) by {
                if j == om.len() {
                    assert(nm[i] == om[i]);
                }
            }
            assert forall|i: int| 0 <= i < nm.len() implies group_with_id(
                self.groups@,
                (#[trigger] nm[i].group_id@),
            ) by {
                if i < om.len() {
                    assert(nm[i] == om[i]);
                }
            }
            assert forall|i: int| 0 <= i < nm.len() implies user_with_id(
                self.users@,
                (#[trigger] nm[i].user_id@),
            ) by {
                if i < om.len() {
                    assert(nm[i] == om[i]);
                }
            }
            assert(nm[nm.len() - 1].group_id@ == group_id@ && nm[nm.len() - 1].user_id@
                == actor_uid@);
        }
        Ok(())
    }

    /// Removes the actor from a group. The group itself stays, even when it
    /// is left with no members.
    pub fn leave_group(&mut self, actor_uid: &str, group_id: &str) -> (r: Result<
        (),
        ServiceError,
    >)
        requires
            old(self).wf(),
        ensures
            final(self).wf(),
            r is Ok <==> is_member(old(self).members@, group_id@, actor_uid@),
            r matches Err(e) ==> e == ServiceError::NotAMember && final(self).same_as(
                *old(self),
            ),
            r is Ok ==> ({
                &&& final(self).members@.len() == old(self).members@.len() - 1
                &&& !is_member(final(self).members@, group_id@, actor_uid@)
                &&& final(self).groups@ == old(self).groups@
                &&& final(self).same_but_groups(*old(self))
                &&& final(self).next_group == old(self).next_group
            }),
    {
        let mi = match self.find_member_index(group_id, actor_uid) {
            Some(i) => i,
            None => {
                return Err(ServiceError::NotAMember);
            },
        };
        self.members.remove(mi);
        proof {
            let nm = self.members@;
            let om = old(self).members@;
            let mii = mi as int;
            assert(nm =~= om.remove(mii));
            assert forall|a: int, b: int| 0 <= a < b < nm.len() implies !((
            #[trigger] nm[a].group_id@) == (#[trigger] nm[b].group_id@) && nm[a].user_id@
                == nm[b].user_id@) by {
                let oa = if a < mii {
                    a
                } else {
                    a + 1
                };
                let ob = if b < mii {
                    b
                } else {
                    b + 1
                };
                assert(nm[a] == om[oa] && nm[b] == om[ob]);
            }
            assert forall|a: int| 0 <= a < nm.len() implies group_with_id(
                self.groups@,
                (#[trigger] nm[a].group_id@),
            ) && user_with_id(self.users@, nm[a].user_id@) by {
                let oa = if a < mii {
                    a
                } else {
                    a + 1
                };
                assert(nm[a] == om[oa]);
            }
            assert forall|a: int| 0 <= a < nm.len() implies !((#[trigger] nm[a].group_id@)
                == group_id@ && nm[a].user_id@ == actor_uid@) by {
                let oa = if a < mii {
                    a
                } else {
                    a + 1
                };
                assert(nm[a] == om[oa]);
                if om[oa].group_id@ == group_id@ && om[oa].user_id@ == actor_uid@ {
                    assert(om[mii].group_id@ == group_id@ && om[mii].user_id@ == actor_uid@);
                }
            }
        }
        Ok(())
    }

    /// Finds the row index of a membership pair.
    fn find_member_index(&self, group_id: &str, user_id: &str) -> (r: Option<usize>)
        ensures
            r matches Some(i) ==> i < self.members@.len() && self.members@[i as int].group_id@
                == group_id@ && self.members@[i as int].user_id@ == user_id@,
            r is None ==> !is_member(self.members@, group_id@, user_id@),
    {
        let mut i: usize = 0;
        while i < self.members.len()
            invariant
                0 <= i <= self.members@.len(),
                forall|j: int|
                    0 <= j < i ==> !((#[trigger] self.members@[j].group_id@) == group_id@
                        && self.members@[j].user_id@ == user_id@),
            decreases self.members@.len() - i,
        {
            if str_eq(self.members[i].group_id.as_str(), group_id) && str_eq(
                self.members[i].user_id.as_str(),
                user_id,
            ) {
                return Some(i);
            }
            i = i + 1;
        }
        None
    }

    /// The `(group id, group name)` pairs of the actor's groups.
    pub fn my_groups(&self, uid: &str) -> (r: Vec<(String, String)>)
        ensures
            crate::users::pair_views(r@) == group_entries(self.groups@, self.members@, uid@),
    {
        let ghost full = self.groups@;
        let mut out: Vec<(String, String)> = Vec::new();
        let mut i: usize = 0;
        proof {
            assert(full.skip(0) =~= full);
            assert(crate::users::pair_views(out@) =~= Seq::<(Seq<char>, Seq<char>)>::empty());
            assert(group_entries(full, self.members@, uid@) =~= crate::users::pair_views(out@)
                + group_entries(full.skip(0), self.members@, uid@));
        }
        while i < self.groups.len()
            invariant
                0 <= i <= self.groups@.len(),
                full == self.groups@,
                group_entries(full, self.members@, uid@) == crate::users::pair_views(out@)
                    + group_entries(full.skip(i as int), self.members@, uid@),
            decreases self.groups@.len() - i,
        {
            proof {
                assert(full.skip(i as int)[0] == full[i as int]);
                assert(full.skip(i as int).drop_first() =~= full.skip(i as int + 1));
            }
            if self.check_member(self.groups[i].id.as_str(), uid) {
                let ghost pre = out@;
                out.push((self.groups[i].id.clone(), self.groups[i].name.clone()));
                proof {
                    assert(crate::users::pair_views(out@) =~= crate::users::pair_views(pre).push(
                        (full[i as int].id@, full[i as int].name@),
                    ));
                    assert(group_entries(full.skip(i as int), self.members@, uid@)
                        =~= seq![(full[i as int].id@, full[i as int].name@)] + group_entries(
                        full.skip(i as int + 1),
                        self.members@,
                        uid@,
                    ));
                    assert(crate::users::pair_views(pre) + group_entries(
                        full.skip(i as int),
                        self.members@,
                        uid@,
                    ) =~= crate::users::pair_views(out@) + group_entries(
                        full.skip(i as int + 1),
                        self.members@,
                        uid@,
                    ));
                }
            } else {
                proof {
                    assert(group_entries(full.skip(i as int), self.members@, uid@)
                        =~= group_entries(full.skip(i as int + 1), self.members@, uid@));
                }
            }
            i = i + 1;
        }
        proof {
            assert(full.skip(self.groups@.len() as int) =~= Seq::<GroupRow>::empty());
            assert(group_entries(full, self.members@, uid@) =~= crate::users::pair_views(out@));
        }
        out
    }

    /// The pending invites addressed to the actor, as
    /// `(invite id, group name, inviter username)` triples.
    pub fn my_invites(&self, uid: &str) -> (r: Vec<(u64, String, String)>)
        requires
            self.wf(),
        ensures
            triple_views(r@) == invite_entries(
                self.invites@,
                self.groups@,
                self.users@,
                uid@,
            ),
    {
        let ghost full = self.invites@;
        let mut out: Vec<(u64, String, String)> = Vec::new();
        let mut i: usize = 0;
        proof {
            assert(full.skip(0) =~= full);
            assert(triple_views(out@) =~= Seq::<(u64, Seq<char>, Seq<char>)>::empty());
            assert(invite_entries(full, self.groups@, self.users@, uid@) =~= triple_views(out@)
                + invite_entries(full.skip(0), self.groups@, self.users@, uid@));
        }
        while i < self.invites.len()
            invariant
                0 <= i <= self.invites@.len(),
                self.wf(),
                full == self.invites@,
                invite_entries(full, self.groups@, self.users@, uid@) == triple_views(out@)
                    + invite_entries(full.skip(i as int), self.groups@, self.users@, uid@),
            decreases self.invites@.len() - i,
        {
            proof {
                assert(full.skip(i as int)[0] == full[i as int]);
                assert(full.skip(i as int).drop_first() =~= full.skip(i as int + 1));
            }
            let row = &self.invites[i];
            if matches!(row.status, RequestStatus::Pending) && str_eq(
                row.to_user_id.as_str(),
                uid,
            ) {
                let gname = self.group_display_name(self.invites[i].group_id.as_str());
                let from_name = self.display_name(self.invites[i].from_user_id.as_str());
                let ghost pre = out@;
                out.push((self.invites[i].id, gname, from_name));
                proof {
                    assert(triple_views(out@) =~= triple_views(pre).push(
                        (
                            full[i as int].id,
                            group_name_of(self.groups@, full[i as int].group_id@),
                            crate::messaging::display_of(
                                self.users@,
                                full[i as int].from_user_id@,
                            ),
                        ),
                    ));
                    assert(invite_entries(full.skip(i as int), self.groups@, self.users@, uid@)
                        =~= seq![
                        (
                            full[i as int].id,
                            group_name_of(self.groups@, full[i as int].group_id@),
                            crate::messaging::display_of(
                                self.users@,
                                full[i as int].from_user_id@,
                            ),
                        ),
                    ] + invite_entries(full.skip(i as int + 1), self.groups@, self.users@, uid@));
                    assert(triple_views(pre) + invite_entries(
                        full.skip(i as int),
                        self.groups@,
                        self.users@,
                        uid@,
                    ) =~= triple_views(out@) + invite_entries(
                        full.skip(i as int + 1),
                        self.groups@,
                        self.users@,
                        uid@,
                    ));
                }
            } else {
                proof {
                    assert(invite_entries(full.skip(i as int), self.groups@, self.users@, uid@)
                        =~= invite_entries(
                        full.skip(i as int + 1),
                        self.groups@,
                        self.users@,
                        uid@,
                    ));
                }
            }
            i = i + 1;
        }
        proof {
            assert(full.skip(self.invites@.len() as int) =~= Seq::<InviteRow>::empty());
            assert(invite_entries(full, self.groups@, self.users@, uid@) =~= triple_views(out@));
        }
        out
    }

    /// Resolves a group id for display: the stored name, or the id itself
    /// when the group is unknown.
    pub fn group_display_name(&self, gid: &str) -> (r: String)
        requires
            self.wf(),
        ensures
            r@ == group_name_of(self.groups@, gid@),
    {
        match self.find_group_by_id(gid) {
            Some(gi) => {
                proof {
                    let ci = group_index_with_id(self.groups@, gid@);
                    assert(self.groups@[gi as int].id@ == gid@);
                    if ci != gi {
                        assert(self.groups@[ci].id@ == self.groups@[gi as int].id@);
                    }
                }
                self.groups[gi].name.clone()
            },
            None => String::from_str(gid),
        }
    }
}

} // verus!
