//! The group membership and invitation graph: one group record plus one
//! invitation record per (recipient, group) pair, persisted in an
//! address-keyed store. Holding a live invitation whose `group_key` matches a
//! group's address is what "being a member" means, and every group's
//! `members` count equals, at all times, the number of live invitations
//! addressed to it.

use vstd::prelude::*;
use crate::address::{
    invitation_address, spec_group_address, spec_invitation_address, group_address,
};
use crate::errors::ErrorCode;
use crate::ident::Identity;
use crate::validation::{check_len, length_check, length_check_vec};

verus! {

/// A group record. `creator` funded the record and is owed its refund;
/// `admin` rules invitations and parameter changes; `members` counts live
/// invitations.
pub struct Group {
    pub creator: Identity,
    pub admin: Identity,
    pub open_invites: bool,
    pub members: u8,
    pub name: String,
}

/// An invitation record, the sole proof of membership: it links `recipient`
/// to the group at address `group_key`, carries the transport metadata the
/// recipient needs, and records `sender` as the depositor owed the refund
/// when the invitation is destroyed.
pub struct Invitation {
    pub sender: Identity,
    pub group_key: Identity,
    pub recipient: Identity,
    pub group_id: Vec<u8>,
    pub encryption_key: String,
    pub storage_tag: u8,
}

/// A group record together with the derived address it lives at.
pub struct GroupEntry {
    pub address: Identity,
    pub group: Group,
}

/// An invitation record together with the derived address it lives at.
pub struct InviteEntry {
    pub address: Identity,
    pub invitation: Invitation,
}

/// The address-keyed record store for groups and invitations. Relationships
/// between records are value equality of stored fields, re-checked on every
/// access; the address space itself is the uniqueness constraint.
pub struct GroupStore {
    pub program: Identity,
    pub groups: Vec<GroupEntry>,
    pub invitations: Vec<InviteEntry>,
}

/// Fixed capacity of a group record, declared at creation: a fixed-width
/// type tag, two identities, the open-invites flag, the member count, and
/// the length-prefixed name at its maximum.
pub const GROUP_LEN: usize = 8 + 32 + 32 + 1 + 1 + (4 + 64);

/// Fixed capacity of an invitation record: a fixed-width type tag, three
/// identities, the two length-prefixed transport fields at their maxima, and
/// the storage-backend tag.
pub const INVITATION_LEN: usize = 8 + 32 + 32 + 32 + (4 + 160) + (4 + 64) + 1;

/// The capacity a group record occupies.
pub open spec fn group_size(g: Group) -> nat {
    (8 + 32 + 32 + 1 + 1 + 4) + g.name@.len()
}

/// The capacity an invitation record occupies.
pub open spec fn invitation_size(v: Invitation) -> nat {
    (8 + 32 + 32 + 32 + 4 + 4 + 1) + v.group_id@.len() + v.encryption_key@.len()
}

/// The hard capacity invariant: well-formed records never outgrow their
/// fixed budgets.
pub proof fn lemma_records_fit(g: Group, v: Invitation)
    requires
        group_wf(g),
        invitation_wf(v),
    ensures
        group_size(g) <= GROUP_LEN,
        invitation_size(v) <= INVITATION_LEN,
{
}

/// Field bounds of a group record.
pub open spec fn group_wf(g: Group) -> bool {
    &&& g.creator.wf()
    &&& g.admin.wf()
    &&& g.members >= 1
    &&& check_len(g.name@.len(), 3, 64, true) is None
}

/// Field bounds of an invitation record.
pub open spec fn invitation_wf(v: Invitation) -> bool {
    &&& v.sender.wf()
    &&& v.group_key.wf()
    &&& v.recipient.wf()
    &&& check_len(v.group_id@.len(), 1, 160, true) is None
    &&& check_len(v.encryption_key@.len(), 64, 64, true) is None
}

/// How many invitations in `invs` are addressed to the group at `g`.
pub open spec fn count_invites(invs: Seq<InviteEntry>, g: Seq<u8>) -> nat
    decreases invs.len(),
{
    if invs.len() == 0 {
        0
    } else {
        count_invites(invs.drop_last(), g) + (if invs.last().invitation.group_key@ == g {
            1nat
        } else {
            0nat
        })
    }
}

/// Some invitation in `invs` links `recipient` to the group at `g`.
pub open spec fn has_invite(invs: Seq<InviteEntry>, recipient: Seq<u8>, g: Seq<u8>) -> bool {
    exists|i: int|
        0 <= i < invs.len() && (#[trigger] invs[i]).invitation.recipient@ == recipient
            && invs[i].invitation.group_key@ == g
}

/// Appending one invitation raises the count of its own group by one and of
/// every other group by nothing.
pub proof fn lemma_count_push(invs: Seq<InviteEntry>, g: Seq<u8>, e: InviteEntry)
    ensures
        count_invites(invs.push(e), g) == count_invites(invs, g) + (
        if e.invitation.group_key@ == g {
            1nat
        } else {
            0nat
        }),
{
    assert(invs.push(e).drop_last() =~= invs);
    assert(invs.push(e).last() == e);
}

/// Removing one invitation lowers the count of its own group by one and of
/// every other group by nothing.
pub proof fn lemma_count_remove(invs: Seq<InviteEntry>, g: Seq<u8>, i: int)
    requires
        0 <= i < invs.len(),
    ensures
        count_invites(invs, g) == count_invites(invs.remove(i), g) + (
        if invs[i].invitation.group_key@ == g {
            1nat
        } else {
            0nat
        }),
    decreases invs.len(),
{
    if i == invs.len() - 1 {
        assert(invs.remove(i) =~= invs.drop_last());
    } else {
        assert(invs.remove(i).drop_last() =~= invs.drop_last().remove(i));
        assert(invs.remove(i).last() == invs.last());
        lemma_count_remove(invs.drop_last(), g, i);
    }
}

/// A group some invitation is addressed to has a count of at least one.
pub proof fn lemma_count_pos(invs: Seq<InviteEntry>, g: Seq<u8>, i: int)
    requires
        0 <= i < invs.len(),
        invs[i].invitation.group_key@ == g,
    ensures
        count_invites(invs, g) >= 1,
{
    lemma_count_remove(invs, g, i);
}

/// A group two distinct invitations are addressed to has a count of at least
/// two.
pub proof fn lemma_count_two(invs: Seq<InviteEntry>, g: Seq<u8>, i: int, j: int)
    requires
        0 <= i < invs.len(),
        0 <= j < invs.len(),
        i != j,
        invs[i].invitation.group_key@ == g,
        invs[j].invitation.group_key@ == g,
    ensures
        count_invites(invs, g) >= 2,
{
    lemma_count_remove(invs, g, j);
    let rest = invs.remove(j);
    let k: int = if i < j {
        i
    } else {
        i - 1
    };
    assert(rest[k] == invs[i]);
    lemma_count_pos(rest, g, k);
}

/// A group no invitation is addressed to has a count of zero.
pub proof fn lemma_count_zero(invs: Seq<InviteEntry>, g: Seq<u8>)
    requires
        forall|i: int| 0 <= i < invs.len() ==> (#[trigger] invs[i]).invitation.group_key@ != g,
    ensures
        count_invites(invs, g) == 0,
    decreases invs.len(),
{
    if invs.len() > 0 {
        lemma_count_zero(invs.drop_last(), g);
    }
}

impl GroupStore {
    /// A group record lives at address `a`.
    pub open spec fn has_group(&self, a: Seq<u8>) -> bool {
        exists|i: int| 0 <= i < self.groups@.len() && (#[trigger] self.groups@[i]).address@ == a
    }

    /// The index of the group record at address `a`.
    pub open spec fn group_index_of(&self, a: Seq<u8>) -> int {
        choose|i: int| 0 <= i < self.groups@.len() && (#[trigger] self.groups@[i]).address@ == a
    }

    /// The group record at address `a`.
    pub open spec fn group_at(&self, a: Seq<u8>) -> Group {
        self.groups@[self.group_index_of(a)].group
    }

    /// An invitation record lives at address `a`.
    pub open spec fn has_invitation(&self, a: Seq<u8>) -> bool {
        exists|i: int|
            0 <= i < self.invitations@.len() && (#[trigger] self.invitations@[i]).address@ == a
    }

    /// The index of the invitation record at address `a`.
    pub open spec fn invitation_index_of(&self, a: Seq<u8>) -> int {
        choose|i: int|
            0 <= i < self.invitations@.len() && (#[trigger] self.invitations@[i]).address@ == a
    }

    /// The invitation record at address `a`.
    pub open spec fn invitation_at(&self, a: Seq<u8>) -> Invitation {
        self.invitations@[self.invitation_index_of(a)].invitation
    }

    /// Some record, of either kind, lives at address `a`.
    pub open spec fn occupied(&self, a: Seq<u8>) -> bool {
        self.has_group(a) || self.has_invitation(a)
    }

    /// Every stored record is well formed.
    pub open spec fn entries_wf(&self) -> bool {
        &&& self.program.wf()
        &&& forall|i: int|
            0 <= i < self.groups@.len() ==> (#[trigger] self.groups@[i]).address.wf() && group_wf(
                self.groups@[i].group,
            )
        &&& forall|i: int|
            0 <= i < self.invitations@.len() ==> (#[trigger] self.invitations@[i]).address.wf()
                && invitation_wf(self.invitations@[i].invitation)
    }

    /// No two records share an address: the address space is the uniqueness
    /// constraint.
    pub open spec fn addresses_distinct(&self) -> bool {
        &&& forall|i: int, j: int|
            #![trigger self.groups@[i].address, self.groups@[j].address]
            0 <= i < j < self.groups@.len() ==> self.groups@[i].address@
                != self.groups@[j].address@
        &&& forall|i: int, j: int|
            #![trigger self.invitations@[i].address, self.invitations@[j].address]
            0 <= i < j < self.invitations@.len() ==> self.invitations@[i].address@
                != self.invitations@[j].address@
        &&& forall|i: int, j: int|
            #![trigger self.groups@[i].address, self.invitations@[j].address]
            0 <= i < self.groups@.len() && 0 <= j < self.invitations@.len()
                ==> self.groups@[i].address@ != self.invitations@[j].address@
    }

    /// Every invitation lives at the address derived from its (recipient,
    /// group) pair; together with address uniqueness this is what guarantees
    /// at most one outstanding invitation per person per group.
    pub open spec fn invites_keyed(&self) -> bool {
        forall|i: int|
            0 <= i < self.invitations@.len() ==> {
                let e = #[trigger] self.invitations@[i];
                spec_invitation_address(
                    e.invitation.recipient@,
                    e.invitation.group_key@,
                    self.program@,
                ) matches Some(p) && p.0 == e.address@
            }
    }

    /// Every invitation is addressed to a group that lives in the store.
    pub open spec fn invites_grounded(&self) -> bool {
        forall|i: int|
            0 <= i < self.invitations@.len() ==> self.has_group(
                (#[trigger] self.invitations@[i]).invitation.group_key@,
            )
    }

    /// Every group's `members` count equals the number of live invitation
    /// records addressed to it.
    pub open spec fn members_consistent(&self) -> bool {
        forall|i: int|
            0 <= i < self.groups@.len() ==> (#[trigger] self.groups@[i]).group.members as nat
                == count_invites(self.invitations@, self.groups@[i].address@)
    }

    /// Every group's admin holds a live invitation to that group.
    pub open spec fn admin_is_member(&self) -> bool {
        forall|i: int|
            0 <= i < self.groups@.len() ==> has_invite(
                self.invitations@,
                (#[trigger] self.groups@[i]).group.admin@,
                self.groups@[i].address@,
            )
    }

    /// The store invariant, established at creation and preserved by every
    /// operation.
    pub open spec fn wf(&self) -> bool {
        &&& self.entries_wf()
        &&& self.addresses_distinct()
        &&& self.invites_keyed()
        &&& self.invites_grounded()
        &&& self.members_consistent()
        &&& self.admin_is_member()
    }

    /// The group found at an index is the one the lookup specs name.
    pub proof fn lemma_group_index(&self, a: Seq<u8>, i: int)
        requires
            self.addresses_distinct(),
            0 <= i < self.groups@.len(),
            self.groups@[i].address@ == a,
        ensures
            self.has_group(a),
            self.group_index_of(a) == i,
            self.group_at(a) == self.groups@[i].group,
    {
        assert(self.has_group(a));
        let j = self.group_index_of(a);
        assert(0 <= j < self.groups@.len() && self.groups@[j].address@ == a);
        if i < j {
            assert(self.groups@[i].address@ != self.groups@[j].address@);
        } else if j < i {
            assert(self.groups@[j].address@ != self.groups@[i].address@);
        }
    }

    /// The invitation found at an index is the one the lookup specs name.
    pub proof fn lemma_invitation_index(&self, a: Seq<u8>, i: int)
        requires
            self.addresses_distinct(),
            0 <= i < self.invitations@.len(),
            self.invitations@[i].address@ == a,
        ensures
            self.has_invitation(a),
            self.invitation_index_of(a) == i,
            self.invitation_at(a) == self.invitations@[i].invitation,
    {
        assert(self.has_invitation(a));
        let j = self.invitation_index_of(a);
        assert(0 <= j < self.invitations@.len() && self.invitations@[j].address@ == a);
        if i < j {
            assert(self.invitations@[i].address@ != self.invitations@[j].address@);
        } else if j < i {
            assert(self.invitations@[j].address@ != self.invitations@[i].address@);
        }
    }

    /// An empty store for one program's records.
    pub fn new(program: Identity) -> (r: GroupStore)
        requires
            program.wf(),
        ensures
            r.wf(),
            r.program@ == program@,
            r.groups@.len() == 0,
            r.invitations@.len() == 0,
    {
        GroupStore { program, groups: Vec::new(), invitations: Vec::new() }
    }

    /// Find the index of the group record at `address`.
    pub fn find_group(&self, address: &Identity) -> (r: Option<usize>)
        ensures
            (match r {
                Some(i) => i < self.groups@.len() && self.groups@[i as int].address@ == address@,
                None => !self.has_group(address@),
            }),
    {
        let n = self.groups.len();
        let mut i: usize = 0;
        while i < n
            invariant
                n == self.groups@.len(),
                i <= n,
                forall|j: int| 0 <= j < i ==> (#[trigger] self.groups@[j]).address@ != address@,
            decreases n - i,
        {
            if self.groups[i].address.same(address) {
                return Some(i);
            }
            i += 1;
        }
        None
    }

    /// Find the index of the invitation record at `address`.
    pub fn find_invitation(&self, address: &Identity) -> (r: Option<usize>)
        ensures
            (match r {
                Some(i) => i < self.invitations@.len() && self.invitations@[i as int].address@
                    == address@,
                None => !self.has_invitation(address@),
            }),
    {
        let n = self.invitations.len();
        let mut i: usize = 0;
        while i < n
            invariant
                n == self.invitations@.len(),
                i <= n,
                forall|j: int|
                    0 <= j < i ==> (#[trigger] self.invitations@[j]).address@ != address@,
            decreases n - i,
        {
            if self.invitations[i].address.same(address) {
                return Some(i);
            }
            i += 1;
        }
        None
    }

    /// Does any record, of either kind, live at `address`?
    pub fn is_occupied(&self, address: &Identity) -> (r: bool)
        ensures
            r == self.occupied(address@),
    {
        match self.find_group(address) {
            Some(_) => true,
            None => match self.find_invitation(address) {
                Some(_) => true,
                None => false,
            },
        }
    }

    /// Find an invitation linking `recipient` to the group at `group_key`.
    pub fn find_member_invitation(&self, recipient: &Identity, group_key: &Identity) -> (r: Option<
        usize,
    >)
        ensures
            (match r {
                Some(i) => i < self.invitations@.len() && self.invitations@[i as int].invitation.recipient@
                    == recipient@ && self.invitations@[i as int].invitation.group_key@
                    == group_key@,
                None => !has_invite(self.invitations@, recipient@, group_key@),
            }),
    {
        let n = self.invitations.len();
        let mut i: usize = 0;
        while i < n
            invariant
                n == self.invitations@.len(),
                i <= n,
                forall|j: int|
                    0 <= j < i ==> !((#[trigger] self.invitations@[j]).invitation.recipient@
                        == recipient@ && self.invitations@[j].invitation.group_key@ == group_key@),
            decreases n - i,
        {
            if self.invitations[i].invitation.recipient.same(recipient)
                && self.invitations[i].invitation.group_key.same(group_key) {
                return Some(i);
            }
            i += 1;
        }
        None
    }
}

/// Which way `create` decides: the two fresh addresses must derive and be
/// free, then the name, the group id and the encryption key are validated in
/// that order.
pub open spec fn create_outcome(
    store: GroupStore,
    signer: Seq<u8>,
    group_hash: Seq<u8>,
    name_len: nat,
    group_id_len: nat,
    key_len: nat,
) -> Result<(), ErrorCode> {
    match spec_group_address(group_hash, store.program@) {
        None => Err(ErrorCode::InputError),
        Some(gp) => if store.occupied(gp.0) {
            Err(ErrorCode::ExistentRequest)
        } else {
            match spec_invitation_address(signer, gp.0, store.program@) {
                None => Err(ErrorCode::InputError),
                Some(ip) => if ip.0 == gp.0 || store.occupied(ip.0) {
                    Err(ErrorCode::ExistentRequest)
                } else {
                    match check_len(name_len, 3, 64, true) {
                        Some(e) => Err(e),
                        None => match check_len(group_id_len, 1, 160, true) {
                            Some(e) => Err(e),
                            None => match check_len(key_len, 64, 64, true) {
                                Some(e) => Err(e),
                                None => Ok(()),
                            },
                        },
                    }
                },
            }
        },
    }
}

/// Create a group: derives the group address from the caller-supplied group
/// hash, validates every field, initializes the group with one member --
/// `creator` being the depositor, `admin` the signer -- and atomically
/// creates the creator's own invitation addressed to the signer.
pub fn create(
    store: &mut GroupStore,
    signer: &Identity,
    payer: &Identity,
    group_hash: &Vec<u8>,
    group_id: Vec<u8>,
    open_invites: bool,
    name: String,
    encryption_key: String,
    storage_tag: u8,
) -> (r: Result<Identity, ErrorCode>)
    requires
        old(store).wf(),
        signer.wf(),
        payer.wf(),
        group_hash@.len() == 32,
    ensures
        (match r {
            Ok(ga) => {
                &&& create_outcome(
                    *old(store),
                    signer@,
                    group_hash@,
                    name@.len(),
                    group_id@.len(),
                    encryption_key@.len(),
                ) is Ok
                &&& ga.wf()
                &&& spec_group_address(group_hash@, old(store).program@) matches Some(p) && p.0
                    == ga@
                &&& final(store).wf()
                &&& final(store).program == old(store).program
                &&& final(store).groups@.len() == old(store).groups@.len() + 1
                &&& final(store).groups@.drop_last() == old(store).groups@
                &&& final(store).invitations@.len() == old(store).invitations@.len() + 1
                &&& final(store).invitations@.drop_last() == old(store).invitations@
                &&& ({
                    let ge = final(store).groups@.last();
                    let ie = final(store).invitations@.last();
                    &&& ge.address@ == ga@
                    &&& spec_invitation_address(signer@, ga@, old(store).program@) matches Some(q)
                        && q.0 == ie.address@
                    &&& ge.group.creator@ == payer@
                    &&& ge.group.admin@ == signer@
                    &&& ge.group.open_invites == open_invites
                    &&& ge.group.members == 1
                    &&& ge.group.name@ == name@
                    &&& ie.invitation.sender@ == payer@
                    &&& ie.invitation.group_key@ == ga@
                    &&& ie.invitation.recipient@ == signer@
                    &&& ie.invitation.group_id@ == group_id@
                    &&& ie.invitation.encryption_key@ == encryption_key@
                    &&& ie.invitation.storage_tag == storage_tag
                })
            },
            Err(e) => {
                &&& create_outcome(
                    *old(store),
                    signer@,
                    group_hash@,
                    name@.len(),
                    group_id@.len(),
                    encryption_key@.len(),
                ) == Err::<(), ErrorCode>(e)
                &&& *final(store) == *old(store)
            },
        }),
{
    let ga = match group_address(group_hash, &store.program) {
        None => {
            return Err(ErrorCode::InputError);
        },
        Some(p) => p.0,
    };
    if store.is_occupied(&ga) {
        return Err(ErrorCode::ExistentRequest);
    }
    let ia = match invitation_address(signer, &ga, &store.program) {
        None => {
            return Err(ErrorCode::InputError);
        },
        Some(p) => p.0,
    };
    if ia.same(&ga) || store.is_occupied(&ia) {
        return Err(ErrorCode::ExistentRequest);
    }
    length_check(&name, 3, 64, true)?;
    length_check_vec(&group_id, 1, 160, true)?;
    length_check(&encryption_key, 64, 64, true)?;
    let group = Group {
        creator: payer.clone(),
        admin: signer.clone(),
        open_invites,
        members: 1,
        name,
    };
    let invitation = Invitation {
        sender: payer.clone(),
        group_key: ga.clone(),
        recipient: signer.clone(),
        group_id,
        encryption_key,
        storage_tag,
    };
    let ghost old_store = *store;
    store.groups.push(GroupEntry { address: ga.clone(), group });
    store.invitations.push(InviteEntry { address: ia, invitation });
    proof {
        let gs = store.groups@;
        let vs = store.invitations@;
        assert(gs.drop_last() =~= old_store.groups@);
        assert(vs.drop_last() =~= old_store.invitations@);
        // Counts: the new invitation belongs to the new group and to no
        // pre-existing one.
        assert forall|i: int| 0 <= i < gs.len() implies (#[trigger] gs[i]).group.members as nat
            == count_invites(vs, gs[i].address@) by {
            lemma_count_push(old_store.invitations@, gs[i].address@, vs.last());
            if i < gs.len() - 1 {
                assert(gs[i] == old_store.groups@[i]);
            } else {
                lemma_count_zero(old_store.invitations@, ga@);
            }
        }
        // Groundedness and admin membership carry over index by index.
        assert forall|i: int| 0 <= i < vs.len() implies store.has_group(
            (#[trigger] vs[i]).invitation.group_key@,
        ) by {
            if i < vs.len() - 1 {
                let k = old_store.group_index_of(vs[i].invitation.group_key@);
                assert(old_store.has_group(vs[i].invitation.group_key@));
                assert(0 <= k < old_store.groups@.len() && old_store.groups@[k].address@
                    == vs[i].invitation.group_key@);
                assert(gs[k].address@ == vs[i].invitation.group_key@);
            } else {
                assert(gs[gs.len() - 1].address@ == ga@);
            }
        }
        assert forall|i: int| 0 <= i < gs.len() implies has_invite(
            vs,
            (#[trigger] gs[i]).group.admin@,
            gs[i].address@,
        ) by {
            if i < gs.len() - 1 {
                let k = choose|k: int|
                    0 <= k < old_store.invitations@.len() && (#[trigger] old_store.invitations@[k]).invitation.recipient@
                        == old_store.groups@[i].group.admin@
                        && old_store.invitations@[k].invitation.group_key@
                        == old_store.groups@[i].address@;
                assert(vs[k] == old_store.invitations@[k]);
            } else {
                assert(vs[vs.len() - 1].invitation.recipient@ == signer@);
            }
        }
    }
    Ok(ga)
}

/// Which way `invite` decides: the group must exist, the caller must be its
/// admin or -- with open invites -- a member, the new invitation's address
/// must derive and be free, the member count must have room, and the group
/// id and encryption key are validated in that order.
pub open spec fn invite_outcome(
    store: GroupStore,
    signer: Seq<u8>,
    group: Seq<u8>,
    recipient: Seq<u8>,
    group_id_len: nat,
    key_len: nat,
) -> Result<(), ErrorCode> {
    if !store.has_group(group) {
        Err(ErrorCode::InvitationMismatch)
    } else {
        let g = store.group_at(group);
        if !(signer == g.admin@ || (g.open_invites && has_invite(
            store.invitations@,
            signer,
            group,
        ))) {
            Err(ErrorCode::WrongPrivileges)
        } else {
            match spec_invitation_address(recipient, group, store.program@) {
                None => Err(ErrorCode::InputError),
                Some(p) => if store.occupied(p.0) {
                    Err(ErrorCode::ExistentRequest)
                } else if g.members == 255 {
                    Err(ErrorCode::IncorrectField)
                } else {
                    match check_len(group_id_len, 1, 160, true) {
                        Some(e) => Err(e),
                        None => match check_len(key_len, 64, 64, true) {
                            Some(e) => Err(e),
                            None => Ok(()),
                        },
                    }
                },
            }
        }
    }
}

/// Invite `recipient` into the group at address `group`. Allowed for the
/// group's admin, and for any current member while `open_invites` is true.
/// Creates the invitation record at its derived (recipient, group) address
/// -- re-inviting an already invited person collides there and is rejected
/// by the storage layer -- and increments the group's member count.
#[verifier::rlimit(60)]
pub fn invite(
    store: &mut GroupStore,
    signer: &Identity,
    payer: &Identity,
    group: &Identity,
    recipient: &Identity,
    group_id: Vec<u8>,
    encryption_key: String,
    storage_tag: u8,
) -> (r: Result<Identity, ErrorCode>)
    requires
        old(store).wf(),
        signer.wf(),
        payer.wf(),
        group.wf(),
        recipient.wf(),
    ensures
        (match r {
            Ok(ia) => {
                &&& invite_outcome(
                    *old(store),
                    signer@,
                    group@,
                    recipient@,
                    group_id@.len(),
                    encryption_key@.len(),
                ) is Ok
                &&& ia.wf()
                &&& spec_invitation_address(recipient@, group@, old(store).program@) matches Some(p)
                    && p.0 == ia@
                &&& final(store).wf()
                &&& final(store).program == old(store).program
                &&& final(store).groups@.len() == old(store).groups@.len()
                &&& ({
                    let gi = old(store).group_index_of(group@);
                    &&& forall|j: int|
                        0 <= j < old(store).groups@.len() && j != gi ==> final(store).groups@[j]
                            == old(store).groups@[j]
                    &&& final(store).groups@[gi].address == old(store).groups@[gi].address
                    &&& final(store).groups@[gi].group.members == old(
                        store,
                    ).groups@[gi].group.members + 1
                    &&& final(store).groups@[gi].group.creator == old(
                        store,
                    ).groups@[gi].group.creator
                    &&& final(store).groups@[gi].group.admin == old(store).groups@[gi].group.admin
                    &&& final(store).groups@[gi].group.open_invites == old(
                        store,
                    ).groups@[gi].group.open_invites
                    &&& final(store).groups@[gi].group.name == old(store).groups@[gi].group.name
                })
                &&& final(store).invitations@.len() == old(store).invitations@.len() + 1
                &&& final(store).invitations@.drop_last() == old(store).invitations@
                &&& ({
                    let ie = final(store).invitations@.last();
                    &&& ie.address@ == ia@
                    &&& ie.invitation.sender@ == payer@
                    &&& ie.invitation.group_key@ == group@
                    &&& ie.invitation.recipient@ == recipient@
                    &&& ie.invitation.group_id@ == group_id@
                    &&& ie.invitation.encryption_key@ == encryption_key@
                    &&& ie.invitation.storage_tag == storage_tag
                })
            },
            Err(e) => {
                &&& invite_outcome(
                    *old(store),
                    signer@,
                    group@,
                    recipient@,
                    group_id@.len(),
                    encryption_key@.len(),
                ) == Err::<(), ErrorCode>(e)
                &&& *final(store) == *old(store)
            },
        }),
{
    let gi = match store.find_group(group) {
        None => {
            return Err(ErrorCode::InvitationMismatch);
        },
        Some(i) => i,
    };
    proof {
        store.lemma_group_index(group@, gi as int);
    }
    let allowed = if signer.same(&store.groups[gi].group.admin) {
        true
    } else if store.groups[gi].group.open_invites {
        match store.find_member_invitation(signer, group) {
            Some(_) => true,
            None => false,
        }
    } else {
        false
    };
    if !allowed {
        return Err(ErrorCode::WrongPrivileges);
    }
    let ia = match invitation_address(recipient, group, &store.program) {
        None => {
            return Err(ErrorCode::InputError);
        },
        Some(p) => p.0,
    };
    if store.is_occupied(&ia) {
        return Err(ErrorCode::ExistentRequest);
    }
    if store.groups[gi].group.members == 255 {
        return Err(ErrorCode::IncorrectField);
    }
    length_check_vec(&group_id, 1, 160, true)?;
    length_check(&encryption_key, 64, 64, true)?;
    let ghost old_store = *store;
    let mut ge = store.groups.remove(gi);
    ge.group.members = ge.group.members + 1;
    let ghost ge_new = ge;
    store.groups.insert(gi, ge);
    let invitation = Invitation {
        sender: payer.clone(),
        group_key: group.clone(),
        recipient: recipient.clone(),
        group_id,
        encryption_key,
        storage_tag,
    };
    store.invitations.push(InviteEntry { address: ia.clone(), invitation });
    proof {
        let gs = store.groups@;
        let vs = store.invitations@;
        assert(gs =~= old_store.groups@.update(gi as int, ge_new));
        assert(vs.drop_last() =~= old_store.invitations@);
        assert forall|i: int| 0 <= i < gs.len() implies (#[trigger] gs[i]).group.members as nat
            == count_invites(vs, gs[i].address@) by {
            lemma_count_push(old_store.invitations@, gs[i].address@, vs.last());
            if i != gi {
                assert(old_store.groups@[i].address@ != old_store.groups@[gi as int].address@);
            }
        }
        assert forall|i: int| 0 <= i < vs.len() implies store.has_group(
            (#[trigger] vs[i]).invitation.group_key@,
        ) by {
            if i < vs.len() - 1 {
                let k = old_store.group_index_of(vs[i].invitation.group_key@);
                assert(old_store.has_group(vs[i].invitation.group_key@));
                assert(0 <= k < old_store.groups@.len() && old_store.groups@[k].address@
                    == vs[i].invitation.group_key@);
                assert(gs[k].address@ == vs[i].invitation.group_key@);
            } else {
                assert(gs[gi as int].address@ == group@);
            }
        }
        assert forall|i: int| 0 <= i < gs.len() implies has_invite(
            vs,
            (#[trigger] gs[i]).group.admin@,
            gs[i].address@,
        ) by {
            let k = choose|k: int|
                0 <= k < old_store.invitations@.len()
                    && (#[trigger] old_store.invitations@[k]).invitation.recipient@
                    == old_store.groups@[i].group.admin@
                    && old_store.invitations@[k].invitation.group_key@
                    == old_store.groups@[i].address@;
            assert(has_invite(
                old_store.invitations@,
                old_store.groups@[i].group.admin@,
                old_store.groups@[i].address@,
            ));
            assert(vs[k] == old_store.invitations@[k]);
        }
    }
    Ok(ia)
}

/// Which way `leave` decides: both referenced records must exist; exactly
/// one of "the caller is not the admin and is the invitation's recipient" or
/// "the caller is the admin and is not the invitation's recipient" must
/// hold (the second arm is how an admin revokes another member's
/// invitation); the refund target must be the invitation's depositor; and
/// the invitation must belong to the group.
pub open spec fn leave_outcome(
    store: GroupStore,
    signer: Seq<u8>,
    group: Seq<u8>,
    invitation: Seq<u8>,
    invitation_sender: Seq<u8>,
) -> Result<(), ErrorCode> {
    if !store.has_group(group) {
        Err(ErrorCode::InvitationMismatch)
    } else if !store.has_invitation(invitation) {
        Err(ErrorCode::InvitationMismatch)
    } else {
        let g = store.group_at(group);
        let inv = store.invitation_at(invitation);
        if !((signer != g.admin@ && signer == inv.recipient@) || (signer == g.admin@ && signer
            != inv.recipient@)) {
            Err(ErrorCode::WrongPrivileges)
        } else if invitation_sender != inv.sender@ {
            Err(ErrorCode::PayerMismatch)
        } else if inv.group_key@ != group {
            Err(ErrorCode::InvitationMismatch)
        } else {
            Ok(())
        }
    }
}

/// Leave the group at address `group` by destroying the invitation record at
/// address `invitation`, refunding the identity that funded it -- the
/// original inviter, not the leaving member -- and decrementing the group's
/// member count. The admin's own invitation can never be destroyed this way,
/// so the count stays at least one.
pub fn leave(
    store: &mut GroupStore,
    signer: &Identity,
    group: &Identity,
    invitation: &Identity,
    invitation_sender: &Identity,
) -> (r: Result<Identity, ErrorCode>)
    requires
        old(store).wf(),
        signer.wf(),
        group.wf(),
        invitation.wf(),
        invitation_sender.wf(),
    ensures
        (match r {
            Ok(refund) => {
                &&& leave_outcome(*old(store), signer@, group@, invitation@, invitation_sender@)
                    is Ok
                &&& refund.wf()
                &&& refund@ == old(store).invitation_at(invitation@).sender@
                &&& final(store).wf()
                &&& final(store).program == old(store).program
                &&& final(store).invitations@ == old(store).invitations@.remove(
                    old(store).invitation_index_of(invitation@),
                )
                &&& final(store).groups@.len() == old(store).groups@.len()
                &&& ({
                    let gi = old(store).group_index_of(group@);
                    &&& forall|j: int|
                        0 <= j < old(store).groups@.len() && j != gi ==> final(store).groups@[j]
                            == old(store).groups@[j]
                    &&& final(store).groups@[gi].address == old(store).groups@[gi].address
                    &&& final(store).groups@[gi].group.members == old(
                        store,
                    ).groups@[gi].group.members - 1
                    &&& final(store).groups@[gi].group.creator == old(
                        store,
                    ).groups@[gi].group.creator
                    &&& final(store).groups@[gi].group.admin == old(store).groups@[gi].group.admin
                    &&& final(store).groups@[gi].group.open_invites == old(
                        store,
                    ).groups@[gi].group.open_invites
                    &&& final(store).groups@[gi].group.name == old(store).groups@[gi].group.name
                })
            },
            Err(e) => {
                &&& leave_outcome(*old(store), signer@, group@, invitation@, invitation_sender@)
                    == Err::<(), ErrorCode>(e)
                &&& *final(store) == *old(store)
            },
        }),
{
    let gi = match store.find_group(group) {
        None => {
            return Err(ErrorCode::InvitationMismatch);
        },
        Some(i) => i,
    };
    proof {
        store.lemma_group_index(group@, gi as int);
    }
    let ii = match store.find_invitation(invitation) {
        None => {
            return Err(ErrorCode::InvitationMismatch);
        },
        Some(i) => i,
    };
    proof {
        store.lemma_invitation_index(invitation@, ii as int);
    }
    let is_admin = signer.same(&store.groups[gi].group.admin);
    let is_recipient = signer.same(&store.invitations[ii].invitation.recipient);
    if !((!is_admin && is_recipient) || (is_admin && !is_recipient)) {
        return Err(ErrorCode::WrongPrivileges);
    }
    if !invitation_sender.same(&store.invitations[ii].invitation.sender) {
        return Err(ErrorCode::PayerMismatch);
    }
    if !store.invitations[ii].invitation.group_key.same(group) {
        return Err(ErrorCode::InvitationMismatch);
    }
    proof {
        // The admin's own invitation is a second one addressed to this
        // group, so the count -- and hence the member count -- is at least
        // two before the removal.
        let admin = store.groups@[gi as int].group.admin@;
        let k = choose|k: int|
            0 <= k < store.invitations@.len()
                && (#[trigger] store.invitations@[k]).invitation.recipient@ == admin
                && store.invitations@[k].invitation.group_key@ == group@;
        assert(has_invite(store.invitations@, admin, group@));
        assert(store.invitations@[ii as int].invitation.recipient@ != admin);
        lemma_count_two(store.invitations@, group@, k, ii as int);
    }
    let ghost old_store = *store;
    let removed = store.invitations.remove(ii);
    let refund = removed.invitation.sender;
    let mut ge = store.groups.remove(gi);
    ge.group.members = ge.group.members - 1;
    let ghost ge_new = ge;
    store.groups.insert(gi, ge);
    proof {
        let gs = store.groups@;
        let vs = store.invitations@;
        let old_vs = old_store.invitations@;
        assert(gs =~= old_store.groups@.update(gi as int, ge_new));
        assert forall|i: int| 0 <= i < vs.len() implies #[trigger] vs[i] == (if i < ii {
            old_vs[i]
        } else {
            old_vs[i + 1]
        }) by {}
        assert forall|i: int| 0 <= i < gs.len() implies (#[trigger] gs[i]).group.members as nat
            == count_invites(vs, gs[i].address@) by {
            lemma_count_remove(old_vs, gs[i].address@, ii as int);
            if i != gi {
                assert(old_store.groups@[i].address@ != old_store.groups@[gi as int].address@);
            }
        }
        assert forall|i: int| 0 <= i < vs.len() implies store.has_group(
            (#[trigger] vs[i]).invitation.group_key@,
        ) by {
            let io: int = if i < ii {
                i
            } else {
                i + 1
            };
            let k = old_store.group_index_of(old_vs[io].invitation.group_key@);
            assert(old_store.has_group(old_vs[io].invitation.group_key@));
            assert(0 <= k < old_store.groups@.len() && old_store.groups@[k].address@
                == old_vs[io].invitation.group_key@);
            assert(gs[k].address@ == old_vs[io].invitation.group_key@);
        }
        assert forall|i: int| 0 <= i < gs.len() implies has_invite(
            vs,
            (#[trigger] gs[i]).group.admin@,
            gs[i].address@,
        ) by {
            let admin = old_store.groups@[i].group.admin@;
            let addr = old_store.groups@[i].address@;
            let k = choose|k: int|
                0 <= k < old_vs.len() && (#[trigger] old_vs[k]).invitation.recipient@ == admin
                    && old_vs[k].invitation.group_key@ == addr;
            assert(has_invite(old_vs, admin, addr));
            if i == gi {
                assert(old_vs[ii as int].invitation.recipient@ != admin);
            } else {
                assert(old_store.groups@[i].address@ != old_store.groups@[gi as int].address@);
            }
            let k2: int = if k < ii {
                k
            } else {
                k - 1
            };
            assert(vs[k2] == old_vs[k]);
        }
    }
    Ok(refund)
}

/// Which way `admin_leave` decides: the three referenced records must
/// exist; the caller must be the admin leaving over their own invitation; the
/// refund target must be that invitation's depositor; the invitation must
/// belong to the group; and the named successor invitation must belong to
/// the group with a different recipient than the leaving admin.
pub open spec fn admin_leave_outcome(
    store: GroupStore,
    signer: Seq<u8>,
    group: Seq<u8>,
    invitation: Seq<u8>,
    successor: Seq<u8>,
    invitation_sender: Seq<u8>,
) -> Result<(), ErrorCode> {
    if !store.has_group(group) {
        Err(ErrorCode::InvitationMismatch)
    } else if !store.has_invitation(invitation) {
        Err(ErrorCode::InvitationMismatch)
    } else if !store.has_invitation(successor) {
        Err(ErrorCode::InvitationMismatch)
    } else {
        let g = store.group_at(group);
        let inv = store.invitation_at(invitation);
        let succ = store.invitation_at(successor);
        if !(signer == g.admin@ && signer == inv.recipient@) {
            Err(ErrorCode::WrongPrivileges)
        } else if invitation_sender != inv.sender@ {
            Err(ErrorCode::PayerMismatch)
        } else if inv.group_key@ != group {
            Err(ErrorCode::InvitationMismatch)
        } else if !(succ.group_key@ == group && succ.recipient@ != inv.recipient@) {
            Err(ErrorCode::InvitationMismatch)
        } else {
            Ok(())
        }
    }
}

/// The admin leaves the group at address `group`: their own invitation
/// record at address `invitation` is destroyed -- refunding its depositor --
/// the member count drops by one, and the admin role passes to the recipient
/// of the successor invitation at address `successor`.
pub fn admin_leave(
    store: &mut GroupStore,
    signer: &Identity,
    group: &Identity,
    invitation: &Identity,
    successor: &Identity,
    invitation_sender: &Identity,
) -> (r: Result<Identity, ErrorCode>)
    requires
        old(store).wf(),
        signer.wf(),
        group.wf(),
        invitation.wf(),
        successor.wf(),
        invitation_sender.wf(),
    ensures
        (match r {
            Ok(refund) => {
                &&& admin_leave_outcome(
                    *old(store),
                    signer@,
                    group@,
                    invitation@,
                    successor@,
                    invitation_sender@,
                ) is Ok
                &&& refund.wf()
                &&& refund@ == old(store).invitation_at(invitation@).sender@
                &&& final(store).wf()
                &&& final(store).program == old(store).program
                &&& final(store).invitations@ == old(store).invitations@.remove(
                    old(store).invitation_index_of(invitation@),
                )
                &&& final(store).groups@.len() == old(store).groups@.len()
                &&& ({
                    let gi = old(store).group_index_of(group@);
                    &&& forall|j: int|
                        0 <= j < old(store).groups@.len() && j != gi ==> final(store).groups@[j]
                            == old(store).groups@[j]
                    &&& final(store).groups@[gi].address == old(store).groups@[gi].address
                    &&& final(store).groups@[gi].group.members == old(
                        store,
                    ).groups@[gi].group.members - 1
                    &&& final(store).groups@[gi].group.admin@ == old(store).invitation_at(
                        successor@,
                    ).recipient@
                    &&& final(store).groups@[gi].group.creator == old(
                        store,
                    ).groups@[gi].group.creator
                    &&& final(store).groups@[gi].group.open_invites == old(
                        store,
                    ).groups@[gi].group.open_invites
                    &&& final(store).groups@[gi].group.name == old(store).groups@[gi].group.name
                })
            },
            Err(e) => {
                &&& admin_leave_outcome(
                    *old(store),
                    signer@,
                    group@,
                    invitation@,
                    successor@,
                    invitation_sender@,
                ) == Err::<(), ErrorCode>(e)
                &&& *final(store) == *old(store)
            },
        }),
{
    let gi = match store.find_group(group) {
        None => {
            return Err(ErrorCode::InvitationMismatch);
        },
        Some(i) => i,
    };
    proof {
        store.lemma_group_index(group@, gi as int);
    }
    let ii = match store.find_invitation(invitation) {
        None => {
            return Err(ErrorCode::InvitationMismatch);
        },
        Some(i) => i,
    };
    proof {
        store.lemma_invitation_index(invitation@, ii as int);
    }
    let si = match store.find_invitation(successor) {
        None => {
            return Err(ErrorCode::InvitationMismatch);
        },
        Some(i) => i,
    };
    proof {
        store.lemma_invitation_index(successor@, si as int);
    }
    if !(signer.same(&store.groups[gi].group.admin) && signer.same(
        &store.invitations[ii].invitation.recipient,
    )) {
        return Err(ErrorCode::WrongPrivileges);
    }
    if !invitation_sender.same(&store.invitations[ii].invitation.sender) {
        return Err(ErrorCode::PayerMismatch);
    }
    if !store.invitations[ii].invitation.group_key.same(group) {
        return Err(ErrorCode::InvitationMismatch);
    }
    if !(store.invitations[si].invitation.group_key.same(group) && !store.invitations[si].invitation.recipient.same(
        &store.invitations[ii].invitation.recipient,
    )) {
        return Err(ErrorCode::InvitationMismatch);
    }
    proof {
        // The successor invitation is a second one addressed to this group,
        // so the count is at least two before the removal.
        assert(si != ii);
        lemma_count_two(store.invitations@, group@, si as int, ii as int);
    }
    let new_admin = store.invitations[si].invitation.recipient.clone();
    let ghost old_store = *store;
    let removed = store.invitations.remove(ii);
    let refund = removed.invitation.sender;
    let mut ge = store.groups.remove(gi);
    ge.group.members = ge.group.members - 1;
    ge.group.admin = new_admin;
    let ghost ge_new = ge;
    store.groups.insert(gi, ge);
    proof {
        let gs = store.groups@;
        let vs = store.invitations@;
        let old_vs = old_store.invitations@;
        assert(gs =~= old_store.groups@.update(gi as int, ge_new));
        assert forall|i: int| 0 <= i < vs.len() implies #[trigger] vs[i] == (if i < ii {
            old_vs[i]
        } else {
            old_vs[i + 1]
        }) by {}
        assert forall|i: int| 0 <= i < gs.len() implies (#[trigger] gs[i]).group.members as nat
            == count_invites(vs, gs[i].address@) by {
            lemma_count_remove(old_vs, gs[i].address@, ii as int);
            if i != gi {
                assert(old_store.groups@[i].address@ != old_store.groups@[gi as int].address@);
            }
        }
        assert forall|i: int| 0 <= i < vs.len() implies store.has_group(
            (#[trigger] vs[i]).invitation.group_key@,
        ) by {
            let io: int = if i < ii {
                i
            } else {
                i + 1
            };
            let k = old_store.group_index_of(old_vs[io].invitation.group_key@);
            assert(old_store.has_group(old_vs[io].invitation.group_key@));
            assert(0 <= k < old_store.groups@.len() && old_store.groups@[k].address@
                == old_vs[io].invitation.group_key@);
            assert(gs[k].address@ == old_vs[io].invitation.group_key@);
        }
        assert forall|i: int| 0 <= i < gs.len() implies has_invite(
            vs,
            (#[trigger] gs[i]).group.admin@,
            gs[i].address@,
        ) by {
            if i == gi {
                let s2: int = if si < ii {
                    si as int
                } else {
                    si - 1
                };
                assert(vs[s2] == old_vs[si as int]);
            } else {
                let admin = old_store.groups@[i].group.admin@;
                let addr = old_store.groups@[i].address@;
                let k = choose|k: int|
                    0 <= k < old_vs.len() && (#[trigger] old_vs[k]).invitation.recipient@ == admin
                        && old_vs[k].invitation.group_key@ == addr;
                assert(has_invite(old_vs, admin, addr));
                assert(old_store.groups@[i].address@ != old_store.groups@[gi as int].address@);
                let k2: int = if k < ii {
                    k
                } else {
                    k - 1
                };
                assert(vs[k2] == old_vs[k]);
            }
        }
    }
    Ok(refund)
}

/// Which way `close` decides: both referenced records must exist; only the
/// admin may close; the group must be down to its single remaining member;
/// the two refund targets must match the recorded depositors; and the
/// invitation must belong to the group.
pub open spec fn close_outcome(
    store: GroupStore,
    signer: Seq<u8>,
    group: Seq<u8>,
    invitation: Seq<u8>,
    creator: Seq<u8>,
    invitation_sender: Seq<u8>,
) -> Result<(), ErrorCode> {
    if !store.has_group(group) {
        Err(ErrorCode::InvitationMismatch)
    } else if !store.has_invitation(invitation) {
        Err(ErrorCode::InvitationMismatch)
    } else {
        let g = store.group_at(group);
        let inv = store.invitation_at(invitation);
        if signer != g.admin@ {
            Err(ErrorCode::WrongPrivileges)
        } else if g.members != 1 {
            Err(ErrorCode::NotEmpty)
        } else if creator != g.creator@ {
            Err(ErrorCode::PayerMismatch)
        } else if invitation_sender != inv.sender@ {
            Err(ErrorCode::PayerMismatch)
        } else if inv.group_key@ != group {
            Err(ErrorCode::InvitationMismatch)
        } else {
            Ok(())
        }
    }
}

/// Close the group at address `group`, which succeeds exactly when one
/// member remains: destroys the last invitation record at address
/// `invitation` -- refunding its depositor -- and the group record itself,
/// refunding the recorded creator. On success the returned pair is (group
/// refund target, invitation refund target).
pub fn close(
    store: &mut GroupStore,
    signer: &Identity,
    group: &Identity,
    invitation: &Identity,
    creator: &Identity,
    invitation_sender: &Identity,
) -> (r: Result<(Identity, Identity), ErrorCode>)
    requires
        old(store).wf(),
        signer.wf(),
        group.wf(),
        invitation.wf(),
        creator.wf(),
        invitation_sender.wf(),
    ensures
        (match r {
            Ok(refunds) => {
                &&& close_outcome(
                    *old(store),
                    signer@,
                    group@,
                    invitation@,
                    creator@,
                    invitation_sender@,
                ) is Ok
                &&& refunds.0.wf()
                &&& refunds.1.wf()
                &&& refunds.0@ == old(store).group_at(group@).creator@
                &&& refunds.1@ == old(store).invitation_at(invitation@).sender@
                &&& final(store).wf()
                &&& final(store).program == old(store).program
                &&& final(store).groups@ == old(store).groups@.remove(
                    old(store).group_index_of(group@),
                )
                &&& final(store).invitations@ == old(store).invitations@.remove(
                    old(store).invitation_index_of(invitation@),
                )
            },
            Err(e) => {
                &&& close_outcome(
                    *old(store),
                    signer@,
                    group@,
                    invitation@,
                    creator@,
                    invitation_sender@,
                ) == Err::<(), ErrorCode>(e)
                &&& *final(store) == *old(store)
            },
        }),
{
    let gi = match store.find_group(group) {
        None => {
            return Err(ErrorCode::InvitationMismatch);
        },
        Some(i) => i,
    };
    proof {
        store.lemma_group_index(group@, gi as int);
    }
    let ii = match store.find_invitation(invitation) {
        None => {
            return Err(ErrorCode::InvitationMismatch);
        },
        Some(i) => i,
    };
    proof {
        store.lemma_invitation_index(invitation@, ii as int);
    }
    if !signer.same(&store.groups[gi].group.admin) {
        return Err(ErrorCode::WrongPrivileges);
    }
    if store.groups[gi].group.members != 1 {
        return Err(ErrorCode::NotEmpty);
    }
    if !creator.same(&store.groups[gi].group.creator) {
        return Err(ErrorCode::PayerMismatch);
    }
    if !invitation_sender.same(&store.invitations[ii].invitation.sender) {
        return Err(ErrorCode::PayerMismatch);
    }
    if !store.invitations[ii].invitation.group_key.same(group) {
        return Err(ErrorCode::InvitationMismatch);
    }
    let ghost old_store = *store;
    let removed_group = store.groups.remove(gi);
    let group_refund = removed_group.group.creator;
    let removed_inv = store.invitations.remove(ii);
    let invitation_refund = removed_inv.invitation.sender;
    proof {
        let gs = store.groups@;
        let vs = store.invitations@;
        let old_gs = old_store.groups@;
        let old_vs = old_store.invitations@;
        assert forall|i: int| 0 <= i < vs.len() implies #[trigger] vs[i] == (if i < ii {
            old_vs[i]
        } else {
            old_vs[i + 1]
        }) by {}
        assert forall|i: int| 0 <= i < gs.len() implies #[trigger] gs[i] == (if i < gi {
            old_gs[i]
        } else {
            old_gs[i + 1]
        }) by {}
        // No remaining invitation is addressed to the closed group: its
        // count was one, the removed invitation.
        assert forall|i: int| 0 <= i < vs.len() implies (#[trigger] vs[i]).invitation.group_key@
            != group@ by {
            let io: int = if i < ii {
                i
            } else {
                i + 1
            };
            if old_vs[io].invitation.group_key@ == group@ {
                lemma_count_two(old_vs, group@, io, ii as int);
            }
        }
        assert forall|i: int| 0 <= i < gs.len() implies (#[trigger] gs[i]).group.members as nat
            == count_invites(vs, gs[i].address@) by {
            let io: int = if i < gi {
                i
            } else {
                i + 1
            };
            lemma_count_remove(old_vs, old_gs[io].address@, ii as int);
            assert(old_gs[io].address@ != old_gs[gi as int].address@);
        }
        assert forall|i: int| 0 <= i < vs.len() implies store.has_group(
            (#[trigger] vs[i]).invitation.group_key@,
        ) by {
            let io: int = if i < ii {
                i
            } else {
                i + 1
            };
            let a = old_vs[io].invitation.group_key@;
            let k = old_store.group_index_of(a);
            assert(old_store.has_group(a));
            assert(0 <= k < old_gs.len() && old_gs[k].address@ == a);
            assert(vs[i].invitation.group_key@ == a);
            assert(a != group@);
            assert(old_gs[gi as int].address@ == group@);
            assert(k != gi);
            let k2: int = if k < gi {
                k
            } else {
                k - 1
            };
            assert(gs[k2].address@ == a);
        }
        assert forall|i: int| 0 <= i < gs.len() implies has_invite(
            vs,
            (#[trigger] gs[i]).group.admin@,
            gs[i].address@,
        ) by {
            let io: int = if i < gi {
                i
            } else {
                i + 1
            };
            let admin = old_gs[io].group.admin@;
            let addr = old_gs[io].address@;
            let k = choose|k: int|
                0 <= k < old_vs.len() && (#[trigger] old_vs[k]).invitation.recipient@ == admin
                    && old_vs[k].invitation.group_key@ == addr;
            assert(has_invite(old_vs, admin, addr));
            assert(addr != old_gs[gi as int].address@);
            assert(k != ii);
            let k2: int = if k < ii {
                k
            } else {
                k - 1
            };
            assert(vs[k2] == old_vs[k]);
        }
    }
    Ok((group_refund, invitation_refund))
}

/// Which way the three parameter changes decide: the group must exist and
/// the caller must be its admin; `modify_successor` additionally requires
/// the successor invitation to exist and to belong to the group, and
/// `modify_name` revalidates the name.
pub open spec fn modify_successor_outcome(
    store: GroupStore,
    signer: Seq<u8>,
    group: Seq<u8>,
    successor: Seq<u8>,
) -> Result<(), ErrorCode> {
    if !store.has_group(group) {
        Err(ErrorCode::InvitationMismatch)
    } else if !store.has_invitation(successor) {
        Err(ErrorCode::InvitationMismatch)
    } else if signer != store.group_at(group).admin@ {
        Err(ErrorCode::WrongPrivileges)
    } else if store.invitation_at(successor).group_key@ != group {
        Err(ErrorCode::InvitationMismatch)
    } else {
        Ok(())
    }
}

/// Hand the admin role of the group at address `group` to the recipient of
/// the invitation record at address `successor`. Membership is unchanged.
pub fn modify_successor(
    store: &mut GroupStore,
    signer: &Identity,
    group: &Identity,
    successor: &Identity,
) -> (r: Result<(), ErrorCode>)
    requires
        old(store).wf(),
        signer.wf(),
        group.wf(),
        successor.wf(),
    ensures
        r == modify_successor_outcome(*old(store), signer@, group@, successor@),
        r is Err ==> *final(store) == *old(store),
        r is Ok ==> {
            &&& final(store).wf()
            &&& final(store).program == old(store).program
            &&& final(store).invitations@ == old(store).invitations@
            &&& final(store).groups@.len() == old(store).groups@.len()
            &&& ({
                let gi = old(store).group_index_of(group@);
                &&& forall|j: int|
                    0 <= j < old(store).groups@.len() && j != gi ==> final(store).groups@[j] == old(
                        store,
                    ).groups@[j]
                &&& final(store).groups@[gi].address == old(store).groups@[gi].address
                &&& final(store).groups@[gi].group.admin@ == old(store).invitation_at(
                    successor@,
                ).recipient@
                &&& final(store).groups@[gi].group.members == old(store).groups@[gi].group.members
                &&& final(store).groups@[gi].group.creator == old(store).groups@[gi].group.creator
                &&& final(store).groups@[gi].group.open_invites == old(
                    store,
                ).groups@[gi].group.open_invites
                &&& final(store).groups@[gi].group.name == old(store).groups@[gi].group.name
            })
        },
{
    let gi = match store.find_group(group) {
        None => {
            return Err(ErrorCode::InvitationMismatch);
        },
        Some(i) => i,
    };
    proof {
        store.lemma_group_index(group@, gi as int);
    }
    let si = match store.find_invitation(successor) {
        None => {
            return Err(ErrorCode::InvitationMismatch);
        },
        Some(i) => i,
    };
    proof {
        store.lemma_invitation_index(successor@, si as int);
    }
    if !signer.same(&store.groups[gi].group.admin) {
        return Err(ErrorCode::WrongPrivileges);
    }
    if !store.invitations[si].invitation.group_key.same(group) {
        return Err(ErrorCode::InvitationMismatch);
    }
    let new_admin = store.invitations[si].invitation.recipient.clone();
    let ghost old_store = *store;
    let mut ge = store.groups.remove(gi);
    ge.group.admin = new_admin;
    let ghost ge_new = ge;
    store.groups.insert(gi, ge);
    proof {
        let gs = store.groups@;
        let vs = store.invitations@;
        assert(gs =~= old_store.groups@.update(gi as int, ge_new));
        assert forall|i: int| 0 <= i < vs.len() implies store.has_group(
            (#[trigger] vs[i]).invitation.group_key@,
        ) by {
            let a = vs[i].invitation.group_key@;
            let k = old_store.group_index_of(a);
            assert(old_store.has_group(a));
            assert(0 <= k < old_store.groups@.len() && old_store.groups@[k].address@ == a);
            assert(gs[k].address@ == a);
        }
        assert forall|i: int| 0 <= i < gs.len() implies has_invite(
            vs,
            (#[trigger] gs[i]).group.admin@,
            gs[i].address@,
        ) by {
            if i == gi {
                assert(vs[si as int].invitation.recipient@ == ge_new.group.admin@);
            } else {
                assert(has_invite(
                    vs,
                    old_store.groups@[i].group.admin@,
                    old_store.groups@[i].address@,
                ));
            }
        }
    }
    Ok(())
}

/// Which way `modify_open_ivites` and `modify_name` decide on their
/// privilege check.
pub open spec fn modify_parameter_outcome(store: GroupStore, signer: Seq<u8>, group: Seq<u8>) -> Result<
    (),
    ErrorCode,
> {
    if !store.has_group(group) {
        Err(ErrorCode::InvitationMismatch)
    } else if signer != store.group_at(group).admin@ {
        Err(ErrorCode::WrongPrivileges)
    } else {
        Ok(())
    }
}

/// Switch whether every member -- not only the admin -- may invite into the
/// group at address `group`. Admin only.
pub fn modify_open_ivites(
    store: &mut GroupStore,
    signer: &Identity,
    group: &Identity,
    open_invites: bool,
) -> (r: Result<(), ErrorCode>)
    requires
        old(store).wf(),
        signer.wf(),
        group.wf(),
    ensures
        r == modify_parameter_outcome(*old(store), signer@, group@),
        r is Err ==> *final(store) == *old(store),
        r is Ok ==> {
            &&& final(store).wf()
            &&& final(store).program == old(store).program
            &&& final(store).invitations@ == old(store).invitations@
            &&& final(store).groups@.len() == old(store).groups@.len()
            &&& ({
                let gi = old(store).group_index_of(group@);
                &&& forall|j: int|
                    0 <= j < old(store).groups@.len() && j != gi ==> final(store).groups@[j] == old(
                        store,
                    ).groups@[j]
                &&& final(store).groups@[gi].address == old(store).groups@[gi].address
                &&& final(store).groups@[gi].group.open_invites == open_invites
                &&& final(store).groups@[gi].group.admin == old(store).groups@[gi].group.admin
                &&& final(store).groups@[gi].group.members == old(store).groups@[gi].group.members
                &&& final(store).groups@[gi].group.creator == old(store).groups@[gi].group.creator
                &&& final(store).groups@[gi].group.name == old(store).groups@[gi].group.name
            })
        },
{
    let gi = match store.find_group(group) {
        None => {
            return Err(ErrorCode::InvitationMismatch);
        },
        Some(i) => i,
    };
    proof {
        store.lemma_group_index(group@, gi as int);
    }
    if !signer.same(&store.groups[gi].group.admin) {
        return Err(ErrorCode::WrongPrivileges);
    }
    let ghost old_store = *store;
    let mut ge = store.groups.remove(gi);
    ge.group.open_invites = open_invites;
    let ghost ge_new = ge;
    store.groups.insert(gi, ge);
    proof {
        let gs = store.groups@;
        assert(gs =~= old_store.groups@.update(gi as int, ge_new));
        assert forall|i: int| 0 <= i < store.invitations@.len() implies store.has_group(
            (#[trigger] store.invitations@[i]).invitation.group_key@,
        ) by {
            let a = store.invitations@[i].invitation.group_key@;
            let k = old_store.group_index_of(a);
            assert(old_store.has_group(a));
            assert(0 <= k < old_store.groups@.len() && old_store.groups@[k].address@ == a);
            assert(gs[k].address@ == a);
        }
        assert forall|i: int| 0 <= i < gs.len() implies has_invite(
            store.invitations@,
            (#[trigger] gs[i]).group.admin@,
            gs[i].address@,
        ) by {
            assert(has_invite(
                store.invitations@,
                old_store.groups@[i].group.admin@,
                old_store.groups@[i].address@,
            ));
        }
    }
    Ok(())
}

/// Which way `modify_name` decides: the admin check, then the name bounds.
pub open spec fn modify_name_outcome(
    store: GroupStore,
    signer: Seq<u8>,
    group: Seq<u8>,
    name_len: nat,
) -> Result<(), ErrorCode> {
    match modify_parameter_outcome(store, signer, group) {
        Err(e) => Err(e),
        Ok(()) => match check_len(name_len, 3, 64, true) {
            Some(e) => Err(e),
            None => Ok(()),
        },
    }
}

/// Rename the group at address `group`; the name is revalidated. Admin only.
pub fn modify_name(store: &mut GroupStore, signer: &Identity, group: &Identity, name: String) -> (r:
    Result<(), ErrorCode>)
    requires
        old(store).wf(),
        signer.wf(),
        group.wf(),
    ensures
        r == modify_name_outcome(*old(store), signer@, group@, name@.len()),
        r is Err ==> *final(store) == *old(store),
        r is Ok ==> {
            &&& final(store).wf()
            &&& final(store).program == old(store).program
            &&& final(store).invitations@ == old(store).invitations@
            &&& final(store).groups@.len() == old(store).groups@.len()
            &&& ({
                let gi = old(store).group_index_of(group@);
                &&& forall|j: int|
                    0 <= j < old(store).groups@.len() && j != gi ==> final(store).groups@[j] == old(
                        store,
                    ).groups@[j]
                &&& final(store).groups@[gi].address == old(store).groups@[gi].address
                &&& final(store).groups@[gi].group.name@ == name@
                &&& final(store).groups@[gi].group.admin == old(store).groups@[gi].group.admin
                &&& final(store).groups@[gi].group.members == old(store).groups@[gi].group.members
                &&& final(store).groups@[gi].group.creator == old(store).groups@[gi].group.creator
                &&& final(store).groups@[gi].group.open_invites == old(
                    store,
                ).groups@[gi].group.open_invites
            })
        },
{
    let gi = match store.find_group(group) {
        None => {
            return Err(ErrorCode::InvitationMismatch);
        },
        Some(i) => i,
    };
    proof {
        store.lemma_group_index(group@, gi as int);
    }
    if !signer.same(&store.groups[gi].group.admin) {
        return Err(ErrorCode::WrongPrivileges);
    }
    length_check(&name, 3, 64, true)?;
    let ghost old_store = *store;
    let mut ge = store.groups.remove(gi);
    ge.group.name = name;
    let ghost ge_new = ge;
    store.groups.insert(gi, ge);
    proof {
        let gs = store.groups@;
        assert(gs =~= old_store.groups@.update(gi as int, ge_new));
        assert forall|i: int| 0 <= i < store.invitations@.len() implies store.has_group(
            (#[trigger] store.invitations@[i]).invitation.group_key@,
        ) by {
            let a = store.invitations@[i].invitation.group_key@;
            let k = old_store.group_index_of(a);
            assert(old_store.has_group(a));
            assert(0 <= k < old_store.groups@.len() && old_store.groups@[k].address@ == a);
            assert(gs[k].address@ == a);
        }
        assert forall|i: int| 0 <= i < gs.len() implies has_invite(
            store.invitations@,
            (#[trigger] gs[i]).group.admin@,
            gs[i].address@,
        ) by {
            assert(has_invite(
                store.invitations@,
                old_store.groups@[i].group.admin@,
                old_store.groups@[i].address@,
            ));
        }
    }
    Ok(())
}

} // verus!
