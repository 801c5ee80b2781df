//! The division of authorities into groups, one for each parachain.

use std::collections::HashMap;

use vstd::prelude::*;

use crate::error::Error;
use crate::primitives::{same_bytes, AuthorityId, Chain, DutyRoster, ParaId, SessionKey};

verus! {

/// Information about a specific group.
#[derive(Debug, Clone)]
pub struct GroupInfo {
    /// Authorities meant to check validity of candidates, each listed once.
    validity_guarantors: Vec<SessionKey>,
    /// Number of votes needed for validity.
    needed_validity: usize,
}

/// The number of votes that a group of `size` members needs: half of them, rounded up.
pub open spec fn votes_needed(size: nat) -> nat {
    size / 2 + size % 2
}

impl GroupInfo {
    /// The authorities meant to check validity of candidates.
    pub closed spec fn guarantors(self) -> Set<SessionKey> {
        self.validity_guarantors@.to_set()
    }

    /// The number of votes needed for validity.
    pub closed spec fn needed(self) -> nat {
        self.needed_validity as nat
    }

    /// No authority is listed twice, and the votes needed are those for a group of this size.
    pub closed spec fn wf(self) -> bool {
        &&& self.validity_guarantors@.no_duplicates()
        &&& self.needed_validity == votes_needed(self.validity_guarantors@.len())
    }

    /// A well-formed group is finite, and needs the votes of half its members, rounded up.
    proof fn lemma_wf(self)
        requires
            self.wf(),
        ensures
            self.guarantors().finite(),
            self.needed() == votes_needed(self.guarantors().len()),
    {
        self.validity_guarantors@.unique_seq_to_set();
    }

    /// The authorities meant to check validity of candidates, each listed once, in no particular
    /// order.
    pub fn validity_guarantors(&self) -> (keys: &Vec<SessionKey>)
        ensures
            keys@.to_set() == self.guarantors(),
            self.wf() ==> keys@.no_duplicates(),
    {
        &self.validity_guarantors
    }

    /// Number of votes needed for validity.
    pub fn needed_validity(&self) -> (votes: usize)
        ensures
            votes == self.needed(),
    {
        self.needed_validity
    }

    /// Make `authority` a member, if it is not one yet.
    fn assign(&mut self, authority: SessionKey)
        requires
            old(self).wf(),
        ensures
            final(self).wf(),
            final(self).guarantors() == old(self).guarantors().insert(authority),
    {
        let ghost before = self.validity_guarantors@;
        for i in 0..self.validity_guarantors.len()
            invariant
                self == old(self),
                before == self.validity_guarantors@,
                self.wf(),
                forall|j: int| 0 <= j < i ==> before[j] != authority,
        {
            if same_bytes(&self.validity_guarantors[i], &authority) {
                assert(before.to_set().insert(authority) =~= before.to_set());
                return;
            }
        }
        self.validity_guarantors.push(authority);
        assert(self.validity_guarantors@.to_set() =~= before.to_set().insert(authority)) by {
            let after = self.validity_guarantors@;
            assert forall|k: SessionKey| before.to_set().insert(authority).contains(k) implies
                after.to_set().contains(k) by {
                if k == authority {
                    assert(after[before.len() as int] == k);
                } else {
                    let i = choose|i: int| 0 <= i < before.len() && before[i] == k;
                    assert(after[i] == k);
                }
            }
        }
        let validity_len = self.validity_guarantors.len();
        self.needed_validity = validity_len / 2 + validity_len % 2;
    }
}

impl Default for GroupInfo {
    fn default() -> (group: Self)
        ensures
            group.wf(),
            group.guarantors() == Set::<SessionKey>::empty(),
            group.needed() == 0,
    {
        let group = GroupInfo { validity_guarantors: Vec::new(), needed_validity: 0 };
        assert(group.guarantors() =~= Set::<SessionKey>::empty());
        group
    }
}

/// The local duty of a validator.
#[derive(Debug, PartialEq, Eq)]
pub struct LocalDuty {
    /// The chain that the validator is to check.
    pub validation: Chain,
}

/// Whether authority `i` is `authority` and is assigned to the parachain `id`.
pub open spec fn assigned(
    authorities: Seq<AuthorityId>,
    duties: Seq<Chain>,
    i: int,
    authority: AuthorityId,
    id: ParaId,
) -> bool {
    &&& 0 <= i < authorities.len()
    &&& authorities[i] == authority
    &&& duties[i] == Chain::Parachain(id)
}

/// Whether `authority` is in the group of the parachain `id`: some entry of the roster assigns
/// it there.
pub open spec fn in_group(
    authorities: Seq<AuthorityId>,
    duties: Seq<Chain>,
    authority: AuthorityId,
    id: ParaId,
) -> bool {
    exists|i: int| #[trigger] assigned(authorities, duties, i, authority, id)
}

/// Whether the parachain `id` has a group: some entry of the roster assigns an authority to it.
pub open spec fn has_group(
    authorities: Seq<AuthorityId>,
    duties: Seq<Chain>,
    id: ParaId,
) -> bool {
    exists|authority: AuthorityId| #[trigger] in_group(authorities, duties, authority, id)
}

/// Whether `groups` are the groups of a roster: one for each parachain that has an authority
/// assigned to it, made of all the authorities assigned there, with the votes needed for a
/// group of that size.
pub open spec fn are_groups(
    groups: Map<ParaId, GroupInfo>,
    authorities: Seq<AuthorityId>,
    duties: Seq<Chain>,
) -> bool {
    &&& forall|id: ParaId| #[trigger]
        groups.contains_key(id) <==> has_group(authorities, duties, id)
    &&& forall|id: ParaId| #[trigger]
        groups.contains_key(id) ==> {
            &&& groups[id].wf()
            &&& groups[id].guarantors().finite()
            &&& groups[id].needed() == votes_needed(groups[id].guarantors().len())
        }
    &&& forall|id: ParaId, authority: AuthorityId|
        groups.contains_key(id) ==> (#[trigger] groups[id].guarantors().contains(authority)
            <==> in_group(authorities, duties, authority, id))
}

/// Whether `i` is the last position of `authority` among the authorities.
pub open spec fn last_position(
    authorities: Seq<AuthorityId>,
    authority: AuthorityId,
    i: int,
) -> bool {
    &&& 0 <= i < authorities.len()
    &&& authorities[i] == authority
    &&& forall|j: int| i < j < authorities.len() ==> authorities[j] != authority
}

/// Whether `duty` is the duty of `local_id`: the one at its last position.
pub open spec fn is_local_duty(
    duty: Chain,
    authorities: Seq<AuthorityId>,
    duties: Seq<Chain>,
    local_id: AuthorityId,
) -> bool {
    exists|i: int| #[trigger] last_position(authorities, local_id, i) && duty == duties[i]
}

/// Compute group info out of a duty roster and a local authority set.
pub fn make_group_info(
    roster: DutyRoster,
    authorities: &[AuthorityId],
    local_id: AuthorityId,
) -> (res: Result<(HashMap<ParaId, GroupInfo>, LocalDuty), Error>)
    ensures
        match res {
            Ok((groups, local_duty)) => {
                &&& roster.validator_duty@.len() == authorities@.len()
                &&& authorities@.contains(local_id)
                &&& are_groups(groups@, authorities@, roster.validator_duty@)
                &&& is_local_duty(
                    local_duty.validation,
                    authorities@,
                    roster.validator_duty@,
                    local_id,
                )
            },
            Err(Error::InvalidDutyRosterLength { expected, got }) => {
                &&& expected == authorities@.len()
                &&& got == roster.validator_duty@.len()
                &&& expected != got
            },
            Err(Error::NotValidator(id)) => {
                &&& id == local_id
                &&& roster.validator_duty@.len() == authorities@.len()
                &&& !authorities@.contains(local_id)
            },
            Err(_) => false,
        },
{
    broadcast use vstd::std_specs::hash::group_hash_axioms;

    if roster.validator_duty.len() != authorities.len() {
        return Err(
            Error::InvalidDutyRosterLength {
                expected: authorities.len(),
                got: roster.validator_duty.len(),
            },
        );
    }
    let ghost duties = roster.validator_duty@;
    let mut local_validation: Option<Chain> = None;
    let mut map: HashMap<ParaId, GroupInfo> = HashMap::new();
    proof {
        lemma_no_groups(authorities@.take(0), duties);
        assert(map@ =~= Map::<ParaId, GroupInfo>::empty());
    }
    for i in 0..authorities.len()
        invariant
            duties == roster.validator_duty@,
            duties.len() == authorities@.len(),
            are_groups(map@, authorities@.take(i as int), duties),
            match local_validation {
                Some(duty) => is_local_duty(duty, authorities@.take(i as int), duties, local_id),
                None => !authorities@.take(i as int).contains(local_id),
            },
    {
        broadcast use vstd::std_specs::hash::group_hash_axioms;

        let authority = authorities[i];
        let duty = roster.validator_duty[i];
        let ghost seen = authorities@.take(i as int);
        let ghost seen_next = authorities@.take(i as int + 1);
        assert(seen_next =~= seen.push(authority));
        let ghost earlier = local_validation;
        if same_bytes(&authority, &local_id) {
            local_validation = Some(duty);
        }
        proof {
            lemma_local_duty_step(seen, duties, local_id, authority, earlier);
        }
        let ghost before = map@;
        match duty {
            Chain::Relay => {
                proof {
                    lemma_relay_step(before, seen, duties, authority);
                }
            },
            Chain::Parachain(id) => {
                let fresh = GroupInfo::default();
                let group = map.entry(id).or_insert(fresh);
                group.assign(authority);
                proof {
                    lemma_parachain_step(before, seen, duties, authority, id, map@);
                }
            },
        }
    }
    assert(authorities@.take(authorities@.len() as int) =~= authorities@);
    match local_validation {
        Some(validation) => {
            proof {
                let i = choose|i: int|
                    #[trigger] last_position(authorities@, local_id, i) && validation == duties[i];
                assert(authorities@[i] == local_id);
            }
            Ok((map, LocalDuty { validation }))
        },
        None => Err(Error::NotValidator(local_id)),
    }
}

proof fn lemma_no_groups(authorities: Seq<AuthorityId>, duties: Seq<Chain>)
    requires
        authorities.len() == 0,
    ensures
        are_groups(Map::empty(), authorities, duties),
{
    assert forall|id: ParaId| !has_group(authorities, duties, id) by {
        assert forall|authority: AuthorityId| !in_group(authorities, duties, authority, id) by {
            assert forall|i: int| !#[trigger] assigned(authorities, duties, i, authority, id) by {
            }
        }
    }
}

/// One more authority adds itself to the group of its duty, and changes no other membership.
proof fn lemma_membership_step(
    seen: Seq<AuthorityId>,
    duties: Seq<Chain>,
    next: AuthorityId,
    authority: AuthorityId,
    id: ParaId,
)
    ensures
        in_group(seen.push(next), duties, authority, id) <==> (in_group(
            seen,
            duties,
            authority,
            id,
        ) || (authority == next && duties[seen.len() as int] == Chain::Parachain(id))),
{
    let more = seen.push(next);
    if in_group(seen, duties, authority, id) {
        let i = choose|i: int| #[trigger] assigned(seen, duties, i, authority, id);
        assert(assigned(more, duties, i, authority, id));
    }
    if authority == next && duties[seen.len() as int] == Chain::Parachain(id) {
        assert(assigned(more, duties, seen.len() as int, authority, id));
    }
    if in_group(more, duties, authority, id) {
        let i = choose|i: int| #[trigger] assigned(more, duties, i, authority, id);
        if i < seen.len() {
            assert(assigned(seen, duties, i, authority, id));
        }
    }
}

proof fn lemma_relay_step(
    groups: Map<ParaId, GroupInfo>,
    seen: Seq<AuthorityId>,
    duties: Seq<Chain>,
    next: AuthorityId,
)
    requires
        are_groups(groups, seen, duties),
        duties[seen.len() as int] == Chain::Relay,
    ensures
        are_groups(groups, seen.push(next), duties),
{
    let more = seen.push(next);
    assert forall|authority: AuthorityId, id: ParaId| #[trigger]
        in_group(more, duties, authority, id) <==> in_group(seen, duties, authority, id) by {
        lemma_membership_step(seen, duties, next, authority, id);
    }
    assert forall|id: ParaId| #[trigger]
        has_group(more, duties, id) <==> has_group(seen, duties, id) by {
        if has_group(seen, duties, id) {
            let authority = choose|authority: AuthorityId| #[trigger]
                in_group(seen, duties, authority, id);
            assert(in_group(more, duties, authority, id));
        }
    }
}

proof fn lemma_parachain_step(
    before: Map<ParaId, GroupInfo>,
    seen: Seq<AuthorityId>,
    duties: Seq<Chain>,
    next: AuthorityId,
    id: ParaId,
    after: Map<ParaId, GroupInfo>,
)
    requires
        are_groups(before, seen, duties),
        duties[seen.len() as int] == Chain::Parachain(id),
        after == before.insert(id, after[id]),
        after[id].wf(),
        before.contains_key(id) ==> after[id].guarantors() == before[id].guarantors().insert(next),
        !before.contains_key(id) ==> after[id].guarantors() == Set::<SessionKey>::empty().insert(
            next,
        ),
    ensures
        are_groups(after, seen.push(next), duties),
{
    let more = seen.push(next);
    after[id].lemma_wf();
    assert forall|other: ParaId| #[trigger]
        after.contains_key(other) <==> has_group(more, duties, other) by {
        if other == id {
            lemma_membership_step(seen, duties, next, next, id);
            assert(in_group(more, duties, next, id));
        }
        if has_group(seen, duties, other) {
            let authority = choose|authority: AuthorityId| #[trigger]
                in_group(seen, duties, authority, other);
            lemma_membership_step(seen, duties, next, authority, other);
            assert(in_group(more, duties, authority, other));
        }
        if has_group(more, duties, other) && other != id {
            let authority = choose|authority: AuthorityId| #[trigger]
                in_group(more, duties, authority, other);
            lemma_membership_step(seen, duties, next, authority, other);
            assert(in_group(seen, duties, authority, other));
        }
        assert(before.contains_key(other) <==> has_group(seen, duties, other));
    }
    assert forall|other: ParaId, authority: AuthorityId| after.contains_key(other) implies (
    #[trigger] after[other].guarantors().contains(authority) <==> in_group(
        more,
        duties,
        authority,
        other,
    )) by {
        lemma_membership_step(seen, duties, next, authority, other);
        assert(before.contains_key(other) <==> has_group(seen, duties, other));
        if before.contains_key(other) {
            assert(before[other].guarantors().contains(authority) <==> in_group(
                seen,
                duties,
                authority,
                other,
            ));
        } else {
            assert(!in_group(seen, duties, authority, other));
        }
    }
}

proof fn lemma_local_duty_step(
    seen: Seq<AuthorityId>,
    duties: Seq<Chain>,
    local_id: AuthorityId,
    next: AuthorityId,
    earlier: Option<Chain>,
)
    requires
        match earlier {
            Some(duty) => is_local_duty(duty, seen, duties, local_id),
            None => !seen.contains(local_id),
        },
    ensures
        next == local_id ==> is_local_duty(
            duties[seen.len() as int],
            seen.push(next),
            duties,
            local_id,
        ),
        next != local_id ==> match earlier {
            Some(duty) => is_local_duty(duty, seen.push(next), duties, local_id),
            None => !seen.push(next).contains(local_id),
        },
{
    let more = seen.push(next);
    if next == local_id {
        assert(last_position(more, local_id, seen.len() as int));
    } else {
        match earlier {
            Some(duty) => {
                let i = choose|i: int|
                    #[trigger] last_position(seen, local_id, i) && duty == duties[i];
                assert(last_position(more, local_id, i));
            },
            None => {
                assert forall|i: int| 0 <= i < more.len() implies more[i] != local_id by {
                    if i < seen.len() {
                        assert(seen[i] == more[i]);
                    }
                }
            },
        }
    }
}

/// A validator that is assigned to a parachain is a member of that parachain's group.
pub proof fn lemma_local_duty_in_group(
    groups: Map<ParaId, GroupInfo>,
    authorities: Seq<AuthorityId>,
    duties: Seq<Chain>,
    local_id: AuthorityId,
    id: ParaId,
)
    requires
        are_groups(groups, authorities, duties),
        is_local_duty(Chain::Parachain(id), authorities, duties, local_id),
    ensures
        groups.contains_key(id),
        groups[id].guarantors().contains(local_id),
{
    let i = choose|i: int|
        #[trigger] last_position(authorities, local_id, i) && Chain::Parachain(id) == duties[i];
    assert(assigned(authorities, duties, i, local_id, id));
    assert(in_group(authorities, duties, local_id, id));
    assert(has_group(authorities, duties, id));
}

/// Every group has members, all of them authorities, and needs at least one vote and at most
/// all of them. The votes needed are the fewest that make up half of the group.
pub proof fn lemma_group_votes(
    groups: Map<ParaId, GroupInfo>,
    authorities: Seq<AuthorityId>,
    duties: Seq<Chain>,
    id: ParaId,
)
    requires
        are_groups(groups, authorities, duties),
        groups.contains_key(id),
    ensures
        groups[id].guarantors().finite(),
        forall|authority: AuthorityId|
            groups[id].guarantors().contains(authority) ==> authorities.contains(authority),
        1 <= groups[id].needed() <= groups[id].guarantors().len(),
        2 * groups[id].needed() >= groups[id].guarantors().len(),
        2 * (groups[id].needed() - 1) < groups[id].guarantors().len(),
{
    let group = groups[id];
    let authority = choose|authority: AuthorityId| #[trigger]
        in_group(authorities, duties, authority, id);
    assert(group.guarantors().contains(authority));
    assert(group.guarantors().len() > 0) by {
        if group.guarantors().len() == 0 {
            assert(group.guarantors() =~= Set::empty());
        }
    }
    assert forall|authority: AuthorityId|
        group.guarantors().contains(authority) implies authorities.contains(authority) by {
        assert(in_group(authorities, duties, authority, id));
        let i = choose|i: int| #[trigger] assigned(authorities, duties, i, authority, id);
        assert(authorities[i] == authority);
    }
}

/// Majority approval is enough: more than half of a group's votes are the votes needed.
pub proof fn lemma_majority_suffices(
    groups: Map<ParaId, GroupInfo>,
    authorities: Seq<AuthorityId>,
    duties: Seq<Chain>,
    id: ParaId,
    votes: nat,
)
    requires
        are_groups(groups, authorities, duties),
        groups.contains_key(id),
        2 * votes > groups[id].guarantors().len(),
    ensures
        votes >= groups[id].needed(),
{
    lemma_group_votes(groups, authorities, duties, id);
}

/// The groups depend on who is assigned where and on nothing else: rosters that make the same
/// assignments, in whatever order and however often, give groups of the same members with the
/// same number of votes.
pub proof fn lemma_groups_follow_assignments(
    a: Map<ParaId, GroupInfo>,
    a_authorities: Seq<AuthorityId>,
    a_duties: Seq<Chain>,
    b: Map<ParaId, GroupInfo>,
    b_authorities: Seq<AuthorityId>,
    b_duties: Seq<Chain>,
)
    requires
        are_groups(a, a_authorities, a_duties),
        are_groups(b, b_authorities, b_duties),
        forall|authority: AuthorityId, id: ParaId| #[trigger]
            in_group(a_authorities, a_duties, authority, id) <==> in_group(
                b_authorities,
                b_duties,
                authority,
                id,
            ),
    ensures
        a.dom() == b.dom(),
        forall|id: ParaId| #[trigger]
            a.contains_key(id) ==> a[id].guarantors() == b[id].guarantors() && a[id].needed()
                == b[id].needed(),
{
    assert forall|id: ParaId| #[trigger] a.contains_key(id) <==> b.contains_key(id) by {
        if has_group(a_authorities, a_duties, id) {
            let authority = choose|authority: AuthorityId| #[trigger]
                in_group(a_authorities, a_duties, authority, id);
            assert(in_group(b_authorities, b_duties, authority, id));
        }
        if has_group(b_authorities, b_duties, id) {
            let authority = choose|authority: AuthorityId| #[trigger]
                in_group(b_authorities, b_duties, authority, id);
            assert(in_group(a_authorities, a_duties, authority, id));
        }
        assert(a.contains_key(id) <==> has_group(a_authorities, a_duties, id));
        assert(b.contains_key(id) <==> has_group(b_authorities, b_duties, id));
    }
    assert(a.dom() =~= b.dom());
    assert forall|id: ParaId| #[trigger] a.contains_key(id) implies a[id].guarantors()
        == b[id].guarantors() && a[id].needed() == b[id].needed() by {
        assert(b.contains_key(id));
        assert forall|authority: AuthorityId| #[trigger]
            a[id].guarantors().contains(authority) <==> b[id].guarantors().contains(authority) by {
            assert(in_group(a_authorities, a_duties, authority, id) <==> in_group(
                b_authorities,
                b_duties,
                authority,
                id,
            ));
        }
        assert(a[id].guarantors() =~= b[id].guarantors());
    }
}

/// Every entry of a roster that names a parachain puts its authority into that parachain's
/// group; and whoever is in a group was put there by such an entry, so that there is no group
/// without one.
pub proof fn lemma_groups_are_the_assignments(
    groups: Map<ParaId, GroupInfo>,
    authorities: Seq<AuthorityId>,
    duties: Seq<Chain>,
)
    requires
        are_groups(groups, authorities, duties),
    ensures
        forall|i: int|
            #![trigger duties[i]]
            0 <= i < authorities.len() ==> (duties[i] matches Chain::Parachain(id)
                ==> groups.contains_key(id) && groups[id].guarantors().contains(authorities[i])),
        forall|id: ParaId, authority: AuthorityId|
            groups.contains_key(id) && #[trigger] groups[id].guarantors().contains(authority)
                ==> exists|i: int|
                0 <= i < authorities.len() && #[trigger] authorities[i] == authority && duties[i]
                    == Chain::Parachain(id),
        forall|id: ParaId| #[trigger]
            groups.contains_key(id) ==> exists|i: int|
                0 <= i < authorities.len() && #[trigger] duties[i] == Chain::Parachain(id),
{
    assert forall|i: int|
        #![trigger duties[i]]
        0 <= i < authorities.len() implies (duties[i] matches Chain::Parachain(id)
        ==> groups.contains_key(id) && groups[id].guarantors().contains(authorities[i])) by {
        if let Chain::Parachain(id) = duties[i] {
            assert(assigned(authorities, duties, i, authorities[i], id));
            assert(in_group(authorities, duties, authorities[i], id));
            assert(has_group(authorities, duties, id));
        }
    }
    assert forall|id: ParaId, authority: AuthorityId|
        groups.contains_key(id) && #[trigger] groups[id].guarantors().contains(
            authority,
        ) implies exists|i: int|
        0 <= i < authorities.len() && #[trigger] authorities[i] == authority && duties[i]
            == Chain::Parachain(id) by {
        assert(in_group(authorities, duties, authority, id));
        let i = choose|i: int| #[trigger] assigned(authorities, duties, i, authority, id);
        assert(authorities[i] == authority);
    }
    assert forall|id: ParaId| #[trigger] groups.contains_key(id) implies exists|i: int|
        0 <= i < authorities.len() && #[trigger] duties[i] == Chain::Parachain(id) by {
        let authority = choose|authority: AuthorityId| #[trigger]
            in_group(authorities, duties, authority, id);
        let i = choose|i: int| #[trigger] assigned(authorities, duties, i, authority, id);
        assert(duties[i] == Chain::Parachain(id));
    }
}

/// The local duty is the one that stands beside the local key where that occurs last.
pub proof fn lemma_local_duty_is_the_last(
    duty: Chain,
    authorities: Seq<AuthorityId>,
    duties: Seq<Chain>,
    local_id: AuthorityId,
    i: int,
)
    requires
        is_local_duty(duty, authorities, duties, local_id),
        0 <= i < authorities.len(),
        authorities[i] == local_id,
        forall|j: int| i < j < authorities.len() ==> authorities[j] != local_id,
    ensures
        duty == duties[i],
{
    let k = choose|k: int|
        #[trigger] last_position(authorities, local_id, k) && duty == duties[k];
    if i < k {
        assert(authorities[k] != local_id);
    } else if k < i {
        assert(authorities[i] != local_id);
    }
}

/// Who has a local duty is an authority.
pub proof fn lemma_local_duty_of_an_authority(
    duty: Chain,
    authorities: Seq<AuthorityId>,
    duties: Seq<Chain>,
    local_id: AuthorityId,
)
    requires
        is_local_duty(duty, authorities, duties, local_id),
    ensures
        exists|i: int|
            0 <= i < authorities.len() && #[trigger] authorities[i] == local_id && duty
                == duties[i],
{
    let k = choose|k: int|
        #[trigger] last_position(authorities, local_id, k) && duty == duties[k];
    assert(authorities[k] == local_id);
}

} // verus!
