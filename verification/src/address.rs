//! Deterministic address derivation. A record's address is computed from a
//! namespace tag and an ordered sequence of seed byte-strings, together with
//! a discriminator byte ("bump") chosen by trial so that the result falls
//! outside the space of addresses that have an associated private key. Every
//! operation that references an existing record re-derives its expected
//! address from the claimed seeds and rejects the operation on a mismatch.

use vstd::prelude::*;
use crate::ident::{copy_bytes, lemma_lex_gt_asymmetric, lemma_lex_gt_total, lex_gt, Identity};

verus! {

/// What the derivation search returns for a given seed tuple and program
/// identifier: a 32-byte address and its bump, or nothing in the
/// statistically improbable event that no bump works (also when the seeds
/// are too many or too long). The result is a pure function of its
/// arguments; its value is not axiomatized here.
pub uninterp spec fn derived_address(seeds: Seq<Seq<u8>>, program: Seq<u8>) -> Option<(Seq<u8>, u8)>;

/// The view of an executable derivation result.
pub open spec fn pda_view(r: Option<(Identity, u8)>) -> Option<(Seq<u8>, u8)> {
    match r {
        Some(p) => Some((p.0@, p.1)),
        None => None,
    }
}

/// Relies on `solana_program::pubkey::Pubkey::try_find_program_address`: the
/// bump search is a deterministic function of the seed byte-strings and the
/// program identifier alone (SHA-256 based), yields a 32-byte address, and
/// returns `None` rather than panicking when no bump is viable or the seeds
/// exceed the supported count or length.
#[verifier::external_body]
fn find_pda(seeds: &Vec<Vec<u8>>, program: &Identity) -> (r: Option<(Identity, u8)>)
    requires
        program.wf(),
    ensures
        pda_view(r) == derived_address(seeds.deep_view(), program@),
        r matches Some(p) ==> p.0.wf(),
{
    let seed_refs: Vec<&[u8]> = seeds.iter().map(|s| s.as_slice()).collect();
    let prog = solana_program::pubkey::Pubkey::new_from_array(
        program.bytes.as_slice().try_into().unwrap(),
    );
    solana_program::pubkey::Pubkey::try_find_program_address(&seed_refs, &prog)
        .map(|(a, b)| (Identity { bytes: a.to_bytes().to_vec() }, b))
}

/// Namespace tag of group records: the bytes of "groupchat".
pub open spec fn group_tag() -> Seq<u8> {
    seq![103u8, 114u8, 111u8, 117u8, 112u8, 99u8, 104u8, 97u8, 116u8]
}

/// Namespace tag of invitation records: the bytes of "invite".
pub open spec fn invite_tag() -> Seq<u8> {
    seq![105u8, 110u8, 118u8, 105u8, 116u8, 101u8]
}

/// Namespace tag of user profile records: the bytes of "user".
pub open spec fn user_tag() -> Seq<u8> {
    seq![117u8, 115u8, 101u8, 114u8]
}

/// Namespace tag of the delegation relayer record: the bytes of "relayer".
pub open spec fn relayer_tag() -> Seq<u8> {
    seq![114u8, 101u8, 108u8, 97u8, 121u8, 101u8, 114u8]
}

fn group_tag_bytes() -> (r: Vec<u8>)
    ensures
        r@ == group_tag(),
{
    let r: Vec<u8> = vec![103u8, 114u8, 111u8, 117u8, 112u8, 99u8, 104u8, 97u8, 116u8];
    proof {
        assert(r@ =~= group_tag());
    }
    r
}

fn invite_tag_bytes() -> (r: Vec<u8>)
    ensures
        r@ == invite_tag(),
{
    let r: Vec<u8> = vec![105u8, 110u8, 118u8, 105u8, 116u8, 101u8];
    proof {
        assert(r@ =~= invite_tag());
    }
    r
}

fn user_tag_bytes() -> (r: Vec<u8>)
    ensures
        r@ == user_tag(),
{
    let r: Vec<u8> = vec![117u8, 115u8, 101u8, 114u8];
    proof {
        assert(r@ =~= user_tag());
    }
    r
}

fn relayer_tag_bytes() -> (r: Vec<u8>)
    ensures
        r@ == relayer_tag(),
{
    let r: Vec<u8> = vec![114u8, 101u8, 108u8, 97u8, 121u8, 101u8, 114u8];
    proof {
        assert(r@ =~= relayer_tag());
    }
    r
}

/// Address of the friend request record of a pair already in canonical
/// order: the larger identity is seeded first.
pub open spec fn request_address(user1: Seq<u8>, user2: Seq<u8>, program: Seq<u8>) -> Option<
    (Seq<u8>, u8),
> {
    derived_address(seq![user1, user2], program)
}

/// Address of the one friend request record of the unordered pair {a, b}:
/// the pair is sorted so the lexicographically larger identity is seeded
/// first, which is what makes the address independent of who initiates.
pub open spec fn canonical_request_address(a: Seq<u8>, b: Seq<u8>, program: Seq<u8>) -> Option<
    (Seq<u8>, u8),
> {
    if lex_gt(a, b) {
        request_address(a, b, program)
    } else {
        request_address(b, a, program)
    }
}

/// Canonicalization is symmetric: for every identity pair, deriving the
/// request address from (a, b) and from (b, a) resolves to the same result.
pub proof fn lemma_pair_address_symmetric(a: Seq<u8>, b: Seq<u8>, program: Seq<u8>)
    requires
        a.len() == b.len(),
    ensures
        canonical_request_address(a, b, program) == canonical_request_address(b, a, program),
{
    lemma_lex_gt_asymmetric(a, b);
    if !lex_gt(a, b) && !lex_gt(b, a) {
        if a != b {
            lemma_lex_gt_total(a, b);
        }
        assert(seq![a, b] =~= seq![b, a]);
    }
}

/// Derive the friend request address of the unordered pair {a, b}.
pub fn friend_request_address(a: &Identity, b: &Identity, program: &Identity) -> (r: Option<
    (Identity, u8),
>)
    requires
        a.wf(),
        b.wf(),
        program.wf(),
    ensures
        pda_view(r) == canonical_request_address(a@, b@, program@),
        r matches Some(p) ==> p.0.wf(),
{
    let mut seeds: Vec<Vec<u8>> = Vec::new();
    if a.gt(b) {
        seeds.push(copy_bytes(&a.bytes));
        seeds.push(copy_bytes(&b.bytes));
        proof {
            assert(seeds.deep_view() =~~= seq![a@, b@]);
        }
    } else {
        seeds.push(copy_bytes(&b.bytes));
        seeds.push(copy_bytes(&a.bytes));
        proof {
            assert(seeds.deep_view() =~~= seq![b@, a@]);
        }
    }
    find_pda(&seeds, program)
}

/// Address of a group record, derived from its caller-supplied group hash.
pub open spec fn spec_group_address(group_hash: Seq<u8>, program: Seq<u8>) -> Option<(Seq<u8>, u8)> {
    derived_address(seq![group_hash, group_tag()], program)
}

/// Derive a group record's address from its 32-byte group hash.
pub fn group_address(group_hash: &Vec<u8>, program: &Identity) -> (r: Option<(Identity, u8)>)
    requires
        group_hash@.len() == 32,
        program.wf(),
    ensures
        pda_view(r) == spec_group_address(group_hash@, program@),
        r matches Some(p) ==> p.0.wf(),
{
    let mut seeds: Vec<Vec<u8>> = Vec::new();
    seeds.push(copy_bytes(group_hash));
    seeds.push(group_tag_bytes());
    proof {
        assert(seeds.deep_view() =~~= seq![group_hash@, group_tag()]);
    }
    find_pda(&seeds, program)
}

/// Address of the invitation record of (recipient, group): at most one
/// outstanding invitation per person per group.
pub open spec fn spec_invitation_address(
    recipient: Seq<u8>,
    group_key: Seq<u8>,
    program: Seq<u8>,
) -> Option<(Seq<u8>, u8)> {
    derived_address(seq![recipient, group_key, invite_tag()], program)
}

/// Derive the invitation record address of (recipient, group).
pub fn invitation_address(recipient: &Identity, group_key: &Identity, program: &Identity) -> (r:
    Option<(Identity, u8)>)
    requires
        recipient.wf(),
        group_key.wf(),
        program.wf(),
    ensures
        pda_view(r) == spec_invitation_address(recipient@, group_key@, program@),
        r matches Some(p) ==> p.0.wf(),
{
    let mut seeds: Vec<Vec<u8>> = Vec::new();
    seeds.push(copy_bytes(&recipient.bytes));
    seeds.push(copy_bytes(&group_key.bytes));
    seeds.push(invite_tag_bytes());
    proof {
        assert(seeds.deep_view() =~~= seq![recipient@, group_key@, invite_tag()]);
    }
    find_pda(&seeds, program)
}

/// Address of a user profile record, derived from its owner's identity.
pub open spec fn spec_user_address(signer: Seq<u8>, program: Seq<u8>) -> Option<(Seq<u8>, u8)> {
    derived_address(seq![signer, user_tag()], program)
}

/// Derive the user profile address of an identity.
pub fn user_address(signer: &Identity, program: &Identity) -> (r: Option<(Identity, u8)>)
    requires
        signer.wf(),
        program.wf(),
    ensures
        pda_view(r) == spec_user_address(signer@, program@),
        r matches Some(p) ==> p.0.wf(),
{
    let mut seeds: Vec<Vec<u8>> = Vec::new();
    seeds.push(copy_bytes(&signer.bytes));
    seeds.push(user_tag_bytes());
    proof {
        assert(seeds.deep_view() =~~= seq![signer@, user_tag()]);
    }
    find_pda(&seeds, program)
}

/// Address of the delegation subsystem's relayer record.
pub open spec fn spec_relayer_address(program: Seq<u8>) -> Option<(Seq<u8>, u8)> {
    derived_address(seq![relayer_tag()], program)
}

/// Derive the relayer record address of a program.
pub fn relayer_address(program: &Identity) -> (r: Option<(Identity, u8)>)
    requires
        program.wf(),
    ensures
        pda_view(r) == spec_relayer_address(program@),
        r matches Some(p) ==> p.0.wf(),
{
    let mut seeds: Vec<Vec<u8>> = Vec::new();
    seeds.push(relayer_tag_bytes());
    proof {
        assert(seeds.deep_view() =~~= seq![relayer_tag()]);
    }
    find_pda(&seeds, program)
}

} // verus!
