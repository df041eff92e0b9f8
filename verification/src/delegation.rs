//! Authorization checks of the token-delegation subsystem: the pass-through
//! that hands control of an external asset record to the relayer authority
//! and back. The invocation of the external token service itself lives
//! outside the library; these are the decisions that gate it, taken on the
//! plain values read from the asset's metadata.

use vstd::prelude::*;
use crate::address::{relayer_address, spec_relayer_address};
use crate::errors::ErrorCode;
use crate::ident::Identity;

verus! {

/// A single sticker: the URI of its asset.
pub struct Sticker {
    pub uri: String,
}

/// The relayer record: an empty marker whose derived address is the
/// delegation authority that staked assets are handed to.
pub struct Relayer {}

/// The creator list as a sequence, when the metadata carries one.
pub open spec fn creators_view(creators: &Option<Vec<Identity>>) -> Option<Seq<Identity>> {
    match *creators {
        Some(cs) => Some(cs@),
        None => None,
    }
}

/// The relayer appears in a creator list.
pub open spec fn lists_relayer(cs: Seq<Identity>, relayer: Seq<u8>) -> bool {
    exists|i: int| 0 <= i < cs.len() && (#[trigger] cs[i])@ == relayer
}

/// Which way the stake authorization decides: the update authority must have
/// signed and match the metadata's, the metadata must belong to the mint,
/// the asset must be a master edition, and -- when the metadata lists
/// creators -- the relayer must be among them.
pub open spec fn stake_outcome(
    update_authority_is_signer: bool,
    update_authority: Seq<u8>,
    metadata_update_authority: Seq<u8>,
    metadata_mint: Seq<u8>,
    mint: Seq<u8>,
    is_master_edition_v2: bool,
    creators: Option<Seq<Identity>>,
    relayer: Seq<u8>,
) -> Result<(), ErrorCode> {
    if !update_authority_is_signer || metadata_update_authority != update_authority {
        Err(ErrorCode::MissingRequiredSignature)
    } else if metadata_mint != mint {
        Err(ErrorCode::MetadataMismatch)
    } else if !is_master_edition_v2 {
        Err(ErrorCode::WrongEdition)
    } else {
        match creators {
            Some(cs) => if lists_relayer(cs, relayer) {
                Ok(())
            } else {
                Err(ErrorCode::SatelliteMustListAmongCreators)
            },
            None => Ok(()),
        }
    }
}

/// Decide whether a master edition may be staked with the relayer.
pub fn stake_master_edition_checks(
    update_authority_is_signer: bool,
    update_authority: &Identity,
    metadata_update_authority: &Identity,
    metadata_mint: &Identity,
    mint: &Identity,
    is_master_edition_v2: bool,
    creators: &Option<Vec<Identity>>,
    relayer: &Identity,
) -> (r: Result<(), ErrorCode>)
    ensures
        r == stake_outcome(
            update_authority_is_signer,
            update_authority@,
            metadata_update_authority@,
            metadata_mint@,
            mint@,
            is_master_edition_v2,
            creators_view(creators),
            relayer@,
        ),
{
    if !update_authority_is_signer || !metadata_update_authority.same(update_authority) {
        return Err(ErrorCode::MissingRequiredSignature);
    }
    if !metadata_mint.same(mint) {
        return Err(ErrorCode::MetadataMismatch);
    }
    if !is_master_edition_v2 {
        return Err(ErrorCode::WrongEdition);
    }
    match creators {
        Some(cs) => {
            proof {
                assert(creators_view(creators) == Some(cs@));
            }
            let n = cs.len();
            let mut i: usize = 0;
            let mut found = false;
            while i < n
                invariant
                    n == cs@.len(),
                    i <= n,
                    found == exists|j: int| 0 <= j < i && (#[trigger] cs@[j])@ == relayer@,
                decreases n - i,
            {
                if cs[i].same(relayer) {
                    found = true;
                }
                i += 1;
            }
            proof {
                assert(found == lists_relayer(cs@, relayer@));
            }
            if !found {
                return Err(ErrorCode::SatelliteMustListAmongCreators);
            }
            Ok(())
        },
        None => Ok(()),
    }
}

/// Which way the unstake authorization decides: the signature, mint and
/// edition checks of staking, then the claimed relayer must be the derived
/// delegation authority.
pub open spec fn unstake_outcome(
    update_authority_is_signer: bool,
    update_authority: Seq<u8>,
    metadata_update_authority: Seq<u8>,
    metadata_mint: Seq<u8>,
    mint: Seq<u8>,
    is_master_edition_v2: bool,
    program: Seq<u8>,
    relayer: Seq<u8>,
) -> Result<u8, ErrorCode> {
    if !update_authority_is_signer || metadata_update_authority != update_authority {
        Err(ErrorCode::MissingRequiredSignature)
    } else if metadata_mint != mint {
        Err(ErrorCode::MetadataMismatch)
    } else if !is_master_edition_v2 {
        Err(ErrorCode::WrongEdition)
    } else {
        match spec_relayer_address(program) {
            None => Err(ErrorCode::InputError),
            Some(p) => if p.0 != relayer {
                Err(ErrorCode::OwnerMismatch)
            } else {
                Ok(p.1)
            },
        }
    }
}

/// Decide whether a staked master edition may be handed back, returning the
/// relayer's bump seed for the signed invocation.
pub fn unstake_master_edition_checks(
    update_authority_is_signer: bool,
    update_authority: &Identity,
    metadata_update_authority: &Identity,
    metadata_mint: &Identity,
    mint: &Identity,
    is_master_edition_v2: bool,
    program: &Identity,
    relayer: &Identity,
) -> (r: Result<u8, ErrorCode>)
    requires
        program.wf(),
    ensures
        r == unstake_outcome(
            update_authority_is_signer,
            update_authority@,
            metadata_update_authority@,
            metadata_mint@,
            mint@,
            is_master_edition_v2,
            program@,
            relayer@,
        ),
{
    if !update_authority_is_signer || !metadata_update_authority.same(update_authority) {
        return Err(ErrorCode::MissingRequiredSignature);
    }
    if !metadata_mint.same(mint) {
        return Err(ErrorCode::MetadataMismatch);
    }
    if !is_master_edition_v2 {
        return Err(ErrorCode::WrongEdition);
    }
    match relayer_address(program) {
        None => Err(ErrorCode::InputError),
        Some(p) => {
            if !p.0.same(relayer) {
                return Err(ErrorCode::OwnerMismatch);
            }
            Ok(p.1)
        },
    }
}

/// Which way minting a new edition decides: only the relayer check.
pub open spec fn mint_new_edition_outcome(program: Seq<u8>, relayer: Seq<u8>) -> Result<
    u8,
    ErrorCode,
> {
    match spec_relayer_address(program) {
        None => Err(ErrorCode::InputError),
        Some(p) => if p.0 != relayer {
            Err(ErrorCode::OwnerMismatch)
        } else {
            Ok(p.1)
        },
    }
}

/// Decide whether a new edition may be minted under the relayer's
/// authority, returning the relayer's bump seed for the signed invocation.
pub fn mint_new_edition_checks(program: &Identity, relayer: &Identity) -> (r: Result<u8, ErrorCode>)
    requires
        program.wf(),
    ensures
        r == mint_new_edition_outcome(program@, relayer@),
{
    match relayer_address(program) {
        None => Err(ErrorCode::InputError),
        Some(p) => {
            if !p.0.same(relayer) {
                return Err(ErrorCode::OwnerMismatch);
            }
            Ok(p.1)
        },
    }
}

} // verus!
