use relationship_ledger::address::relayer_address;
use relationship_ledger::delegation::{
    mint_new_edition_checks, stake_master_edition_checks, unstake_master_edition_checks,
};
use relationship_ledger::errors::ErrorCode;
use relationship_ledger::ident::Identity;

fn id(b: u8) -> Identity {
    Identity { bytes: vec![b; 32] }
}

fn program() -> Identity {
    Identity { bytes: (100u8..132u8).collect() }
}

#[test]
fn stake_requires_the_update_authority_signature() {
    let r = stake_master_edition_checks(false, &id(1), &id(1), &id(2), &id(2), true, &None, &id(3));
    assert_eq!(r, Err(ErrorCode::MissingRequiredSignature));
    let r = stake_master_edition_checks(true, &id(1), &id(9), &id(2), &id(2), true, &None, &id(3));
    assert_eq!(r, Err(ErrorCode::MissingRequiredSignature));
}

#[test]
fn stake_requires_matching_mint_and_master_edition() {
    let r = stake_master_edition_checks(true, &id(1), &id(1), &id(2), &id(8), true, &None, &id(3));
    assert_eq!(r, Err(ErrorCode::MetadataMismatch));
    let r = stake_master_edition_checks(true, &id(1), &id(1), &id(2), &id(2), false, &None, &id(3));
    assert_eq!(r, Err(ErrorCode::WrongEdition));
}

#[test]
fn stake_requires_relayer_among_creators_when_listed() {
    let creators = Some(vec![id(4), id(5)]);
    let r =
        stake_master_edition_checks(true, &id(1), &id(1), &id(2), &id(2), true, &creators, &id(3));
    assert_eq!(r, Err(ErrorCode::SatelliteMustListAmongCreators));
    let creators = Some(vec![id(4), id(3)]);
    let r =
        stake_master_edition_checks(true, &id(1), &id(1), &id(2), &id(2), true, &creators, &id(3));
    assert_eq!(r, Ok(()));
    // Metadata without a creator list passes the creator check.
    let r = stake_master_edition_checks(true, &id(1), &id(1), &id(2), &id(2), true, &None, &id(3));
    assert_eq!(r, Ok(()));
}

#[test]
fn unstake_requires_the_derived_relayer() {
    let p = program();
    let r = unstake_master_edition_checks(true, &id(1), &id(1), &id(2), &id(2), true, &p, &id(3));
    assert_eq!(r, Err(ErrorCode::OwnerMismatch));
    let (relayer, bump) = relayer_address(&p).unwrap();
    let r = unstake_master_edition_checks(true, &id(1), &id(1), &id(2), &id(2), true, &p, &relayer);
    assert_eq!(r, Ok(bump));
}

#[test]
fn mint_new_edition_requires_the_derived_relayer() {
    let p = program();
    let r = mint_new_edition_checks(&p, &id(3));
    assert_eq!(r, Err(ErrorCode::OwnerMismatch));
    let (relayer, bump) = relayer_address(&p).unwrap();
    let r = mint_new_edition_checks(&p, &relayer);
    assert_eq!(r, Ok(bump));
}
