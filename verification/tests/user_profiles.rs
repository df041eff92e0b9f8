use relationship_ledger::errors::ErrorCode;
use relationship_ledger::users::{
    create, set_banner_image_hash, set_extra_one, set_extra_two, set_name, set_photo_hash,
    set_status,
};

fn hash64() -> String {
    "h".repeat(64)
}

#[test]
fn create_fills_mandatory_fields_and_clears_the_rest() {
    let u = create(String::from("alice"), hash64(), String::from("hello")).unwrap();
    assert_eq!(u.name, "alice");
    assert_eq!(u.photo_hash, hash64());
    assert_eq!(u.status, "hello");
    assert_eq!(u.banner_image_hash, "");
    assert_eq!(u.extra_1, "");
    assert_eq!(u.extra_2, "");
}

#[test]
fn create_validates_in_order() {
    let r = create(String::from("al"), hash64(), String::from("hello"));
    assert!(matches!(r, Err(ErrorCode::IncorrectField)));
    let r = create(String::from("alice"), "h".repeat(63), String::from("hello"));
    assert!(matches!(r, Err(ErrorCode::IncorrectField)));
    let r = create(String::from("alice"), hash64(), String::from("hi"));
    assert!(matches!(r, Err(ErrorCode::IncorrectField)));
}

#[test]
fn set_name_bounds() {
    let mut u = create(String::from("alice"), hash64(), String::from("hello")).unwrap();
    assert_eq!(set_name(&mut u, "n".repeat(33)), Err(ErrorCode::IncorrectField));
    assert_eq!(u.name, "alice");
    assert_eq!(set_name(&mut u, "n".repeat(32)), Ok(()));
    assert_eq!(u.name, "n".repeat(32));
}

#[test]
fn set_photo_hash_is_exactly_64() {
    let mut u = create(String::from("alice"), hash64(), String::from("hello")).unwrap();
    assert_eq!(
        set_photo_hash(&mut u, "p".repeat(65)),
        Err(ErrorCode::IncorrectField)
    );
    assert_eq!(set_photo_hash(&mut u, "p".repeat(64)), Ok(()));
    assert_eq!(u.photo_hash, "p".repeat(64));
}

#[test]
fn set_status_bounds() {
    let mut u = create(String::from("alice"), hash64(), String::from("hello")).unwrap();
    assert_eq!(set_status(&mut u, "s".repeat(129)), Err(ErrorCode::IncorrectField));
    assert_eq!(set_status(&mut u, "s".repeat(128)), Ok(()));
}

#[test]
fn optional_fields_accept_empty() {
    let mut u = create(String::from("alice"), hash64(), String::from("hello")).unwrap();
    // The banner is absent or exactly 64 characters.
    assert_eq!(set_banner_image_hash(&mut u, String::new()), Ok(()));
    assert_eq!(
        set_banner_image_hash(&mut u, "b".repeat(63)),
        Err(ErrorCode::IncorrectField)
    );
    assert_eq!(set_banner_image_hash(&mut u, "b".repeat(64)), Ok(()));
    // The extra fields take anything up to 64 characters.
    assert_eq!(set_extra_one(&mut u, String::new()), Ok(()));
    assert_eq!(set_extra_one(&mut u, "e".repeat(64)), Ok(()));
    assert_eq!(set_extra_one(&mut u, "e".repeat(65)), Err(ErrorCode::IncorrectField));
    assert_eq!(set_extra_two(&mut u, "f".repeat(7)), Ok(()));
    assert_eq!(u.extra_2, "f".repeat(7));
}
