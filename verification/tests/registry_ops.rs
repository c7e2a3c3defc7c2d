use key_registry::registry::KeyError;
use key_registry::registry::Registry;

fn key(b: u8) -> [u8; 32] {
    [b; 32]
}

#[test]
fn register_length_too_short_fails() {
    let mut r = Registry::new();
    assert_eq!(
        r.register_username("ab", key(7), key(1), 100, 0),
        Err(KeyError::InvalidUsernameLength)
    );
    assert!(r.lookup_username("ab").is_none());
}

#[test]
fn register_length_too_long_fails() {
    let mut r = Registry::new();
    let long = "abcdefghijklmnopqrstu"; // 21 characters
    assert_eq!(
        r.register_username(long, key(7), key(1), 100, 0),
        Err(KeyError::InvalidUsernameLength)
    );
    assert!(r.lookup_username(long).is_none());
}

#[test]
fn register_empty_username_fails() {
    let mut r = Registry::new();
    assert_eq!(
        r.register_username("", key(7), key(1), 100, 0),
        Err(KeyError::InvalidUsernameLength)
    );
}

#[test]
fn register_boundary_lengths_succeed() {
    let mut r = Registry::new();
    assert_eq!(r.register_username("abc", key(7), key(1), 100, 0), Ok(()));
    let twenty = "abcdefghij0123456789"; // 20 characters
    assert_eq!(r.register_username(twenty, key(7), key(1), 100, 0), Ok(()));
    assert!(r.lookup_username("abc").is_some());
    assert!(r.lookup_username(twenty).is_some());
}

#[test]
fn register_invalid_characters_fail() {
    let mut r = Registry::new();
    for bad in ["has space", "name!", "dot.name", "dash-name", "caf\u{e9}ok"] {
        assert_eq!(
            r.register_username(bad, key(7), key(1), 100, 0),
            Err(KeyError::InvalidUsernameCharacters),
            "expected character failure for {bad:?}"
        );
    }
}

#[test]
fn length_is_checked_before_characters() {
    let mut r = Registry::new();
    // Two characters, one of them inadmissible: the length failure wins.
    assert_eq!(
        r.register_username("a!", key(7), key(1), 100, 0),
        Err(KeyError::InvalidUsernameLength)
    );
}

#[test]
fn case_variants_share_one_slot() {
    let mut r = Registry::new();
    assert_eq!(r.register_username("alice_1", key(7), key(1), 100, 0), Ok(()));
    assert_eq!(
        r.register_username("ALICE_1", key(8), key(2), 200, 0),
        Err(KeyError::UsernameTaken)
    );
    assert_eq!(
        r.register_username("Alice_1", key(8), key(2), 200, 0),
        Err(KeyError::UsernameTaken)
    );
    // The original record is untouched.
    let account = r.lookup_username("alice_1").unwrap();
    assert_eq!(account.owner, key(1));
    assert_eq!(account.encryption_key, key(7));
    assert_eq!(account.created_at, 100);
}

#[test]
fn repeated_failed_register_fails_identically() {
    let mut r = Registry::new();
    for _ in 0..3 {
        assert_eq!(
            r.register_username("ab", key(7), key(1), 100, 0),
            Err(KeyError::InvalidUsernameLength)
        );
        assert_eq!(
            r.register_username("bad name", key(7), key(1), 100, 0),
            Err(KeyError::InvalidUsernameCharacters)
        );
    }
    // No hidden state accumulated: a valid registration still works.
    assert_eq!(r.register_username("fine_name", key(7), key(1), 100, 0), Ok(()));
    for _ in 0..3 {
        assert_eq!(
            r.register_username("fine_name", key(8), key(2), 200, 0),
            Err(KeyError::UsernameTaken)
        );
    }
}

#[test]
fn mutations_by_non_owner_fail_and_change_nothing() {
    let owner = key(1);
    let stranger = key(2);
    let mut r = Registry::new();
    assert_eq!(r.register_username("carol_9", key(7), owner, 100, 3), Ok(()));

    assert_eq!(
        r.transfer_username("carol_9", key(5), stranger),
        Err(KeyError::NotOwner)
    );
    assert_eq!(
        r.update_encryption_key("carol_9", key(6), stranger),
        Err(KeyError::NotOwner)
    );
    assert_eq!(r.close_account("carol_9", stranger), Err(KeyError::NotOwner));

    let account = r.lookup_username("carol_9").unwrap();
    assert_eq!(account.owner, owner);
    assert_eq!(account.encryption_key, key(7));
    assert_eq!(account.created_at, 100);
    assert_eq!(account.bump, 3);
    assert_eq!(account.username, "carol_9");
}

#[test]
fn mutations_on_empty_slot_fail_with_not_found() {
    let mut r = Registry::new();
    assert_eq!(
        r.transfer_username("nobody_here", key(5), key(1)),
        Err(KeyError::NotFound)
    );
    assert_eq!(
        r.update_encryption_key("nobody_here", key(6), key(1)),
        Err(KeyError::NotFound)
    );
    assert_eq!(r.close_account("nobody_here", key(1)), Err(KeyError::NotFound));
}

#[test]
fn lookup_round_trip_is_case_insensitive() {
    let mut r = Registry::new();
    assert_eq!(r.register_username("alice_1", key(7), key(1), 100, 0), Ok(()));
    for name in ["Alice_1", "ALICE_1", "alice_1", "aLiCe_1"] {
        let account = r.lookup_username(name).unwrap();
        assert_eq!(account.username, "alice_1");
        assert_eq!(account.encryption_key, key(7));
    }
    assert!(r.lookup_username("alice_2").is_none());
}

#[test]
fn registered_username_is_stored_lower_cased() {
    let mut r = Registry::new();
    assert_eq!(r.register_username("MiXeD_99", key(7), key(1), 100, 0), Ok(()));
    let account = r.lookup_username("mixed_99").unwrap();
    assert_eq!(account.username, "mixed_99");
}

#[test]
fn transfer_changes_owner_and_nothing_else() {
    let old_owner = key(1);
    let new_owner = key(2);
    let mut r = Registry::new();
    assert_eq!(r.register_username("dave_42", key(7), old_owner, 100, 5), Ok(()));
    assert_eq!(r.transfer_username("dave_42", new_owner, old_owner), Ok(()));

    let account = r.lookup_username("dave_42").unwrap();
    assert_eq!(account.owner, new_owner);
    assert_eq!(account.username, "dave_42");
    assert_eq!(account.created_at, 100);
    assert_eq!(account.bump, 5);
    assert_eq!(account.encryption_key, key(7));

    // The old owner lost control with the transfer.
    assert_eq!(
        r.transfer_username("dave_42", key(3), old_owner),
        Err(KeyError::NotOwner)
    );
    assert_eq!(r.transfer_username("dave_42", key(3), new_owner), Ok(()));
}

#[test]
fn close_frees_the_slot_for_a_new_owner() {
    let first_owner = key(1);
    let second_owner = key(2);
    let mut r = Registry::new();
    assert_eq!(r.register_username("bob", key(7), first_owner, 100, 0), Ok(()));
    assert_eq!(r.close_account("bob", first_owner), Ok(()));
    assert!(r.lookup_username("bob").is_none());
    assert_eq!(r.close_account("bob", first_owner), Err(KeyError::NotFound));

    assert_eq!(r.register_username("bob", key(9), second_owner, 250, 0), Ok(()));
    let account = r.lookup_username("bob").unwrap();
    assert_eq!(account.owner, second_owner);
    assert_eq!(account.created_at, 250);
    assert_eq!(account.encryption_key, key(9));
    assert_ne!(account.owner, first_owner);
}

#[test]
fn register_update_lookup_scenario() {
    let owner = key(1);
    let mut r = Registry::new();
    assert_eq!(
        r.register_username("ab", key(7), owner, 100, 0),
        Err(KeyError::InvalidUsernameLength)
    );
    assert_eq!(r.register_username("valid_name", key(7), owner, 100, 0), Ok(()));
    assert_eq!(r.lookup_username("valid_name").unwrap().username, "valid_name");
    assert_eq!(
        r.register_username("VALID_NAME", key(8), key(2), 200, 0),
        Err(KeyError::UsernameTaken)
    );
    assert_eq!(r.update_encryption_key("valid_name", key(3), owner), Ok(()));
    assert_eq!(r.lookup_username("valid_name").unwrap().encryption_key, key(3));
}

#[test]
fn distinct_names_live_side_by_side() {
    let mut r = Registry::new();
    assert_eq!(r.register_username("user_one", key(11), key(1), 10, 0), Ok(()));
    assert_eq!(r.register_username("user_two", key(12), key(2), 20, 0), Ok(()));
    assert_eq!(r.register_username("user_three", key(13), key(3), 30, 0), Ok(()));

    assert_eq!(r.close_account("user_two", key(2)), Ok(()));
    assert!(r.lookup_username("user_two").is_none());

    let one = r.lookup_username("User_One").unwrap();
    assert_eq!(one.encryption_key, key(11));
    let three = r.lookup_username("USER_THREE").unwrap();
    assert_eq!(three.encryption_key, key(13));
}

#[test]
fn underscores_and_digits_are_admissible() {
    let mut r = Registry::new();
    assert_eq!(r.register_username("___", key(7), key(1), 100, 0), Ok(()));
    assert_eq!(r.register_username("12345", key(7), key(1), 100, 0), Ok(()));
    assert_eq!(r.lookup_username("___").unwrap().username, "___");
}

#[test]
fn error_messages_match_the_failure() {
    assert_eq!(
        KeyError::InvalidUsernameLength.message(),
        "Username must be 3-20 characters"
    );
    assert_eq!(
        KeyError::InvalidUsernameCharacters.message(),
        "Username can only contain letters, numbers, and underscores"
    );
    assert_eq!(KeyError::UsernameTaken.message(), "Username already taken");
    assert_eq!(
        KeyError::NotOwner.message(),
        "Only the owner can perform this action"
    );
    assert_eq!(
        KeyError::NotFound.message(),
        "No record exists for this username"
    );
}
