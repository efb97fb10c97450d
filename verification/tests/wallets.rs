use wallet_ledger::blockchain::BlockChain;
use wallet_ledger::credential::{credential_verdict, has_legacy_shape, CredentialError};
use wallet_ledger::hasher::digest_hex;
use wallet_ledger::ledger::{transfer_event, update_blockchain};
use wallet_ledger::phc::{can_be_checked, has_salt, MAX_PARALLELISM, SALT_FIELD};
use wallet_ledger::wallet::{
    hash_password, hash_password_with_salt, transfer, TransactionRecord, TransferError, Wallet,
    INITIAL_BALANCE,
};

const PW_DIGEST: &str = "30c952fab122c3f9759f02a6d95c3758b246b4fee239957b2d4fee46e26170c4";

fn wallet(name: &str, credential: &str, balance: u64) -> Wallet {
    Wallet {
        username: String::from(name),
        password_hash: String::from(credential),
        balance,
        transactions: Vec::new(),
    }
}

#[test]
fn file_names_and_address() {
    assert_eq!(Wallet::filename("alice"), "alice_wallet.json");
    assert_eq!(Wallet::filename(""), "_wallet.json");
    let w = wallet("alice", "", 0);
    assert_eq!(w.get_address(), "wallet_alice");
    assert_eq!(w.qr_filename(), "alice_address_qr.png");
}

#[test]
fn legacy_credential_verifies() {
    let old = wallet("old", PW_DIGEST, 100);
    assert!(old.verify_password("pw"));
    assert!(!old.verify_password("wrong"));
    assert!(!old.verify_password(""));
}

#[test]
fn legacy_credential_of_any_secret_verifies() {
    for secret in ["", "a", "correct horse battery staple", "pässwörd"] {
        let w = wallet("u", &digest_hex(secret), 0);
        assert!(w.verify_password(secret));
        assert!(!w.verify_password("something else"));
    }
}

#[test]
fn legacy_credential_in_upper_case_matches_nothing() {
    let w = wallet("old", &PW_DIGEST.to_uppercase(), 100);
    assert!(has_legacy_shape(&w.password_hash));
    assert!(!w.verify_password("pw"));
}

#[test]
fn hashed_password_verifies() {
    let encoded = hash_password("s3cret").expect("hashing");
    assert!(encoded.starts_with("$argon2id$"));
    assert_ne!(encoded, "s3cret");
    assert!(!has_legacy_shape(&encoded));
    let w = wallet("new", &encoded, 100);
    assert!(w.verify_password("s3cret"));
    assert!(!w.verify_password("s3cret "));
    assert!(!w.verify_password(""));
}

#[test]
fn every_hash_has_its_own_salt() {
    let first = hash_password("same").expect("hashing");
    let second = hash_password("same").expect("hashing");
    assert_ne!(first, second);
    assert!(wallet("a", &first, 0).verify_password("same"));
    assert!(wallet("a", &second, 0).verify_password("same"));
}

#[test]
fn unreadable_credential_accepts_nothing() {
    for stored in ["", "garbage", "$", "$argon2id$", "0123", &PW_DIGEST[..63]] {
        let w = wallet("u", stored, 0);
        assert!(!w.verify_password("pw"));
        assert!(!w.verify_password(stored));
    }
}

#[test]
fn legacy_shape_is_sixty_four_hex_digits() {
    assert!(has_legacy_shape(PW_DIGEST));
    assert!(has_legacy_shape(&"0".repeat(64)));
    assert!(has_legacy_shape(&"aBcDeF0123456789".repeat(4)));
    assert!(!has_legacy_shape(""));
    assert!(!has_legacy_shape(&"0".repeat(63)));
    assert!(!has_legacy_shape(&"0".repeat(65)));
    assert!(!has_legacy_shape(&format!("{}g", "0".repeat(63))));
    assert!(!has_legacy_shape(&format!("{}$", "0".repeat(63))));
    // 64 bytes, but not 64 characters.
    assert!(!has_legacy_shape(&format!("{}é", "0".repeat(62))));
    // 64 characters, but not all of them ASCII.
    assert!(!has_legacy_shape(&format!("{}é", "0".repeat(63))));
}

#[test]
fn verdict_follows_the_shape_first() {
    let other = "f".repeat(64);
    // Legacy shape: the digest decides, whatever the other check said.
    assert!(credential_verdict(PW_DIGEST, PW_DIGEST, None));
    assert!(credential_verdict(PW_DIGEST, PW_DIGEST, Some(false)));
    assert!(!credential_verdict(PW_DIGEST, &other, Some(true)));
    // Any other shape: the other check decides, where it gave an answer.
    assert!(credential_verdict("$argon2id$x", PW_DIGEST, Some(true)));
    assert!(!credential_verdict("$argon2id$x", PW_DIGEST, Some(false)));
    // No answer: compare with the digest once more.
    assert!(!credential_verdict("garbage", PW_DIGEST, None));
    assert!(credential_verdict("garbage", "garbage", None));
}

#[test]
fn new_account() {
    let w = Wallet::create("alice", "pw").expect("hashing");
    assert_eq!(w.username, "alice");
    assert_eq!(w.balance, 100);
    assert_eq!(INITIAL_BALANCE, 100);
    assert!(w.transactions.is_empty());
    assert!(w.password_hash.starts_with("$argon2id$"));
    assert!(w.verify_password("pw"));
    assert!(!w.verify_password("wrong"));
}

#[test]
fn account_with_a_given_credential() {
    let w = Wallet::with_credential("old", String::from(PW_DIGEST));
    assert_eq!(w.username, "old");
    assert_eq!(w.password_hash, PW_DIGEST);
    assert_eq!(w.balance, 100);
    assert!(w.transactions.is_empty());
    assert!(w.verify_password("pw"));
}

#[test]
fn outside_errors_get_the_library_names() {
    assert_eq!(
        CredentialError::from(argon2::password_hash::Error::Password),
        CredentialError::HashingFailed
    );
    assert_eq!(
        CredentialError::from(argon2::password_hash::Error::SaltInvalid(
            argon2::password_hash::errors::InvalidValue::TooShort
        )),
        CredentialError::HashingFailed
    );
    assert_eq!(
        CredentialError::from(argon2::password_hash::rand_core::Error::new("no entropy")),
        CredentialError::EntropyUnavailable
    );
}

#[test]
fn salted_hash_of_known_inputs() {
    let counting: [u8; 16] = [0, 1, 2, 3, 4, 5, 6, 7, 8, 9, 10, 11, 12, 13, 14, 15];
    assert_eq!(
        hash_password_with_salt("pw", &counting),
        Ok(String::from(
            "$argon2id$v=19$m=19456,t=2,p=1$AAECAwQFBgcICQoLDA0ODw$\
             s3x7dHZI++jF89++g/slNPznDK819on03NkMdfPelDE"
        ))
    );
    assert_eq!(
        hash_password_with_salt("pw", &[0u8; 16]),
        Ok(String::from(
            "$argon2id$v=19$m=19456,t=2,p=1$AAAAAAAAAAAAAAAAAAAAAA$\
             qu7YaNBUVdA7W90s0oDV3Q/BGYy/YVhx+BlWYiF8kZ8"
        ))
    );
    assert_eq!(
        hash_password_with_salt("pässwörd", &[255u8; 16]),
        Ok(String::from(
            "$argon2id$v=19$m=19456,t=2,p=1$/////////////////////w$\
             avSza/rL8tdFlnAQFeMLFEvLXcVFlJDgsWyu4cXPwyg"
        ))
    );
}

#[test]
fn salted_hash_depends_on_password_and_salt() {
    let salt = [7u8; 16];
    let other = [8u8; 16];
    let first = hash_password_with_salt("s3cret", &salt).expect("hashing");
    assert_eq!(hash_password_with_salt("s3cret", &salt), Ok(first.clone()));
    assert_ne!(hash_password_with_salt("s3cret", &other), Ok(first.clone()));
    assert_ne!(hash_password_with_salt("s3cret!", &salt), Ok(first.clone()));
    assert!(wallet("u", &first, 0).verify_password("s3cret"));
    assert!(!wallet("u", &first, 0).verify_password("s3cret!"));
}

#[test]
fn known_argon2_credential_verifies() {
    let stored = "$argon2id$v=19$m=19456,t=2,p=1$AAECAwQFBgcICQoLDA0ODw$\
                  I2si0d0KiERhhp6i5d5X2kYf/sm4NX7PEoaLbSatzjQ";
    let w = wallet("u", stored, 0);
    assert!(w.verify_password("s3cret"));
    assert!(!w.verify_password("pw"));
}

#[test]
fn transfer_moves_the_amount_and_records_it() {
    let mut alice = wallet("alice", "", 100);
    let mut bob = wallet("bob", "", 100);
    let done = transfer(&mut alice, &mut bob, 30, Some(String::from("lunch")), 1700000000);
    assert_eq!(done, Ok(()));
    assert_eq!(alice.balance, 70);
    assert_eq!(bob.balance, 130);
    assert_eq!(alice.transactions.len(), 1);
    assert_eq!(bob.transactions.len(), 1);
    assert_eq!(alice.transactions[0].description, "Sent 30 coins to bob");
    assert_eq!(bob.transactions[0].description, "Received 30 coins from alice");
    assert_eq!(alice.transactions[0].note.as_deref(), Some("lunch"));
    assert_eq!(bob.transactions[0].note.as_deref(), Some("lunch"));
    assert_eq!(alice.transactions[0].timestamp, 1700000000);
    assert_eq!(bob.transactions[0].timestamp, 1700000000);
    assert_eq!(alice.username, "alice");
    assert_eq!(bob.username, "bob");
}

#[test]
fn transfer_without_a_note_appends_to_the_history() {
    let mut alice = wallet("alice", "", 10);
    let mut bob = wallet("bob", "", 0);
    assert_eq!(transfer(&mut alice, &mut bob, 4, None, 1), Ok(()));
    assert_eq!(transfer(&mut bob, &mut alice, 1, None, 2), Ok(()));
    assert_eq!(alice.balance, 7);
    assert_eq!(bob.balance, 3);
    assert_eq!(alice.transactions.len(), 2);
    assert_eq!(alice.transactions[0].description, "Sent 4 coins to bob");
    assert_eq!(alice.transactions[1].description, "Received 1 coins from bob");
    assert_eq!(alice.transactions[1].note, None);
    assert_eq!(alice.transactions[1].timestamp, 2);
}

#[test]
fn transfer_of_the_whole_balance() {
    let mut alice = wallet("alice", "", 100);
    let mut bob = wallet("bob", "", 100);
    assert_eq!(transfer(&mut alice, &mut bob, 100, None, 0), Ok(()));
    assert_eq!(alice.balance, 0);
    assert_eq!(bob.balance, 200);
}

#[test]
fn overdrawn_transfer_is_refused_and_changes_nothing() {
    let mut alice = wallet("alice", "a", 100);
    let mut bob = wallet("bob", "b", 100);
    let done = transfer(&mut alice, &mut bob, 101, Some(String::from("too much")), 5);
    assert_eq!(done, Err(TransferError::InsufficientFunds));
    assert_eq!(alice.balance, 100);
    assert_eq!(bob.balance, 100);
    assert!(alice.transactions.is_empty());
    assert!(bob.transactions.is_empty());
    assert!(!alice.can_afford(101));
    assert!(alice.can_afford(100));
    assert!(alice.can_afford(0));
}

#[test]
fn transfer_that_the_receiver_cannot_hold_is_refused() {
    let mut alice = wallet("alice", "", 10);
    let mut bob = wallet("bob", "", u64::MAX - 5);
    assert_eq!(transfer(&mut alice, &mut bob, 6, None, 0), Err(TransferError::BalanceOverflow));
    assert_eq!(alice.balance, 10);
    assert_eq!(bob.balance, u64::MAX - 5);
    assert!(alice.transactions.is_empty());
    assert!(bob.transactions.is_empty());
    assert_eq!(transfer(&mut alice, &mut bob, 5, None, 0), Ok(()));
    assert_eq!(bob.balance, u64::MAX);
}

#[test]
fn history_lines() {
    let plain = TransactionRecord {
        description: String::from("Sent 30 coins to bob"),
        note: None,
        timestamp: 0,
    };
    assert_eq!(plain.history_line(), "- Sent 30 coins to bob");
    let noted = TransactionRecord {
        description: String::from("Received 30 coins from alice"),
        note: Some(String::from("lunch")),
        timestamp: 0,
    };
    assert_eq!(noted.history_line(), "- Received 30 coins from alice (Note: lunch)");
}

#[test]
fn alice_sends_thirty_to_bob() {
    let mut alice = Wallet::create("alice", "alice's password").expect("hashing");
    let mut bob = Wallet::create("bob", "bob's password").expect("hashing");
    assert_eq!(alice.balance, 100);
    assert_eq!(bob.balance, 100);
    let chain = BlockChain::new().expect("genesis");
    let before = chain.blocks.len();

    assert_eq!(transfer(&mut alice, &mut bob, 30, None, 1700000000), Ok(()));
    let event = transfer_event(30, &alice.username, &bob.username);
    let chain = update_blockchain(&chain, &event).expect("valid chain");

    assert_eq!(alice.balance, 70);
    assert_eq!(bob.balance, 130);
    assert_eq!(chain.blocks.len(), before + 1);
    assert!(chain.is_valid());
    assert_eq!(chain.blocks[1].data, "Sent 30 coins from 'alice' to 'bob'");
}

#[test]
fn record_clone_keeps_every_field() {
    let record = TransactionRecord {
        description: String::from("Sent 1 coins to bob"),
        note: Some(String::from("n")),
        timestamp: 9,
    };
    let copy = record.clone();
    assert_eq!(copy.description, record.description);
    assert_eq!(copy.note, record.note);
    assert_eq!(copy.timestamp, record.timestamp);
}

#[test]
fn encodings_that_the_library_makes_can_be_checked() {
    assert!(can_be_checked(
        "$argon2id$v=19$m=19456,t=2,p=1$AAECAwQFBgcICQoLDA0ODw$\
         s3x7dHZI++jF89++g/slNPznDK819on03NkMdfPelDE"
    ));
    let encoded = hash_password("pw").expect("hashing");
    assert!(can_be_checked(&encoded));
}

#[test]
fn parallelism_is_read_from_every_piece() {
    assert_eq!(MAX_PARALLELISM, 16_777_215);
    assert!(can_be_checked(""));
    assert!(can_be_checked("garbage"));
    assert!(can_be_checked("$argon2id$v=19$m=8,t=1$c2FsdHNhbHQ$aGFzaA"));
    assert!(can_be_checked("$argon2id$v=19$m=8,t=1,p=16777215$c2FsdHNhbHQ$aGFzaA"));
    assert!(!can_be_checked("$argon2id$v=19$m=8,t=1,p=16777216$c2FsdHNhbHQ$aGFzaA"));
    assert!(!can_be_checked("$argon2id$v=19$m=8,t=1,p=536870912$c2FsdHNhbHQ$aGFzaA"));
    assert!(!can_be_checked("$argon2id$v=19$m=8,t=1,p=99999999999999999999$c2FsdHNhbHQ$aGFzaA"));
    // First among the parameters, alone in its field, or named twice.
    assert!(!can_be_checked("$argon2id$v=19$p=536870912,m=8,t=1$c2FsdHNhbHQ$aGFzaA"));
    assert!(!can_be_checked("$argon2id$p=536870912$c2FsdHNhbHQ$aGFzaA"));
    assert!(!can_be_checked("$argon2id$v=19$m=8,p=1,p=536870912$c2FsdHNhbHQ$aGFzaA"));
    assert!(!can_be_checked("p=536870912"));
    // Leading zeros do not make a number larger.
    assert!(can_be_checked("$argon2id$v=19$m=8,t=1,p=000000000001$c2FsdHNhbHQ$aGFzaA"));
    assert!(can_be_checked("$argon2id$v=19$m=8,t=1,p=$c2FsdHNhbHQ$aGFzaA"));
    // A value that is no decimal number.
    assert!(!can_be_checked("$argon2id$v=19$m=8,t=1,p=1x$c2FsdHNhbHQ$aGFzaA"));
    assert!(!can_be_checked("$argon2id$v=19$m=8,t=1,p=-1$c2FsdHNhbHQ$aGFzaA"));
    // Only a piece that begins with the name counts.
    assert!(can_be_checked("$argon2id$v=19$m=8,t=1,xp=536870912$c2FsdHNhbHQ$aGFzaA"));
    assert!(can_be_checked("$argon2id$v=19$m=536870912,t=1,p=1$c2FsdHNhbHQ$aGFzaA"));
    // Not ASCII throughout.
    assert!(!can_be_checked("$argon2id$v=19$m=8,t=1,p=1$c2FsdHNhbHQ$aGFzaé"));
}

#[test]
fn credential_with_too_large_parallelism_accepts_nothing() {
    let stored = "$argon2id$v=19$m=8,t=1,p=536870912$AAAAAAAAAAAAAAAA$AAAAAAAAAAAAAAAAAAAAAA";
    let w = wallet("u", stored, 0);
    assert!(!w.verify_password("pw"));
    assert!(!w.verify_password(""));
    assert!(!w.verify_password(stored));
    let stored = "$argon2id$v=19$m=8,t=1,p=16777216$AAAAAAAAAAAAAAAA$AAAAAAAAAAAAAAAAAAAAAA";
    assert!(!wallet("u", stored, 0).verify_password("pw"));
}

#[test]
fn credential_with_the_largest_parallelism_is_handed_to_the_verifier() {
    // Argon2 wants at least 8 KiB for each lane, so it rejects this one.
    let stored = "$argon2id$v=19$m=8,t=1,p=16777215$AAAAAAAAAAAAAAAA$AAAAAAAAAAAAAAAAAAAAAA";
    assert!(can_be_checked(stored));
    assert!(!wallet("u", stored, 0).verify_password("pw"));
}

#[test]
fn credential_that_is_not_ascii_accepts_nothing() {
    let w = wallet("u", "$argon2id$v=19$m=8,t=1,p=1$c2FsdHNhbHQ$aGFzaé", 0);
    assert!(!w.verify_password("pw"));
}

#[test]
fn encodings_name_their_salt() {
    assert_eq!(SALT_FIELD, 4);
    let counting: [u8; 16] = [0, 1, 2, 3, 4, 5, 6, 7, 8, 9, 10, 11, 12, 13, 14, 15];
    let stored = "$argon2id$v=19$m=19456,t=2,p=1$AAECAwQFBgcICQoLDA0ODw$\
                  s3x7dHZI++jF89++g/slNPznDK819on03NkMdfPelDE";
    assert!(has_salt(stored, &counting));
    assert!(!has_salt(stored, &[0u8; 16]));
    let mut other = counting;
    other[15] = 16;
    assert!(!has_salt(stored, &other));

    let zeros = "$argon2id$v=19$m=19456,t=2,p=1$AAAAAAAAAAAAAAAAAAAAAA$\
                 qu7YaNBUVdA7W90s0oDV3Q/BGYy/YVhx+BlWYiF8kZ8";
    assert!(has_salt(zeros, &[0u8; 16]));
    let ones = "$argon2id$v=19$m=19456,t=2,p=1$/////////////////////w$\
                avSza/rL8tdFlnAQFeMLFEvLXcVFlJDgsWyu4cXPwyg";
    assert!(has_salt(ones, &[255u8; 16]));
    assert!(!has_salt(ones, &[254u8; 16]));
    // Every kind of Base64 character: digits, + and /, upper and lower case.
    let mixed: [u8; 16] = [211, 93, 183, 227, 158, 187, 243, 223, 191, 0, 16, 131, 105, 183, 29, 122];
    assert!(has_salt("$a$v=1$p=1$0123456789+/ABCDabcdeg$h", &mixed));
}

#[test]
fn salt_is_looked_for_in_its_own_field() {
    let salt = [0u8; 16];
    assert!(has_salt("$a$b$c$AAAAAAAAAAAAAAAAAAAAAA$h", &salt));
    assert!(has_salt("$a$b$c$AAAAAAAAAAAAAAAAAAAAAA", &salt));
    assert!(!has_salt("$a$b$AAAAAAAAAAAAAAAAAAAAAA$h", &salt));
    assert!(!has_salt("$a$b$c$d$AAAAAAAAAAAAAAAAAAAAAA", &salt));
    assert!(!has_salt("$a$b$c$AAAAAAAAAAAAAAAAAAAAA$h", &salt));
    assert!(!has_salt("$a$b$c$AAAAAAAAAAAAAAAAAAAAAAA$h", &salt));
    assert!(!has_salt("$a$b$c$", &salt));
    assert!(!has_salt("$a$b$c", &salt));
    assert!(!has_salt("", &salt));
    assert!(!has_salt("$é$b$c$AAAAAAAAAAAAAAAAAAAAAA$h", &salt));
}

#[test]
fn every_salt_gives_its_own_encoding() {
    let mut seen: Vec<String> = Vec::new();
    for last in 0u8..4 {
        let mut salt = [9u8; 16];
        salt[15] = last;
        let encoded = hash_password_with_salt("same", &salt).expect("hashing");
        assert!(has_salt(&encoded, &salt));
        assert!(!seen.contains(&encoded));
        assert!(wallet("u", &encoded, 0).verify_password("same"));
        seen.push(encoded);
    }
}
