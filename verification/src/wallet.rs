//! Wallets: an account name, the credential that guards it, a balance, and
//! the account's own record of what it sent and received.

use vstd::prelude::*;
use vstd::string::StringExecFns;
use crate::credential::{
    argon2_check, argon2_hash, credential_accepts, credential_verdict, has_legacy_shape,
    fill_random, is_hex_char, is_legacy_digest, is_refused_with_some_salt,
    is_salted_credential, lemma_verdict_is_acceptance, salted_credential, CredentialError,
    SALT_LEN,
};
use crate::hasher::digest_hex;
use crate::phc::{can_be_checked, has_salt};
use crate::text::{decimal, push_decimal};

verus! {

/// The balance that a new account starts with.
pub const INITIAL_BALANCE: u64 = 100;

/// One line of an account's history.
#[derive(Debug)]
pub struct TransactionRecord {
    /// What happened, in words.
    pub description: String,
    /// What the user wished to remember of it, if anything.
    pub note: Option<String>,
    /// Seconds since the Unix epoch at which it happened.
    pub timestamp: u64,
}

/// What a record holds, as mathematical values.
pub struct RecordView {
    pub description: Seq<char>,
    pub note: Option<Seq<char>>,
    pub timestamp: nat,
}

/// The text of an optional note.
pub open spec fn note_view(note: Option<String>) -> Option<Seq<char>> {
    match note {
        Some(text) => Some(text@),
        None => None,
    }
}

impl View for TransactionRecord {
    type V = RecordView;

    open spec fn view(&self) -> RecordView {
        RecordView {
            description: self.description@,
            note: note_view(self.note),
            timestamp: self.timestamp as nat,
        }
    }
}

impl Clone for TransactionRecord {
    fn clone(&self) -> (copy: Self)
        ensures
            copy@ == self@,
    {
        TransactionRecord {
            description: self.description.clone(),
            note: match &self.note {
                Some(text) => Some(text.clone()),
                None => None,
            },
            timestamp: self.timestamp,
        }
    }
}

/// An account.
#[derive(Debug)]
pub struct Wallet {
    pub username: String,
    /// The stored credential: an Argon2 encoding, or a legacy digest.
    pub password_hash: String,
    pub balance: u64,
    /// The account's history, oldest first.
    pub transactions: Vec<TransactionRecord>,
}

/// What a wallet holds, as mathematical values.
pub struct WalletView {
    pub username: Seq<char>,
    pub password_hash: Seq<char>,
    pub balance: nat,
    pub transactions: Seq<RecordView>,
}

impl View for Wallet {
    type V = WalletView;

    open spec fn view(&self) -> WalletView {
        WalletView {
            username: self.username@,
            password_hash: self.password_hash@,
            balance: self.balance as nat,
            transactions: self.transactions@.map_values(|t: TransactionRecord| t@),
        }
    }
}

/// Why a transfer was refused.
#[derive(Debug, Clone, Copy, PartialEq, Eq, Structural)]
pub enum TransferError {
    /// The sender holds less than the amount.
    InsufficientFunds,
    /// The receiver's balance would no longer fit in 64 bits.
    BalanceOverflow,
}

/// Name of the file that keeps the wallet of `username`.
pub open spec fn wallet_file(username: Seq<char>) -> Seq<char> {
    username + "_wallet.json"@
}

/// The address of the wallet of `username`.
pub open spec fn wallet_address(username: Seq<char>) -> Seq<char> {
    "wallet_"@ + username
}

/// Name of the image file that shows the address of `username` as a QR code.
pub open spec fn qr_file(username: Seq<char>) -> Seq<char> {
    username + "_address_qr.png"@
}

/// How the sender's history words a transfer.
pub open spec fn sent_description(amount: nat, to: Seq<char>) -> Seq<char> {
    "Sent "@ + decimal(amount) + " coins to "@ + to
}

/// How the receiver's history words a transfer.
pub open spec fn received_description(amount: nat, from: Seq<char>) -> Seq<char> {
    "Received "@ + decimal(amount) + " coins from "@ + from
}

/// How a record is shown in a listing: a dash, the description, and the note
/// in brackets where there is one.
pub open spec fn history_line(record: RecordView) -> Seq<char> {
    match record.note {
        Some(note) => "- "@ + record.description + " (Note: "@ + note + ")"@,
        None => "- "@ + record.description,
    }
}

impl WalletView {
    /// The wallet after it has sent `amount` to `to`.
    pub open spec fn after_sending(
        self,
        amount: nat,
        to: Seq<char>,
        note: Option<Seq<char>>,
        timestamp: nat,
    ) -> WalletView {
        WalletView {
            balance: (self.balance - amount) as nat,
            transactions: self.transactions.push(
                RecordView { description: sent_description(amount, to), note, timestamp },
            ),
            ..self
        }
    }

    /// The wallet after it has received `amount` from `from`.
    pub open spec fn after_receiving(
        self,
        amount: nat,
        from: Seq<char>,
        note: Option<Seq<char>>,
        timestamp: nat,
    ) -> WalletView {
        WalletView {
            balance: self.balance + amount,
            transactions: self.transactions.push(
                RecordView { description: received_description(amount, from), note, timestamp },
            ),
            ..self
        }
    }
}

impl TransactionRecord {
    /// The line that shows this record in a listing.
    pub fn history_line(&self) -> (line: String)
        ensures
            line@ == history_line(self@),
    {
        let mut line = "- ".to_owned();
        line.append(self.description.as_str());
        match &self.note {
            Some(note) => {
                line.append(" (Note: ");
                line.append(note.as_str());
                line.append(")");
            },
            None => {},
        }
        line
    }
}

impl Wallet {
    /// Name of the file that keeps the wallet of `username`.
    pub fn filename(username: &str) -> (name: String)
        ensures
            name@ == wallet_file(username@),
    {
        let mut name = username.to_owned();
        name.append("_wallet.json");
        name
    }

    /// Opens an account with a credential that was made beforehand: the
    /// starting balance and an empty history.
    pub fn with_credential(username: &str, password_hash: String) -> (wallet: Wallet)
        ensures
            wallet@ == (WalletView {
                username: username@,
                password_hash: password_hash@,
                balance: INITIAL_BALANCE as nat,
                transactions: Seq::empty(),
            }),
    {
        let wallet = Wallet {
            username: username.to_owned(),
            password_hash,
            balance: INITIAL_BALANCE,
            transactions: Vec::new(),
        };
        assert(wallet@.transactions =~= Seq::empty());
        wallet
    }

    /// Opens an account for `username`, guarded by `password`: a fresh salted
    /// credential, the starting balance and an empty history. It fails where
    /// `hash_password` fails, and with the same error.
    pub fn create(username: &str, password: &str) -> (made: Result<Wallet, CredentialError>)
        ensures
            match made {
                Ok(wallet) => {
                    &&& wallet@.username == username@
                    &&& wallet@.balance == INITIAL_BALANCE
                    &&& wallet@.transactions == Seq::<RecordView>::empty()
                    &&& is_salted_credential(password@, wallet@.password_hash)
                    &&& wallet@.password_hash.len() > 0 && wallet@.password_hash[0] == '$'
                    &&& credential_accepts(password@, wallet@.password_hash)
                    &&& !is_legacy_digest(wallet@.password_hash)
                },
                Err(CredentialError::HashingFailed) => is_refused_with_some_salt(password@),
                Err(CredentialError::EntropyUnavailable) => true,
            },
    {
        match hash_password(password) {
            Ok(password_hash) => Ok(Wallet::with_credential(username, password_hash)),
            Err(e) => Err(e),
        }
    }

    /// Checks `password` against the stored credential, whichever of the two
    /// formats it has. A credential that is neither a legacy digest nor a
    /// readable Argon2 encoding accepts nothing; nor does one that is not
    /// ASCII throughout or names a degree of parallelism beyond
    /// `MAX_PARALLELISM`, about which the Argon2 verifier is not even asked.
    pub fn verify_password(&self, password: &str) -> (ok: bool)
        ensures
            ok == credential_accepts(password@, self@.password_hash),
    {
        let stored = self.password_hash.as_str();
        let digest = digest_hex(password);
        let modern = if has_legacy_shape(stored) {
            None
        } else if can_be_checked(stored) {
            argon2_check(password.as_bytes(), stored)
        } else {
            Some(false)
        };
        proof {
            lemma_verdict_is_acceptance(password@, stored@);
        }
        credential_verdict(stored, digest.as_str(), modern)
    }

    /// The address under which others reach this wallet.
    pub fn get_address(&self) -> (address: String)
        ensures
            address@ == wallet_address(self@.username),
    {
        let mut address = "wallet_".to_owned();
        address.append(self.username.as_str());
        address
    }

    /// Name of the image file for this wallet's address as a QR code.
    pub fn qr_filename(&self) -> (name: String)
        ensures
            name@ == qr_file(self@.username),
    {
        let mut name = self.username.clone();
        name.append("_address_qr.png");
        name
    }

    /// Whether the balance covers `amount`.
    pub fn can_afford(&self, amount: u64) -> (enough: bool)
        ensures
            enough == (self@.balance >= amount),
    {
        self.balance >= amount
    }
}

/// Produces the salted Argon2 credential of `password` for a given salt.
/// The same password and salt always give the same encoding, and the
/// encoding verifies against `password` and names the salt, so another salt
/// gives another encoding. An encoding that did not name the salt, or that
/// the verifier could not be asked about later, would not be handed out:
/// that counts as a failure of the hashing.
pub fn hash_password_with_salt(password: &str, salt: &[u8; SALT_LEN]) -> (made: Result<
    String,
    CredentialError,
>)
    ensures
        match made {
            Ok(encoded) => {
                &&& salted_credential(password@, salt@) == Some(encoded@)
                &&& encoded@.len() > 0 && encoded@[0] == '$'
                &&& credential_accepts(password@, encoded@)
                &&& !is_legacy_digest(encoded@)
            },
            Err(CredentialError::HashingFailed) => salted_credential(password@, salt@) is None,
            Err(CredentialError::EntropyUnavailable) => false,
        },
{
    match argon2_hash(password.as_bytes(), salt) {
        Ok(encoded) => {
            assert(!is_hex_char(encoded@[0]));
            if can_be_checked(encoded.as_str()) && has_salt(encoded.as_str(), salt) {
                Ok(encoded)
            } else {
                Err(CredentialError::HashingFailed)
            }
        },
        Err(e) => Err(CredentialError::from(e)),
    }
}

/// Produces a salted Argon2 credential for `password`. Each call draws its
/// own 16 random bytes of salt from the operating system, so two calls give
/// different encodings unless they happen to draw the same salt, and every
/// encoding verifies against `password`.
///
/// There is no fallback to the legacy digest: where no salt can be drawn or
/// the hashing scheme fails, so does this function. `EntropyUnavailable`
/// says that the system gave no salt; `HashingFailed`, that Argon2 refused
/// the password with the salt that was drawn.
pub fn hash_password(password: &str) -> (made: Result<String, CredentialError>)
    ensures
        match made {
            Ok(encoded) => {
                &&& is_salted_credential(password@, encoded@)
                &&& encoded@.len() > 0 && encoded@[0] == '$'
                &&& credential_accepts(password@, encoded@)
                &&& !is_legacy_digest(encoded@)
            },
            Err(CredentialError::HashingFailed) => is_refused_with_some_salt(password@),
            Err(CredentialError::EntropyUnavailable) => true,
        },
{
    let mut salt = [0u8; SALT_LEN];
    match fill_random(&mut salt) {
        Ok(()) => hash_password_with_salt(password, &salt),
        Err(e) => Err(CredentialError::from(e)),
    }
}

/// The text of `amount` and a name between fixed words.
fn describe(before: &str, amount: u64, between: &str, name: &str) -> (text: String)
    ensures
        text@ == before@ + decimal(amount as nat) + between@ + name@,
{
    let mut text = before.to_owned();
    push_decimal(&mut text, amount);
    text.append(between);
    text.append(name);
    text
}

/// Moves `amount` from `sender` to `receiver` and writes the transfer into
/// both histories, with the same note and time.
///
/// A transfer that the sender cannot cover, or that the receiver's balance
/// cannot hold, is refused, and then neither wallet is touched.
pub fn transfer(
    sender: &mut Wallet,
    receiver: &mut Wallet,
    amount: u64,
    note: Option<String>,
    timestamp: u64,
) -> (done: Result<(), TransferError>)
    ensures
        match done {
            Ok(()) => {
                &&& old(sender).balance >= amount
                &&& old(receiver).balance + amount <= u64::MAX
                &&& final(sender)@ == old(sender)@.after_sending(
                    amount as nat,
                    old(receiver)@.username,
                    note_view(note),
                    timestamp as nat,
                )
                &&& final(receiver)@ == old(receiver)@.after_receiving(
                    amount as nat,
                    old(sender)@.username,
                    note_view(note),
                    timestamp as nat,
                )
            },
            Err(TransferError::InsufficientFunds) => {
                &&& old(sender).balance < amount
                &&& *final(sender) == *old(sender)
                &&& *final(receiver) == *old(receiver)
            },
            Err(TransferError::BalanceOverflow) => {
                &&& old(sender).balance >= amount
                &&& old(receiver).balance + amount > u64::MAX
                &&& *final(sender) == *old(sender)
                &&& *final(receiver) == *old(receiver)
            },
        },
{
    if sender.balance < amount {
        return Err(TransferError::InsufficientFunds);
    }
    if receiver.balance > u64::MAX - amount {
        return Err(TransferError::BalanceOverflow);
    }
    let sent = describe("Sent ", amount, " coins to ", receiver.username.as_str());
    let received = describe("Received ", amount, " coins from ", sender.username.as_str());
    let note_copy = match &note {
        Some(text) => Some(text.clone()),
        None => None,
    };
    sender.balance = sender.balance - amount;
    receiver.balance = receiver.balance + amount;
    sender.transactions.push(TransactionRecord { description: sent, note: note_copy, timestamp });
    receiver.transactions.push(TransactionRecord { description: received, note, timestamp });
    assert(sender@.transactions =~= old(sender)@.transactions.push(
        RecordView {
            description: sent_description(amount as nat, old(receiver)@.username),
            note: note_view(note),
            timestamp: timestamp as nat,
        },
    ));
    assert(receiver@.transactions =~= old(receiver)@.transactions.push(
        RecordView {
            description: received_description(amount as nat, old(sender)@.username),
            note: note_view(note),
            timestamp: timestamp as nat,
        },
    ));
    Ok(())
}

} // verus!
