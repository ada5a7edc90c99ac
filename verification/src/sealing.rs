//! The key that encrypts secrets files, and opening and sealing such a file with it.
//!
//! The key is kept as text: 32 bytes in base64. Files are encrypted to the identity that the key
//! makes; older files are encrypted with the text of the key as a passphrase, and are sealed anew
//! when they are opened.

use vstd::prelude::*;
use vstd::string::StringExecFns;

use crate::text::chars_of;
use crate::text::same;
use crate::text::text_of;
use crate::text::texts;

verus! {

/// The number of bytes in a key.
pub const KEY_BYTES: usize = 32;

/// Bytes in base64.
pub uninterp spec fn base64_of(bytes: Seq<u8>) -> Seq<char>;

/// The bytes that a text is the base64 of; none where it is not.
pub uninterp spec fn unbase64_of(text: Seq<char>) -> Option<Seq<u8>>;

/// The text that Bech32 writes for bytes behind a prefix; none where it takes no such prefix.
pub uninterp spec fn bech32_of(prefix: Seq<char>, bytes: Seq<u8>) -> Option<Seq<char>>;

/// What is wrong with a text as an X25519 identity of `age`; nothing where it is one.
pub uninterp spec fn identity_problem(text: Seq<char>) -> Option<Seq<char>>;

/// Whether an `age` file is encrypted with a passphrase; none where the bytes are no such file.
pub uninterp spec fn passphrase_header(file: Seq<u8>) -> Option<bool>;

/// What is in an `age` file that is opened with an identity.
pub uninterp spec fn opened_of(identity: Seq<char>, file: Seq<u8>) -> Result<Seq<u8>, OpenFailure>;

/// What is in an `age` file that a passphrase opens.
pub uninterp spec fn passphrase_opened(passphrase: Seq<char>, file: Seq<u8>) -> Seq<u8>;

/// Why an encrypted file cannot be opened.
#[derive(Clone, Copy, Debug, PartialEq, Eq, Structural)]
pub enum OpenFailure {
    /// The key does not fit, or the header does not agree with it.
    Decrypt,
    /// The content is damaged.
    Read,
}

/// `base64::engine::general_purpose::STANDARD.encode` writes bytes in base64, from which `decode`
/// gives them back.
#[verifier::external_body]
fn encode_base64(bytes: &Vec<u8>) -> (text: String)
    requires
        bytes@.len() == KEY_BYTES,
    ensures
        text@ == base64_of(bytes@),
        unbase64_of(text@) == Some(bytes@),
{
    base64::Engine::encode(&base64::engine::general_purpose::STANDARD, bytes)
}

/// `base64::engine::general_purpose::STANDARD.decode` reads base64.
#[verifier::external_body]
fn decode_base64(text: &str) -> (r: Option<Vec<u8>>)
    ensures
        (match r {
            Some(bytes) => Some(bytes@),
            None => None,
        }) == unbase64_of(text@),
{
    base64::Engine::decode(&base64::engine::general_purpose::STANDARD, text).ok()
}

/// The prefix can stand before a Bech32 text: one to 83 visible ASCII characters, none of them
/// uppercase.
pub open spec fn plain_prefix(prefix: Seq<char>) -> bool {
    1 <= prefix.len() <= 83 && forall|i: int|
        0 <= i < prefix.len() ==> 33 <= #[trigger] prefix[i] as u32 <= 126 && !('A' <= prefix[i]
            <= 'Z')
}

/// `bech32::encode`, in its variant `Bech32`, writes bytes behind a prefix, and takes every plain
/// one. What it writes for 32 bytes behind the prefix of secret keys is what the `FromStr` of
/// `age::x25519::Identity` reads.
#[verifier::external_body]
fn encode_bech32(prefix: &str, bytes: &Vec<u8>) -> (r: Option<String>)
    ensures
        (match r {
            Some(text) => Some(text@),
            None => None,
        }) == bech32_of(prefix@, bytes@),
        plain_prefix(prefix@) ==> r is Some,
        prefix@ == "age-secret-key-"@ && bytes@.len() == KEY_BYTES ==> (r matches Some(text)
            ==> identity_problem(text@) is None),
{
    bech32::encode(prefix, bech32::ToBase32::to_base32(bytes), bech32::Variant::Bech32).ok()
}

/// The `FromStr` of `age::x25519::Identity` reads an identity; what it says of a text that is none
/// depends on the text alone.
#[verifier::external_body]
fn check_identity(text: &str) -> (r: Option<String>)
    ensures
        (match r {
            Some(problem) => Some(problem@),
            None => None,
        }) == identity_problem(text@),
{
    text.parse::<age::x25519::Identity>().err().map(|problem| problem.to_string())
}

/// `age::Decryptor::new_buffered` reads the header of a file, and `is_scrypt` says whether it is
/// encrypted with a passphrase.
#[verifier::external_body]
fn read_header(file: &Vec<u8>) -> (r: Option<bool>)
    ensures
        r == passphrase_header(file@),
{
    age::Decryptor::new_buffered(file.as_slice()).ok().map(|decryptor| decryptor.is_scrypt())
}

/// `age::Decryptor::decrypt` with an X25519 identity, and reading to the end what it gives. The
/// content depends on the identity and the file alone.
#[verifier::external_body]
fn open_with_identity(identity: &str, file: &Vec<u8>) -> (r: Result<Vec<u8>, OpenFailure>)
    requires
        identity_problem(identity@) is None,
        passphrase_header(file@) is Some,
    ensures
        (match r {
            Ok(content) => Ok(content@),
            Err(failure) => Err(failure),
        }) == opened_of(identity@, file@),
{
    let identity = identity.parse::<age::x25519::Identity>().unwrap();
    let decryptor = age::Decryptor::new_buffered(file.as_slice()).ok().unwrap();
    let identities = std::iter::once(&identity as &dyn age::Identity);
    let mut reader = decryptor.decrypt(identities).map_err(|_| OpenFailure::Decrypt)?;
    let mut content = Vec::new();
    std::io::Read::read_to_end(&mut reader, &mut content).map_err(|_| OpenFailure::Read)?;
    Ok(content)
}

/// `age::Decryptor::decrypt` with a passphrase, and reading to the end what it gives. The content
/// depends on the passphrase and the file alone. How much work it takes on for a file depends on the
/// speed of the machine, so nothing is stated of when it succeeds.
#[verifier::external_body]
fn open_with_passphrase(passphrase: &str, file: &Vec<u8>) -> (r: Result<Vec<u8>, OpenFailure>)
    requires
        passphrase_header(file@) is Some,
    ensures
        r matches Ok(content) ==> content@ == passphrase_opened(passphrase@, file@),
{
    let secret = age::secrecy::SecretString::from(passphrase.to_string());
    let identity = age::scrypt::Identity::new(secret);
    let decryptor = age::Decryptor::new_buffered(file.as_slice()).ok().unwrap();
    let identities = std::iter::once(&identity as &dyn age::Identity);
    let mut reader = decryptor.decrypt(identities).map_err(|_| OpenFailure::Decrypt)?;
    let mut content = Vec::new();
    std::io::Read::read_to_end(&mut reader, &mut content).map_err(|_| OpenFailure::Read)?;
    Ok(content)
}

/// `age::encrypt` to the recipient of an X25519 identity. What it writes differs from call to call;
/// each is a file without a passphrase, which the identity opens to the content.
#[verifier::external_body]
fn encrypt_to(identity: &str, content: &Vec<u8>) -> (r: Option<Vec<u8>>)
    requires
        identity_problem(identity@) is None,
    ensures
        r matches Some(file) ==> passphrase_header(file@) == Some(false) && opened_of(
            identity@,
            file@,
        ) is Ok && opened_of(identity@, file@)->Ok_0 == content@,
{
    let identity = identity.parse::<age::x25519::Identity>().unwrap();
    age::encrypt(&identity.to_public(), content.as_slice()).ok()
}

/// `rand::rngs::OsRng` fills 32 bytes at random, unless the system has none to give.
#[verifier::external_body]
fn random_bytes() -> (r: Option<Vec<u8>>)
    ensures
        r matches Some(bytes) ==> bytes@.len() == KEY_BYTES,
{
    let mut bytes = vec![0u8; KEY_BYTES];
    rand::TryRngCore::try_fill_bytes(&mut rand::rngs::OsRng, &mut bytes).ok().map(|()| bytes)
}

/// Overwrites bytes with zeros.
pub fn wipe_bytes(bytes: &mut Vec<u8>)
    ensures
        final(bytes)@.len() == old(bytes)@.len(),
        forall|i: int| 0 <= i < final(bytes)@.len() ==> final(bytes)@[i] == 0,
{
    let mut i: usize = 0;
    while i < bytes.len()
        invariant
            i <= bytes@.len() == old(bytes)@.len(),
            forall|j: int| 0 <= j < i ==> bytes@[j] == 0,
        decreases bytes@.len() - i,
    {
        bytes.set(i, 0);
        i += 1;
    }
}

/// The text of a key.
pub fn key_text(bytes: &Vec<u8>) -> (key: String)
    requires
        bytes@.len() == KEY_BYTES,
    ensures
        key@ == base64_of(bytes@),
        unbase64_of(key@) == Some(bytes@),
{
    encode_base64(bytes)
}

/// A new random key.
pub fn generate_key() -> (r: Result<String, String>)
    ensures
        match r {
            Ok(key) => identity_of(key@) is Ok,
            Err(error) => error@ == "failed to generate random secrets key"@,
        },
{
    match random_bytes() {
        Some(bytes) => {
            let key = key_text(&bytes);
            let mut spent = bytes;
            wipe_bytes(&mut spent);
            Ok(key)
        },
        None => Err("failed to generate random secrets key".to_string()),
    }
}

/// The identity that a key makes, or why it makes none.
pub open spec fn identity_of(key: Seq<char>) -> Result<Seq<char>, Seq<char>> {
    match unbase64_of(key) {
        None => Err("invalid secrets key encoding"@),
        Some(bytes) => if bytes.len() != KEY_BYTES {
            Err("invalid secrets key length"@)
        } else {
            Ok(bech32_of("age-secret-key-"@, bytes)->0)
        },
    }
}

/// The identity that a key makes: its bytes behind the prefix of secret keys.
pub fn identity_from_key(key: &str) -> (r: Result<String, String>)
    ensures
        match r {
            Ok(identity) => identity_of(key@) == Ok::<Seq<char>, Seq<char>>(identity@)
                && identity_problem(identity@) is None,
            Err(error) => identity_of(key@) == Err::<Seq<char>, Seq<char>>(error@),
        },
{
    let bytes = match decode_base64(key) {
        Some(bytes) => bytes,
        None => {
            return Err("invalid secrets key encoding".to_string());
        },
    };
    if bytes.len() != KEY_BYTES {
        return Err("invalid secrets key length".to_string());
    }
    proof {
        reveal_strlit("age-secret-key-");
        assert(plain_prefix("age-secret-key-"@));
    }
    let identity = encode_bech32("age-secret-key-", &bytes).unwrap();
    if let Some(problem) = check_identity(identity.as_str()) {
        return Err(problem);
    }
    Ok(identity)
}

/// What an opened file says that it holds, or what is reported.
pub open spec fn content_of(opened: Result<Seq<u8>, OpenFailure>) -> Result<Seq<u8>, Seq<char>> {
    match opened {
        Ok(content) => Ok(content),
        Err(OpenFailure::Decrypt) => Err("failed to decrypt secrets file"@),
        Err(OpenFailure::Read) => Err("failed to read decrypted secrets file"@),
    }
}

/// What a file holds, or what is reported.
pub fn content(opened: Result<Vec<u8>, OpenFailure>) -> (r: Result<Vec<u8>, String>)
    ensures
        match (r, opened) {
            (Ok(content), Ok(held)) => content@ == held@,
            (Err(error), Err(failure)) => content_of(Err(failure)) == Err::<Seq<u8>, Seq<char>>(
                error@,
            ),
            _ => false,
        },
{
    match opened {
        Ok(content) => Ok(content),
        Err(OpenFailure::Decrypt) => Err("failed to decrypt secrets file".to_string()),
        Err(OpenFailure::Read) => Err("failed to read decrypted secrets file".to_string()),
    }
}

/// An opened file: what it holds, and whether it is to be sealed anew.
#[derive(Debug, PartialEq, Eq)]
pub struct OpenedFile {
    pub content: Vec<u8>,
    pub migrate: bool,
}

/// What keeps a file from being opened before its content is looked at, if anything does.
pub open spec fn open_problem(key: Seq<char>, file: Seq<u8>) -> Option<Seq<char>> {
    match identity_of(key) {
        Err(error) => Some(error),
        Ok(_) => if passphrase_header(file) is None {
            Some("invalid secrets file"@)
        } else {
            None
        },
    }
}

/// What is reported of a file whose content cannot be had.
pub open spec fn unopened(error: Seq<char>) -> bool {
    ||| error == "failed to decrypt secrets file"@
    ||| error == "failed to read decrypted secrets file"@
}

/// Opens a secrets file with the key: with its identity, or with its text where the file is
/// encrypted with a passphrase. Whether a passphrase opens its file is not stated; what it opens it
/// to is.
pub fn open(key: &str, file: &Vec<u8>) -> (r: Result<OpenedFile, String>)
    ensures
        open_problem(key@, file@) matches Some(problem) ==> r is Err && r->Err_0@ == problem,
        r matches Ok(opened) ==> open_problem(key@, file@) is None && opened.migrate
            == passphrase_header(file@)->0,
        open_problem(key@, file@) is None && passphrase_header(file@) == Some(false) ==> match r {
            Ok(opened) => content_of(opened_of(identity_of(key@)->Ok_0, file@)) == Ok::<
                Seq<u8>,
                Seq<char>,
            >(opened.content@),
            Err(error) => content_of(opened_of(identity_of(key@)->Ok_0, file@)) == Err::<
                Seq<u8>,
                Seq<char>,
            >(error@),
        },
        open_problem(key@, file@) is None && passphrase_header(file@) == Some(true) ==> match r {
            Ok(opened) => opened.content@ == passphrase_opened(key@, file@),
            Err(error) => unopened(error@),
        },
{
    let identity = match identity_from_key(key) {
        Ok(identity) => identity,
        Err(error) => {
            return Err(error);
        },
    };
    let migrate = match read_header(file) {
        Some(migrate) => migrate,
        None => {
            return Err("invalid secrets file".to_string());
        },
    };
    let opened = if migrate {
        open_with_passphrase(key, file)
    } else {
        open_with_identity(identity.as_str(), file)
    };
    match content(opened) {
        Ok(content) => Ok(OpenedFile { content, migrate }),
        Err(error) => Err(error),
    }
}

/// What sealing is done for, which its failure names.
#[derive(Clone, Copy, Debug, PartialEq, Eq, Structural)]
pub enum SealPurpose {
    Save,
    Upgrade,
}

/// What a failed sealing is reported as.
pub open spec fn seal_failure(purpose: SealPurpose) -> Seq<char> {
    match purpose {
        SealPurpose::Save => "failed to encrypt secrets file"@,
        SealPurpose::Upgrade => "failed to upgrade secrets encryption"@,
    }
}

/// The file holds the content, encrypted to the identity of the key.
pub open spec fn sealed_for(key: Seq<char>, file: Seq<u8>, plain: Seq<u8>) -> bool {
    &&& identity_of(key) is Ok
    &&& open_problem(key, file) is None
    &&& passphrase_header(file) == Some(false)
    &&& opened_of(identity_of(key)->Ok_0, file) == Ok::<Seq<u8>, OpenFailure>(plain)
}

/// What a failed sealing reports: what is wrong with the key, or what the sealing was for.
pub open spec fn unsealed(key: Seq<char>, purpose: SealPurpose, error: Seq<char>) -> bool {
    match identity_of(key) {
        Err(problem) => error == problem,
        Ok(_) => error == seal_failure(purpose),
    }
}

/// Encrypts the content of a secrets file to the identity of the key. What is written is opened
/// with the same key, needs no passphrase, and holds the content.
pub fn seal(key: &str, plain: &Vec<u8>, purpose: SealPurpose) -> (r: Result<Vec<u8>, String>)
    ensures
        match r {
            Ok(file) => sealed_for(key@, file@, plain@),
            Err(error) => unsealed(key@, purpose, error@),
        },
{
    let identity = match identity_from_key(key) {
        Ok(identity) => identity,
        Err(error) => {
            return Err(error);
        },
    };
    match encrypt_to(identity.as_str(), plain) {
        Some(file) => Ok(file),
        None => Err(
            match purpose {
                SealPurpose::Save => "failed to encrypt secrets file".to_string(),
                SealPurpose::Upgrade => "failed to upgrade secrets encryption".to_string(),
            },
        ),
    }
}

/// A file that was sealed with a key is opened with it: nothing keeps it from being opened, it holds
/// the content that was sealed, and it is not sealed anew.
pub proof fn sealed_files_open(key: Seq<char>, file: Seq<u8>, plain: Seq<u8>)
    requires
        sealed_for(key, file, plain),
    ensures
        open_problem(key, file) is None,
        passphrase_header(file) == Some(false),
        content_of(opened_of(identity_of(key)->Ok_0, file)) == Ok::<Seq<u8>, Seq<char>>(plain),
{
}

/// What is reported when the keyring cannot be asked for the key.
pub fn load_key_failure(account: &str) -> (error: String)
    ensures
        error@ == "failed to load secrets key from keyring for "@ + account@,
{
    let mut error = "failed to load secrets key from keyring for ".to_string();
    error.append(account);
    error
}

/// Opens the bytes of a secrets file with the key from the keyring, which must be there.
pub fn load_with_key(file: &Vec<u8>, key: &Option<String>) -> (r: Result<OpenedFile, String>)
    ensures
        key is None ==> r is Err && r->Err_0@
            == "secrets file exists but its keyring key is missing"@,
        key matches Some(key) ==> {
            &&& open_problem(key@, file@) matches Some(problem) ==> r is Err && r->Err_0@ == problem
            &&& r matches Ok(opened) ==> open_problem(key@, file@) is None && opened.migrate
                == passphrase_header(file@)->0
            &&& open_problem(key@, file@) is None && passphrase_header(file@) == Some(false)
                ==> match r {
                Ok(opened) => content_of(opened_of(identity_of(key@)->Ok_0, file@)) == Ok::<
                    Seq<u8>,
                    Seq<char>,
                >(opened.content@),
                Err(error) => content_of(opened_of(identity_of(key@)->Ok_0, file@)) == Err::<
                    Seq<u8>,
                    Seq<char>,
                >(error@),
            }
            &&& open_problem(key@, file@) is None && passphrase_header(file@) == Some(true)
                ==> match r {
                Ok(opened) => opened.content@ == passphrase_opened(key@, file@),
                Err(error) => unopened(error@),
            }
        },
{
    match key {
        Some(key) => open(key.as_str(), file),
        None => Err("secrets file exists but its keyring key is missing".to_string()),
    }
}

/// The names of the directory hold an encrypted file.
pub open spec fn any_encrypted(names: Seq<Seq<char>>) -> bool {
    exists|i: int| 0 <= i < names.len() && encrypted_name(#[trigger] names[i])
}

/// The name is that of an encrypted file: something before the ending `.age`.
pub open spec fn encrypted_name(name: Seq<char>) -> bool {
    name.len() > 4 && name.skip(name.len() - 4) == ".age"@
}

/// Whether the name is that of an encrypted file.
fn is_encrypted_name(name: &str) -> (r: bool)
    ensures
        r == encrypted_name(name@),
{
    let chars = chars_of(name);
    if chars.len() <= 4 {
        return false;
    }
    let ending = text_of(&chars, chars.len() - 4, chars.len());
    assert(ending@ == name@.skip(name@.len() - 4));
    same(ending.as_str(), ".age")
}

/// Whether the names of the directory hold an encrypted file.
pub fn is_any_encrypted(names: &Vec<String>) -> (r: bool)
    ensures
        r == any_encrypted(texts(names@)),
{
    let mut i: usize = 0;
    while i < names.len()
        invariant
            i <= names@.len(),
            forall|j: int|
                0 <= j < i ==> !encrypted_name(#[trigger] texts(names@)[j]),
        decreases names@.len() - i,
    {
        assert(texts(names@)[i as int] == names@[i as int]@);
        if is_encrypted_name(names[i].as_str()) {
            return true;
        }
        i += 1;
    }
    false
}

} // verus!
