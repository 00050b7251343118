//! The per-candidate pipeline: phrase, seed, master key, child key, public
//! key, address text. Every cryptographic step is a call into bip39 or
//! bitcoin; the library decides which steps run and what a failure means.

use vstd::prelude::*;
use std::str::FromStr;
use bip39::Mnemonic;
use bip39::Error as MnemonicError;
use bitcoin::bip32::{DerivationPath, Xpriv};
use bitcoin::bip32::Error as Bip32Error;
use bitcoin::secp256k1::Secp256k1;
use bitcoin::{Address, CompressedPublicKey, Network};
use crate::language::{bip39_language, Language};
use crate::scheme::{AddressType, SetupError};

verus! {

#[verifier::external_type_specification]
#[verifier::external_body]
pub struct ExMnemonic(Mnemonic);

#[verifier::external_type_specification]
#[verifier::external_body]
pub struct ExMnemonicError(MnemonicError);

#[verifier::external_type_specification]
#[verifier::external_body]
pub struct ExXpriv(Xpriv);

#[verifier::external_type_specification]
#[verifier::external_body]
pub struct ExBip32Error(Bip32Error);

#[verifier::external_type_specification]
#[verifier::external_body]
pub struct ExDerivationPath(DerivationPath);

#[verifier::external_type_specification]
#[verifier::external_body]
pub struct ExCompressedPublicKey(CompressedPublicKey);

/// What `Mnemonic::parse_in_normalized` makes of a phrase in a language.
pub uninterp spec fn mnemonic_parse(lang: Language, phrase: Seq<char>) -> Result<Mnemonic, MnemonicError>;

/// The seed that `Mnemonic::to_seed` derives with a passphrase.
pub uninterp spec fn mnemonic_seed(m: Mnemonic, passphrase: Seq<char>) -> Seq<u8>;

/// What `Xpriv::new_master` makes of a seed on mainnet.
pub uninterp spec fn master_of(seed: Seq<u8>) -> Result<Xpriv, Bip32Error>;

/// What `DerivationPath::from_str` makes of a path text.
pub uninterp spec fn path_parse(text: Seq<char>) -> Result<DerivationPath, Bip32Error>;

/// What `Xpriv::derive_priv` makes of a key and a path.
pub uninterp spec fn child_of(key: Xpriv, path: DerivationPath) -> Result<Xpriv, Bip32Error>;

/// The compressed public key of an extended private key.
pub uninterp spec fn public_key_of(key: Xpriv) -> CompressedPublicKey;

/// The mainnet P2PKH address text of a public key.
pub uninterp spec fn p2pkh_text(pk: CompressedPublicKey) -> Seq<char>;

/// The mainnet P2SH-wrapped P2WPKH address text of a public key.
pub uninterp spec fn p2shwpkh_text(pk: CompressedPublicKey) -> Seq<char>;

/// The mainnet P2WPKH (Bech32) address text of a public key.
pub uninterp spec fn p2wpkh_text(pk: CompressedPublicKey) -> Seq<char>;

/// Relies on `bip39::Mnemonic::parse_in_normalized`: checks the word count,
/// each word against the list, and the checksum; a function of its inputs.
#[verifier::external_body]
fn parse_mnemonic(lang: Language, phrase: &str) -> (r: Result<Mnemonic, MnemonicError>)
    ensures
        r == mnemonic_parse(lang, phrase@),
{
    Mnemonic::parse_in_normalized(bip39_language(lang), phrase)
}

/// Relies on `bip39::Mnemonic::to_seed`: the 64-byte PBKDF2 seed.
#[verifier::external_body]
fn mnemonic_to_seed(m: &Mnemonic, passphrase: &str) -> (r: Vec<u8>)
    ensures
        r@ == mnemonic_seed(*m, passphrase@),
        r@.len() == 64,
{
    m.to_seed(passphrase).to_vec()
}

/// Relies on `bitcoin::bip32::Xpriv::new_master` for mainnet.
#[verifier::external_body]
fn new_master(seed: &[u8]) -> (r: Result<Xpriv, Bip32Error>)
    ensures
        r == master_of(seed@),
{
    Xpriv::new_master(Network::Bitcoin, seed)
}

/// Relies on `bitcoin::bip32::DerivationPath::from_str`.
#[verifier::external_body]
fn parse_path(text: &str) -> (r: Result<DerivationPath, Bip32Error>)
    ensures
        r == path_parse(text@),
{
    DerivationPath::from_str(text)
}

/// Relies on `bitcoin::bip32::Xpriv::derive_priv`, handed a fresh
/// `Secp256k1::signing_only` context; the result does not depend on it.
#[verifier::external_body]
fn derive_priv(key: &Xpriv, path: &DerivationPath) -> (r: Result<Xpriv, Bip32Error>)
    ensures
        r == child_of(*key, *path),
{
    key.derive_priv(&Secp256k1::signing_only(), path)
}

/// Relies on `secp256k1::SecretKey::public_key` on the key's private part,
/// with a fresh `Secp256k1::signing_only` context, wrapped as a
/// `bitcoin::CompressedPublicKey`.
#[verifier::external_body]
fn public_key(key: &Xpriv) -> (r: CompressedPublicKey)
    ensures
        r == public_key_of(*key),
{
    CompressedPublicKey(key.private_key.public_key(&Secp256k1::signing_only()))
}

/// Relies on `bitcoin::Address::p2pkh` on mainnet, written as text.
#[verifier::external_body]
fn p2pkh(pk: &CompressedPublicKey) -> (r: String)
    ensures
        r@ == p2pkh_text(*pk),
{
    Address::p2pkh(pk, Network::Bitcoin).to_string()
}

/// Relies on `bitcoin::Address::p2shwpkh` on mainnet, written as text.
#[verifier::external_body]
fn p2shwpkh(pk: &CompressedPublicKey) -> (r: String)
    ensures
        r@ == p2shwpkh_text(*pk),
{
    Address::p2shwpkh(pk, Network::Bitcoin).to_string()
}

/// Relies on `bitcoin::Address::p2wpkh` on mainnet, written as text.
#[verifier::external_body]
fn p2wpkh(pk: &CompressedPublicKey) -> (r: String)
    ensures
        r@ == p2wpkh_text(*pk),
{
    Address::p2wpkh(pk, Network::Bitcoin).to_string()
}

/// Why one candidate yields no address. Never fatal to a search.
#[derive(Debug, Clone, Copy, PartialEq, Eq, Structural)]
pub enum PipelineSkip {
    /// The phrase is not a checksummed mnemonic in the language.
    InvalidMnemonic,
    /// Key derivation failed for this particular seed.
    KeyDerivation,
}

/// The address text of a public key under a scheme.
pub open spec fn address_text(scheme: AddressType, pk: CompressedPublicKey) -> Seq<char> {
    match scheme {
        AddressType::Bip44 => p2pkh_text(pk),
        AddressType::Bip49 => p2shwpkh_text(pk),
        AddressType::Bip84 => p2wpkh_text(pk),
    }
}

/// The address a phrase yields: validate, seed with the empty passphrase,
/// master key, child key along `path`, public key, address text.
pub open spec fn pipeline(lang: Language, phrase: Seq<char>, scheme: AddressType, path: DerivationPath) -> Result<Seq<char>, PipelineSkip> {
    match mnemonic_parse(lang, phrase) {
        Err(_) => Err(PipelineSkip::InvalidMnemonic),
        Ok(m) => match master_of(mnemonic_seed(m, Seq::empty())) {
            Err(_) => Err(PipelineSkip::KeyDerivation),
            Ok(master) => match child_of(master, path) {
                Err(_) => Err(PipelineSkip::KeyDerivation),
                Ok(child) => Ok(address_text(scheme, public_key_of(child))),
            },
        },
    }
}

/// The derivation path a path text denotes, if it parses.
pub fn parse_derivation_path(text: &str) -> (r: Result<DerivationPath, SetupError>)
    ensures
        r matches Ok(p) ==> path_parse(text@) == Ok::<DerivationPath, Bip32Error>(p),
        r matches Err(e) ==> path_parse(text@) is Err && e == SetupError::InvalidDerivationPath,
{
    match parse_path(text) {
        Ok(p) => Ok(p),
        Err(_) => Err(SetupError::InvalidDerivationPath),
    }
}

/// Runs one candidate phrase through the pipeline.
pub fn derive_address(phrase: &str, language: Language, scheme: AddressType, path: &DerivationPath) -> (r: Result<String, PipelineSkip>)
    ensures
        r matches Ok(a) ==> pipeline(language, phrase@, scheme, *path) == Ok::<Seq<char>, PipelineSkip>(a@),
        r matches Err(e) ==> pipeline(language, phrase@, scheme, *path) == Err::<Seq<char>, PipelineSkip>(e),
{
    let m = match parse_mnemonic(language, phrase) {
        Ok(m) => m,
        Err(_) => return Err(PipelineSkip::InvalidMnemonic),
    };
    let seed = mnemonic_to_seed(&m, "");
    proof {
        reveal_strlit("");
        assert(""@ =~= Seq::<char>::empty());
    }
    let master = match new_master(seed.as_slice()) {
        Ok(k) => k,
        Err(_) => return Err(PipelineSkip::KeyDerivation),
    };
    let child = match derive_priv(&master, path) {
        Ok(k) => k,
        Err(_) => return Err(PipelineSkip::KeyDerivation),
    };
    let pk = public_key(&child);
    let a = match scheme {
        AddressType::Bip44 => p2pkh(&pk),
        AddressType::Bip49 => p2shwpkh(&pk),
        AddressType::Bip84 => p2wpkh(&pk),
    };
    Ok(a)
}

} // verus!
