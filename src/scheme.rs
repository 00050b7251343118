//! Address schemes: which derivation path and address encoding a run uses.

use vstd::prelude::*;
use vstd::string::*;
use crate::text::{decimal, has_prefix, push_decimal, starts_with};

verus! {

/// The three address schemes, named after the BIP that fixes their path.
#[derive(Debug, Clone, Copy, PartialEq, Eq, Structural)]
pub enum AddressType {
    /// Legacy pay-to-pubkey-hash addresses (`1...`).
    Bip44,
    /// Pay-to-witness-pubkey-hash nested in pay-to-script-hash (`3...`).
    Bip49,
    /// Native SegWit pay-to-witness-pubkey-hash addresses (`bc1...`).
    Bip84,
}

/// Why a run cannot start.
#[derive(Debug, Clone, Copy, PartialEq, Eq, Structural)]
pub enum SetupError {
    /// No scheme flag was given and the address has no known prefix.
    AmbiguousScheme,
    /// The language tag names no supported wordlist.
    UnknownLanguage,
    /// The derivation path text does not parse.
    InvalidDerivationPath,
}

impl AddressType {
    /// The purpose field of the scheme's derivation path.
    pub open spec fn purpose(self) -> nat {
        match self {
            AddressType::Bip44 => 44,
            AddressType::Bip49 => 49,
            AddressType::Bip84 => 84,
        }
    }

    /// `m/{purpose}'/0'/0'/0/`: the path up to the address index.
    pub open spec fn path_prefix(self) -> Seq<char> {
        seq!['m', '/'] + decimal(self.purpose()) + seq!['\'', '/', '0', '\'', '/', '0', '\'', '/', '0', '/']
    }

    /// The full derivation path for an address index.
    pub open spec fn path_for(self, index: nat) -> Seq<char> {
        self.path_prefix() + decimal(index)
    }

    /// The human-readable name of the scheme.
    pub open spec fn label(self) -> Seq<char> {
        match self {
            AddressType::Bip44 => "BIP44 (Legacy P2PKH)"@,
            AddressType::Bip49 => "BIP49 (P2SH-wrapped SegWit)"@,
            AddressType::Bip84 => "BIP84 (Native SegWit)"@,
        }
    }

    /// The derivation path `m/{purpose}'/0'/0'/0/{index}` of this scheme.
    pub fn derivation_path(&self, index: u32) -> (r: String)
        ensures
            r@ == self.path_for(index as nat),
    {
        proof {
            reveal_strlit("m/");
            reveal_strlit("'/0'/0'/0/");
        }
        let mut s = String::from_str("m/");
        let purpose: usize = match self {
            AddressType::Bip44 => 44,
            AddressType::Bip49 => 49,
            AddressType::Bip84 => 84,
        };
        push_decimal(&mut s, purpose);
        s.append("'/0'/0'/0/");
        push_decimal(&mut s, index as usize);
        assert(s@ =~= self.path_for(index as nat));
        s
    }

    /// The human-readable name of the scheme.
    pub fn name(&self) -> (r: &'static str)
        ensures
            r@ == self.label(),
    {
        match self {
            AddressType::Bip44 => "BIP44 (Legacy P2PKH)",
            AddressType::Bip49 => "BIP49 (P2SH-wrapped SegWit)",
            AddressType::Bip84 => "BIP84 (Native SegWit)",
        }
    }
}

/// The scheme chosen by the flags, the first set of `bip84`, `bip49`, `bip44`;
/// with no flag, by the address prefix `bc1`, `3` or `1`; else none.
pub open spec fn scheme_choice(bip44: bool, bip49: bool, bip84: bool, address: Seq<char>) -> Option<AddressType> {
    if bip84 {
        Some(AddressType::Bip84)
    } else if bip49 {
        Some(AddressType::Bip49)
    } else if bip44 {
        Some(AddressType::Bip44)
    } else if has_prefix(address, seq!['b', 'c', '1']) {
        Some(AddressType::Bip84)
    } else if has_prefix(address, seq!['3']) {
        Some(AddressType::Bip49)
    } else if has_prefix(address, seq!['1']) {
        Some(AddressType::Bip44)
    } else {
        None
    }
}

/// Resolves the scheme from the explicit flags or, failing those, from the
/// prefix of the target address text. Never guesses.
pub fn resolve_scheme(bip44: bool, bip49: bool, bip84: bool, address: &str) -> (r: Result<AddressType, SetupError>)
    ensures
        r matches Ok(t) ==> scheme_choice(bip44, bip49, bip84, address@) == Some(t),
        r matches Err(e) ==> e == SetupError::AmbiguousScheme && scheme_choice(bip44, bip49, bip84, address@) is None,
{
    proof {
        reveal_strlit("bc1");
        reveal_strlit("3");
        reveal_strlit("1");
        assert("bc1"@ =~= seq!['b', 'c', '1']);
        assert("3"@ =~= seq!['3']);
        assert("1"@ =~= seq!['1']);
    }
    if bip84 {
        Ok(AddressType::Bip84)
    } else if bip49 {
        Ok(AddressType::Bip49)
    } else if bip44 {
        Ok(AddressType::Bip44)
    } else if starts_with(address, "bc1") {
        Ok(AddressType::Bip84)
    } else if starts_with(address, "3") {
        Ok(AddressType::Bip49)
    } else if starts_with(address, "1") {
        Ok(AddressType::Bip44)
    } else {
        Err(SetupError::AmbiguousScheme)
    }
}

} // verus!
