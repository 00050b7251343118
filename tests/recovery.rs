use word_order::language::{detect_language, language_name, parse_language, resolve_language, Detection, Language};
use word_order::pipeline::{derive_address, parse_derivation_path, PipelineSkip};
use word_order::scheme::{resolve_scheme, AddressType, SetupError};
use word_order::search::{evaluate_match, search_permutations, SearchRun};
use word_order::text::{decimal_text, format_number, starts_with};

const KNOWN: &str = "abandon abandon abandon abandon abandon abandon abandon abandon abandon abandon abandon about";
const KNOWN_BIP84_ADDRESS: &str = "bc1qcr8te4kr609gcawutmrza0j4xv80jy8z306fyu";
const KNOWN_BIP44_ADDRESS: &str = "1LqBGSKuX5yYUonjxT5qGfpUsXKYYWeabA";

fn words(list: &[&str]) -> Vec<String> {
    list.iter().map(|w| w.to_string()).collect()
}

/// The known mnemonic's words with the last two swapped.
fn shuffled_known() -> Vec<String> {
    let mut w: Vec<String> = KNOWN.split(' ').map(|s| s.to_string()).collect();
    w.swap(10, 11);
    w
}

fn english_unique() -> Vec<&'static str> {
    vec!["ability", "able", "about", "above", "absent", "absorb", "abstract", "absurd", "abuse", "access", "accident", "account"]
}

fn spanish_unique() -> Vec<&'static str> {
    vec!["ábaco", "abdomen", "abeja", "abierto", "abogado", "abono", "aborto", "abrazo", "abrir", "abuelo", "abuso", "acabar"]
}

#[test]
fn decimal_text_writes_digits() {
    assert_eq!(decimal_text(0), "0");
    assert_eq!(decimal_text(7), "7");
    assert_eq!(decimal_text(1234567), "1234567");
}

#[test]
fn format_number_labels() {
    assert_eq!(format_number(0), "0");
    assert_eq!(format_number(999), "999");
    assert_eq!(format_number(1_000), "1.0K");
    assert_eq!(format_number(1_050), "1.1K");
    assert_eq!(format_number(1_049), "1.0K");
    assert_eq!(format_number(100_000), "100.0K");
    assert_eq!(format_number(1_000_000), "1.0M");
    assert_eq!(format_number(1_234_567), "1.2M");
    assert_eq!(format_number(2_500_000_000), "2.5G");
}

#[test]
fn starts_with_prefixes() {
    assert!(starts_with("bc1qxyz", "bc1"));
    assert!(starts_with("abc", ""));
    assert!(!starts_with("bc", "bc1"));
    assert!(!starts_with("xbc1", "bc1"));
}

#[test]
fn derivation_paths_per_scheme() {
    assert_eq!(AddressType::Bip44.derivation_path(0), "m/44'/0'/0'/0/0");
    assert_eq!(AddressType::Bip49.derivation_path(3), "m/49'/0'/0'/0/3");
    assert_eq!(AddressType::Bip84.derivation_path(4294967295), "m/84'/0'/0'/0/4294967295");
}

#[test]
fn scheme_names() {
    assert_eq!(AddressType::Bip44.name(), "BIP44 (Legacy P2PKH)");
    assert_eq!(AddressType::Bip49.name(), "BIP49 (P2SH-wrapped SegWit)");
    assert_eq!(AddressType::Bip84.name(), "BIP84 (Native SegWit)");
}

#[test]
fn scheme_from_prefix() {
    assert_eq!(resolve_scheme(false, false, false, "bc1qabc"), Ok(AddressType::Bip84));
    assert_eq!(resolve_scheme(false, false, false, "3Abc"), Ok(AddressType::Bip49));
    assert_eq!(resolve_scheme(false, false, false, "1Abc"), Ok(AddressType::Bip44));
    assert_eq!(resolve_scheme(false, false, false, "tb1qabc"), Err(SetupError::AmbiguousScheme));
    assert_eq!(resolve_scheme(false, false, false, ""), Err(SetupError::AmbiguousScheme));
}

#[test]
fn scheme_from_flags() {
    assert_eq!(resolve_scheme(true, false, false, "bc1qabc"), Ok(AddressType::Bip44));
    assert_eq!(resolve_scheme(false, true, false, "1Abc"), Ok(AddressType::Bip49));
    assert_eq!(resolve_scheme(false, false, true, "xyz"), Ok(AddressType::Bip84));
}

#[test]
fn language_tags_round_trip() {
    let all = [
        Language::English,
        Language::Portuguese,
        Language::Spanish,
        Language::French,
        Language::Italian,
        Language::Czech,
        Language::Korean,
        Language::Japanese,
        Language::SimplifiedChinese,
        Language::TraditionalChinese,
    ];
    for l in all {
        assert_eq!(parse_language(language_name(l)), Ok(l));
    }
    assert_eq!(language_name(Language::SimplifiedChinese), "chinese-simplified");
}

#[test]
fn parse_language_ignores_case() {
    assert_eq!(parse_language("FRENCH"), Ok(Language::French));
    assert_eq!(parse_language("Chinese-Traditional"), Ok(Language::TraditionalChinese));
    assert_eq!(parse_language("klingon"), Err(SetupError::UnknownLanguage));
}

#[test]
fn detects_unique_english() {
    assert_eq!(detect_language(&words(&english_unique())), Some(Language::English));
}

#[test]
fn detects_english_ignoring_ascii_case() {
    let upper: Vec<String> = english_unique().iter().map(|w| w.to_uppercase()).collect();
    assert_eq!(detect_language(&upper), Some(Language::English));
}

#[test]
fn detects_unique_spanish_regardless_of_default() {
    let w = words(&spanish_unique());
    assert_eq!(detect_language(&w), Some(Language::Spanish));
    let choice = resolve_language(&w, "english").unwrap();
    assert_eq!(choice.language, Language::Spanish);
    assert_eq!(choice.detection, Detection::Detected);
}

#[test]
fn half_match_is_enough() {
    let mut w = spanish_unique()[1..7].to_vec();
    w.extend(["qqq", "www", "eee", "rrr", "ttt", "yyy"]);
    assert_eq!(detect_language(&words(&w)), Some(Language::Spanish));
}

#[test]
fn below_half_falls_back() {
    let mut w = english_unique()[..5].to_vec();
    w.extend(["qqq", "www", "eee", "rrr", "ttt", "yyy", "uuu"]);
    let w = words(&w);
    assert_eq!(detect_language(&w), None);
    let choice = resolve_language(&w, "english").unwrap();
    assert_eq!(choice.language, Language::English);
    assert_eq!(choice.detection, Detection::Fallback);
}

#[test]
fn explicit_language_is_kept() {
    let w = words(&english_unique());
    let choice = resolve_language(&w, "Italian").unwrap();
    assert_eq!(choice.language, Language::Italian);
    assert_eq!(choice.detection, Detection::Explicit);
    assert_eq!(resolve_language(&w, "latin"), Err(SetupError::UnknownLanguage));
}

#[test]
fn bad_derivation_path_is_rejected() {
    assert!(parse_derivation_path("m/x'/0").is_err());
    assert!(parse_derivation_path("m/84'/0'/0'/0/0").is_ok());
}

#[test]
fn known_mnemonic_native_segwit_address() {
    let path = parse_derivation_path("m/84'/0'/0'/0/0").unwrap();
    assert_eq!(derive_address(KNOWN, Language::English, AddressType::Bip84, &path), Ok(KNOWN_BIP84_ADDRESS.to_string()));
}

#[test]
fn known_mnemonic_legacy_address() {
    let path = parse_derivation_path("m/44'/0'/0'/0/0").unwrap();
    assert_eq!(derive_address(KNOWN, Language::English, AddressType::Bip44, &path), Ok(KNOWN_BIP44_ADDRESS.to_string()));
}

#[test]
fn known_mnemonic_wrapped_segwit_address_form() {
    let path = parse_derivation_path("m/49'/0'/0'/0/0").unwrap();
    let a = derive_address(KNOWN, Language::English, AddressType::Bip49, &path).unwrap();
    assert!(a.starts_with('3'));
    assert_ne!(a, KNOWN_BIP44_ADDRESS);
}

#[test]
fn bad_checksum_is_skipped() {
    let path = parse_derivation_path("m/84'/0'/0'/0/0").unwrap();
    let phrase = "about abandon abandon abandon abandon abandon abandon abandon abandon abandon abandon abandon";
    assert_eq!(derive_address(phrase, Language::English, AddressType::Bip84, &path), Err(PipelineSkip::InvalidMnemonic));
}

#[test]
fn search_finds_shuffled_mnemonic() {
    let w = shuffled_known();
    let r = search_permutations(&w, KNOWN_BIP84_ADDRESS, 10, Language::English, AddressType::Bip84, 0).unwrap();
    assert!(r.found);
    assert_eq!(r.trial_index, 1);
    assert_eq!(r.phrase.as_deref(), Some(KNOWN));
    assert_eq!(r.address.as_deref(), Some(KNOWN_BIP84_ADDRESS));
    assert_eq!(r.path, "m/84'/0'/0'/0/0");
    assert_eq!(r.scheme, AddressType::Bip84);
}

#[test]
fn search_is_deterministic() {
    let w = shuffled_known();
    let a = search_permutations(&w, KNOWN_BIP44_ADDRESS, 5, Language::English, AddressType::Bip44, 0).unwrap();
    let b = search_permutations(&w, KNOWN_BIP44_ADDRESS, 5, Language::English, AddressType::Bip44, 0).unwrap();
    assert!(a.found && b.found);
    assert_eq!(a.trial_index, b.trial_index);
    assert_eq!(a.phrase, b.phrase);
}

#[test]
fn search_cap_below_match_finds_nothing() {
    let w = shuffled_known();
    let r = search_permutations(&w, KNOWN_BIP84_ADDRESS, 1, Language::English, AddressType::Bip84, 0).unwrap();
    assert!(!r.found);
    assert_eq!(r.trial_index, 1);
    assert_eq!(r.phrase, None);
    let r0 = search_permutations(&w, KNOWN_BIP84_ADDRESS, 0, Language::English, AddressType::Bip84, 0).unwrap();
    assert!(!r0.found);
    assert_eq!(r0.trial_index, 0);
}

#[test]
fn search_counts_invalid_orderings() {
    // Moving "about" to the front makes every ordering considered here fail
    // the checksum; all of them still count toward the cap.
    let mut w: Vec<String> = KNOWN.split(' ').map(|s| s.to_string()).collect();
    w.rotate_right(1);
    let r = search_permutations(&w, KNOWN_BIP84_ADDRESS, 6, Language::English, AddressType::Bip84, 0).unwrap();
    assert!(!r.found);
    assert_eq!(r.trial_index, 6);
}

#[test]
fn search_small_set_exhausts_all_orderings() {
    // Three words have 3! = 6 orderings, none a valid mnemonic.
    let w = words(&["abandon", "ability", "able"]);
    let r = search_permutations(&w, KNOWN_BIP84_ADDRESS, 1_000, Language::English, AddressType::Bip84, 0).unwrap();
    assert!(!r.found);
    assert_eq!(r.trial_index, 6);
}

#[test]
fn evaluate_match_packages_result() {
    let r = evaluate_match("abc".to_string(), "abc", 7, "one two".to_string(), AddressType::Bip49, "m/49'/0'/0'/0/0").unwrap();
    assert!(r.found);
    assert_eq!(r.trial_index, 7);
    assert_eq!(r.phrase.as_deref(), Some("one two"));
    assert_eq!(r.address.as_deref(), Some("abc"));
    assert_eq!(r.path, "m/49'/0'/0'/0/0");
    assert!(evaluate_match("abd".to_string(), "abc", 7, "one two".to_string(), AddressType::Bip49, "m").is_none());
}

#[test]
fn search_run_in_slices() {
    let w = words(&["abandon", "ability", "able"]);
    let mut run = SearchRun::start(&w, KNOWN_BIP84_ADDRESS, 100, Language::English, AddressType::Bip84, 0).unwrap();
    assert!(run.advance(2).is_none());
    assert_eq!(run.considered(), 2);
    assert!(run.advance(2).is_none());
    assert_eq!(run.considered(), 4);
    let r = run.advance(5).unwrap();
    assert!(!r.found);
    assert_eq!(r.trial_index, 6);
}

#[test]
fn search_run_finds_in_slices() {
    let w = shuffled_known();
    let mut run = SearchRun::start(&w, KNOWN_BIP84_ADDRESS, 100, Language::English, AddressType::Bip84, 0).unwrap();
    assert!(run.advance(1).is_none());
    let r = run.advance(1).unwrap();
    assert!(r.found);
    assert_eq!(r.trial_index, 1);
    assert_eq!(r.phrase.as_deref(), Some(KNOWN));
}
