//! BIP-39 wordlist languages, their tags, and the detection heuristic.

use vstd::prelude::*;
use crate::scheme::SetupError;
use crate::text::starts_with;
use bip39::Language as Bip39Language;

verus! {

/// The supported BIP-39 wordlists.
#[derive(Debug, Clone, Copy, PartialEq, Eq, Structural)]
pub enum Language {
    English,
    Portuguese,
    Spanish,
    French,
    Italian,
    Czech,
    Korean,
    Japanese,
    SimplifiedChinese,
    TraditionalChinese,
}

/// The number of supported languages.
pub const LANGUAGE_COUNT: usize = 10;

/// The languages in the order detection tries them.
pub open spec fn language_at(i: int) -> Language {
    if i == 0 { Language::English }
    else if i == 1 { Language::Portuguese }
    else if i == 2 { Language::Spanish }
    else if i == 3 { Language::French }
    else if i == 4 { Language::Italian }
    else if i == 5 { Language::Czech }
    else if i == 6 { Language::Korean }
    else if i == 7 { Language::Japanese }
    else if i == 8 { Language::SimplifiedChinese }
    else { Language::TraditionalChinese }
}

impl Language {
    /// The position of the language in detection order.
    pub open spec fn order(self) -> int {
        match self {
            Language::English => 0,
            Language::Portuguese => 1,
            Language::Spanish => 2,
            Language::French => 3,
            Language::Italian => 4,
            Language::Czech => 5,
            Language::Korean => 6,
            Language::Japanese => 7,
            Language::SimplifiedChinese => 8,
            Language::TraditionalChinese => 9,
        }
    }

    /// The lower-case tag that names the language.
    pub open spec fn tag(self) -> Seq<char> {
        match self {
            Language::English => "english"@,
            Language::Portuguese => "portuguese"@,
            Language::Spanish => "spanish"@,
            Language::French => "french"@,
            Language::Italian => "italian"@,
            Language::Czech => "czech"@,
            Language::Korean => "korean"@,
            Language::Japanese => "japanese"@,
            Language::SimplifiedChinese => "chinese-simplified"@,
            Language::TraditionalChinese => "chinese-traditional"@,
        }
    }
}

fn language_at_exec(i: usize) -> (r: Language)
    ensures
        r == language_at(i as int),
{
    if i == 0 { Language::English }
    else if i == 1 { Language::Portuguese }
    else if i == 2 { Language::Spanish }
    else if i == 3 { Language::French }
    else if i == 4 { Language::Italian }
    else if i == 5 { Language::Czech }
    else if i == 6 { Language::Korean }
    else if i == 7 { Language::Japanese }
    else if i == 8 { Language::SimplifiedChinese }
    else { Language::TraditionalChinese }
}

/// The language whose tag is `t`, if any.
pub open spec fn language_of_tag(t: Seq<char>) -> Option<Language> {
    if t == Language::English.tag() { Some(Language::English) }
    else if t == Language::Portuguese.tag() { Some(Language::Portuguese) }
    else if t == Language::Spanish.tag() { Some(Language::Spanish) }
    else if t == Language::French.tag() { Some(Language::French) }
    else if t == Language::Italian.tag() { Some(Language::Italian) }
    else if t == Language::Czech.tag() { Some(Language::Czech) }
    else if t == Language::Korean.tag() { Some(Language::Korean) }
    else if t == Language::Japanese.tag() { Some(Language::Japanese) }
    else if t == Language::SimplifiedChinese.tag() { Some(Language::SimplifiedChinese) }
    else if t == Language::TraditionalChinese.tag() { Some(Language::TraditionalChinese) }
    else { None }
}

/// What `str::to_lowercase` makes of a text.
pub uninterp spec fn lower_of(s: Seq<char>) -> Seq<char>;

/// Relies on `str::to_lowercase`: the Unicode lower case of `s`, which
/// depends on its characters alone.
#[verifier::external_body]
fn lowercase(s: &str) -> (r: String)
    ensures
        r@ == lower_of(s@),
{
    s.to_lowercase()
}

/// Whether two texts are equal.
pub fn same_text(a: &str, b: &str) -> (r: bool)
    ensures
        r == (a@ == b@),
{
    let r = a.unicode_len() == b.unicode_len() && starts_with(a, b);
    proof {
        if r {
            assert(a@.subrange(0, b@.len() as int) =~= a@);
        }
    }
    r
}

/// The language named by a tag, compared without regard to case.
pub fn parse_language(lang: &str) -> (r: Result<Language, SetupError>)
    ensures
        r == (match language_of_tag(lower_of(lang@)) {
            Some(l) => Ok::<Language, SetupError>(l),
            None => Err(SetupError::UnknownLanguage),
        }),
{
    let low = lowercase(lang);
    let t = low.as_str();
    if same_text(t, "english") { Ok(Language::English) }
    else if same_text(t, "portuguese") { Ok(Language::Portuguese) }
    else if same_text(t, "spanish") { Ok(Language::Spanish) }
    else if same_text(t, "french") { Ok(Language::French) }
    else if same_text(t, "italian") { Ok(Language::Italian) }
    else if same_text(t, "czech") { Ok(Language::Czech) }
    else if same_text(t, "korean") { Ok(Language::Korean) }
    else if same_text(t, "japanese") { Ok(Language::Japanese) }
    else if same_text(t, "chinese-simplified") { Ok(Language::SimplifiedChinese) }
    else if same_text(t, "chinese-traditional") { Ok(Language::TraditionalChinese) }
    else { Err(SetupError::UnknownLanguage) }
}

/// The tag of a language.
pub fn language_name(lang: Language) -> (r: &'static str)
    ensures
        r@ == lang.tag(),
{
    match lang {
        Language::English => "english",
        Language::Portuguese => "portuguese",
        Language::Spanish => "spanish",
        Language::French => "french",
        Language::Italian => "italian",
        Language::Czech => "czech",
        Language::Korean => "korean",
        Language::Japanese => "japanese",
        Language::SimplifiedChinese => "chinese-simplified",
        Language::TraditionalChinese => "chinese-traditional",
    }
}


#[verifier::external_type_specification]
#[verifier::external_body]
pub struct ExBip39Language(Bip39Language);

/// Relies on `bip39::Language`: the wordlist of the same name.
#[verifier::external_body]
pub(crate) fn bip39_language(lang: Language) -> Bip39Language {
    match lang {
        Language::English => bip39::Language::English,
        Language::Portuguese => bip39::Language::Portuguese,
        Language::Spanish => bip39::Language::Spanish,
        Language::French => bip39::Language::French,
        Language::Italian => bip39::Language::Italian,
        Language::Czech => bip39::Language::Czech,
        Language::Korean => bip39::Language::Korean,
        Language::Japanese => bip39::Language::Japanese,
        Language::SimplifiedChinese => bip39::Language::SimplifiedChinese,
        Language::TraditionalChinese => bip39::Language::TraditionalChinese,
    }
}

/// The words of a language's BIP-39 list, in list order.
pub uninterp spec fn wordlist(lang: Language) -> Seq<Seq<char>>;

/// Relies on `bip39::Language::word_list`: the language's 2048 words.
#[verifier::external_body]
fn word_list(lang: Language) -> (r: &'static [&'static str])
    ensures
        r@.len() == 2048,
        r@.map_values(|w: &str| w@) == wordlist(lang),
{
    bip39_language(lang).word_list()
}

/// Whether `c` is an upper-case ASCII letter.
pub open spec fn is_ascii_upper(c: char) -> bool {
    65 <= (c as u32) <= 90
}

/// Whether two characters are equal up to ASCII case.
pub open spec fn chars_match_ci(a: char, b: char) -> bool {
    a == b
    || (is_ascii_upper(a) && (a as u32) + 32 == (b as u32))
    || (is_ascii_upper(b) && (b as u32) + 32 == (a as u32))
}

/// Whether two texts are equal up to ASCII case.
pub open spec fn ascii_ci_eq(a: Seq<char>, b: Seq<char>) -> bool {
    a.len() == b.len() && forall|i: int| 0 <= i < a.len() ==> chars_match_ci(#[trigger] a[i], b[i])
}

/// Relies on `str::eq_ignore_ascii_case`: equality after mapping `A`..`Z`
/// to `a`..`z`, other characters unchanged.
#[verifier::external_body]
fn eq_ignore_ascii_case(a: &str, b: &str) -> (r: bool)
    ensures
        r == ascii_ci_eq(a@, b@),
{
    a.eq_ignore_ascii_case(b)
}

/// Whether `w` matches a word of the language's list, up to ASCII case.
pub open spec fn in_wordlist(lang: Language, w: Seq<char>) -> bool {
    exists|i: int| 0 <= i < wordlist(lang).len() && ascii_ci_eq(#[trigger] wordlist(lang)[i], w)
}

/// The views of a list of words.
pub open spec fn texts(words: Seq<String>) -> Seq<Seq<char>> {
    words.map_values(|w: String| w@)
}

/// How many of `words` match the language's list.
pub open spec fn score(lang: Language, words: Seq<Seq<char>>) -> nat
    decreases words.len(),
{
    if words.len() == 0 {
        0
    } else {
        score(lang, words.drop_last()) + if in_wordlist(lang, words.last()) { 1nat } else { 0nat }
    }
}

/// Detection from the `k`-th language on, with the best language so far and
/// its score: the first language that matches every word wins at once; after
/// the last language, the first best one wins if it matched at least half.
pub open spec fn detect_from(words: Seq<Seq<char>>, k: int, best: Option<Language>, best_count: nat) -> Option<Language>
    decreases 10 - k,
{
    if k >= 10 || k < 0 {
        if best_count >= words.len() / 2 { best } else { None }
    } else {
        let lang = language_at(k);
        let c = score(lang, words);
        if c == words.len() {
            Some(lang)
        } else if c > best_count {
            detect_from(words, k + 1, Some(lang), c)
        } else {
            detect_from(words, k + 1, best, best_count)
        }
    }
}

/// The language that detection picks for `words`, if any.
pub open spec fn detected(words: Seq<Seq<char>>) -> Option<Language> {
    detect_from(words, 0, None, 0)
}

fn matches_wordlist(list: &[&str], lang: Language, w: &str) -> (r: bool)
    requires
        list@.map_values(|x: &str| x@) == wordlist(lang),
    ensures
        r == in_wordlist(lang, w@),
{
    let mut i: usize = 0;
    while i < list.len()
        invariant
            list@.map_values(|x: &str| x@) == wordlist(lang),
            i <= list@.len(),
            forall|j: int| 0 <= j < i ==> !ascii_ci_eq(#[trigger] wordlist(lang)[j], w@),
        decreases list.len() - i,
    {
        assert(list@[i as int]@ == wordlist(lang)[i as int]);
        if eq_ignore_ascii_case(list[i], w) {
            return true;
        }
        i = i + 1;
    }
    false
}

fn language_score(lang: Language, words: &[String]) -> (r: usize)
    ensures
        r == score(lang, texts(words@)),
        r <= words@.len(),
{
    let list = word_list(lang);
    let mut count: usize = 0;
    let mut j: usize = 0;
    while j < words.len()
        invariant
            list@.map_values(|x: &str| x@) == wordlist(lang),
            j <= words@.len(),
            count <= j,
            count == score(lang, texts(words@.subrange(0, j as int))),
        decreases words.len() - j,
    {
        let hit = matches_wordlist(list, lang, words[j].as_str());
        proof {
            let pre = texts(words@.subrange(0, j as int));
            let next = texts(words@.subrange(0, j + 1));
            assert(next.drop_last() =~= pre);
            assert(next.last() == words@[j as int]@);
        }
        if hit {
            count = count + 1;
        }
        j = j + 1;
    }
    assert(words@.subrange(0, words@.len() as int) =~= words@);
    count
}

/// Guesses the language of `words`: the first language whose list holds every
/// word; otherwise the first best-scoring language if it holds at least half
/// of them; otherwise none.
pub fn detect_language(words: &[String]) -> (r: Option<Language>)
    ensures
        r == detected(texts(words@)),
{
    let ghost ws = texts(words@);
    let mut best: Option<Language> = None;
    let mut best_count: usize = 0;
    let mut k: usize = 0;
    while k < LANGUAGE_COUNT
        invariant
            k <= 10,
            best_count <= words@.len(),
            ws == texts(words@),
            detected(ws) == detect_from(ws, k as int, best, best_count as nat),
        decreases 10 - k,
    {
        let lang = language_at_exec(k);
        let c = language_score(lang, words);
        if c == words.len() {
            return Some(lang);
        }
        if c > best_count {
            best_count = c;
            best = Some(lang);
        }
        k = k + 1;
    }
    if best_count >= words.len() / 2 {
        best
    } else {
        None
    }
}

/// How the language of a run was settled.
#[derive(Debug, Clone, Copy, PartialEq, Eq, Structural)]
pub enum Detection {
    /// The caller named it.
    Explicit,
    /// Detection found it.
    Detected,
    /// Detection was inconclusive; the default, English, stands in.
    Fallback,
}

/// The language of a run and how it was settled.
#[derive(Debug, Clone, Copy, PartialEq, Eq, Structural)]
pub struct LanguageChoice {
    pub language: Language,
    pub detection: Detection,
}

/// The tag that asks for detection: the default tag, `english`.
pub open spec fn detection_requested(requested: Seq<char>) -> bool {
    requested == Language::English.tag()
}

/// Settles the language: a tag other than the default `english` is parsed
/// and used as given; the default runs detection, with English as fallback.
pub fn resolve_language(words: &[String], requested: &str) -> (r: Result<LanguageChoice, SetupError>)
    ensures
        detection_requested(requested@) ==> r == Ok::<LanguageChoice, SetupError>(match detected(texts(words@)) {
            Some(l) => LanguageChoice { language: l, detection: Detection::Detected },
            None => LanguageChoice { language: Language::English, detection: Detection::Fallback },
        }),
        !detection_requested(requested@) ==> r == (match language_of_tag(lower_of(requested@)) {
            Some(l) => Ok::<LanguageChoice, SetupError>(LanguageChoice { language: l, detection: Detection::Explicit }),
            None => Err(SetupError::UnknownLanguage),
        }),
{
    if same_text(requested, "english") {
        match detect_language(words) {
            Some(l) => Ok(LanguageChoice { language: l, detection: Detection::Detected }),
            None => Ok(LanguageChoice { language: Language::English, detection: Detection::Fallback }),
        }
    } else {
        match parse_language(requested) {
            Ok(l) => Ok(LanguageChoice { language: l, detection: Detection::Explicit }),
            Err(e) => Err(e),
        }
    }
}

/// A score never exceeds the number of words, and reaches it exactly when
/// every word is on the list.
pub proof fn lemma_score_full(lang: Language, words: Seq<Seq<char>>)
    ensures
        score(lang, words) <= words.len(),
        score(lang, words) == words.len() <==> forall|i: int| 0 <= i < words.len() ==> in_wordlist(lang, #[trigger] words[i]),
    decreases words.len(),
{
    if words.len() > 0 {
        let init = words.drop_last();
        lemma_score_full(lang, init);
        if score(lang, words) == words.len() {
            assert forall|i: int| 0 <= i < words.len() implies in_wordlist(lang, #[trigger] words[i]) by {
                if i < words.len() - 1 {
                    assert(init[i] == words[i]);
                }
            }
        }
        if forall|i: int| 0 <= i < words.len() ==> in_wordlist(lang, #[trigger] words[i]) {
            assert forall|i: int| 0 <= i < init.len() implies in_wordlist(lang, #[trigger] init[i]) by {
                assert(init[i] == words[i]);
            }
            assert(in_wordlist(lang, words[words.len() - 1]));
        }
    }
}

/// `language_at` and `order` are inverse.
pub proof fn lemma_language_order(lang: Language)
    ensures
        0 <= lang.order() < 10,
        language_at(lang.order()) == lang,
        forall|i: int| 0 <= i < 10 ==> (#[trigger] language_at(i)).order() == i,
{
}

proof fn lemma_detect_reaches(words: Seq<Seq<char>>, lang: Language, k: int, best: Option<Language>, best_count: nat)
    requires
        0 <= k <= lang.order(),
        score(lang, words) == words.len(),
        forall|i: int| k <= i < lang.order() ==> score(#[trigger] language_at(i), words) != words.len(),
    ensures
        detect_from(words, k, best, best_count) == Some(lang),
    decreases lang.order() - k,
{
    lemma_language_order(lang);
    if k < lang.order() {
        let c = score(language_at(k), words);
        if c > best_count {
            lemma_detect_reaches(words, lang, k + 1, Some(language_at(k)), c);
        } else {
            lemma_detect_reaches(words, lang, k + 1, best, best_count);
        }
    }
}

/// When every word is on the list of `lang` and on no other list, detection
/// picks `lang`.
pub proof fn lemma_unique_wordlist_detected(words: Seq<Seq<char>>, lang: Language)
    requires
        words.len() == 12 || words.len() == 24,
        forall|i: int| 0 <= i < words.len() ==> in_wordlist(lang, #[trigger] words[i]),
        forall|i: int, other: Language| 0 <= i < words.len() && other != lang
            ==> !#[trigger] in_wordlist(other, words[i]),
    ensures
        detected(words) == Some(lang),
{
    lemma_score_full(lang, words);
    lemma_language_order(lang);
    assert forall|i: int| 0 <= i < lang.order() implies score(#[trigger] language_at(i), words) != words.len() by {
        let other = language_at(i);
        lemma_score_full(other, words);
        assert(!in_wordlist(other, words[0]));
    }
    lemma_detect_reaches(words, lang, 0, None, 0);
}

proof fn lemma_detect_falls_back(words: Seq<Seq<char>>, k: int, best: Option<Language>, best_count: nat)
    requires
        0 <= k <= 10,
        best_count * 2 < words.len(),
        words.len() % 2 == 0,
        forall|i: int| k <= i < 10 ==> score(#[trigger] language_at(i), words) * 2 < words.len(),
    ensures
        detect_from(words, k, best, best_count) is None,
    decreases 10 - k,
{
    if k < 10 {
        let c = score(language_at(k), words);
        if c > best_count {
            lemma_detect_falls_back(words, k + 1, Some(language_at(k)), c);
        } else {
            lemma_detect_falls_back(words, k + 1, best, best_count);
        }
    }
}

/// When fewer than half of the words match any one list, detection finds
/// nothing (so the default tag resolves to the English fallback).
pub proof fn lemma_low_scores_fall_back(words: Seq<Seq<char>>)
    requires
        words.len() == 12 || words.len() == 24,
        forall|i: int| 0 <= i < 10 ==> score(#[trigger] language_at(i), words) * 2 < words.len(),
    ensures
        detected(words) is None,
{
    lemma_detect_falls_back(words, 0, None, 0);
}

} // verus!
