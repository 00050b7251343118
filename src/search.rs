//! The permutation search: every ordering of the words, in lexicographic
//! order of their positions, up to a trial cap, stopping at the first whose
//! derived address is the target.

use vstd::prelude::*;
use vstd::string::*;
use std::ops::Range;
use itertools::Itertools;
use itertools::structs::Permutations;
use bitcoin::bip32::DerivationPath;
use bitcoin::bip32::Error as Bip32Error;
use crate::language::{same_text, texts, Language};
use crate::pipeline::{derive_address, parse_derivation_path, path_parse, pipeline, PipelineSkip};
use crate::scheme::{AddressType, SetupError};

verus! {

/// `n!`.
pub open spec fn factorial(n: nat) -> nat
    decreases n,
{
    if n == 0 { 1 } else { n * factorial((n - 1) as nat) }
}

/// The position, among `len` items, of the first item of the `k`-th
/// ordering: `k / (len-1)!` (for `k < len!` this is below `len`).
pub open spec fn head_position(len: nat, k: nat) -> int {
    let q = (k / factorial((len - 1) as nat)) as int;
    if 0 <= q < len { q } else { 0 }
}

/// The `k`-th ordering of `items` in lexicographic order of positions: the
/// item at `head_position`, then the `k % (len-1)!`-th ordering of the rest.
pub open spec fn unrank(items: Seq<usize>, k: nat) -> Seq<usize>
    decreases items.len(),
{
    if items.len() == 0 {
        Seq::empty()
    } else {
        seq![items[head_position(items.len(), k)]]
            + unrank(items.remove(head_position(items.len(), k)), rest_rank(items.len(), k))
    }
}

/// The rank, among the orderings of the remaining items, of what follows the
/// first item of the `k`-th ordering of `len` items: `k % (len-1)!`.
pub open spec fn rest_rank(len: nat, k: nat) -> nat {
    k % factorial((len - 1) as nat)
}

/// The positions `0..n`.
pub open spec fn positions(n: nat) -> Seq<usize> {
    Seq::new(n, |i: int| i as usize)
}

/// The `k`-th ordering of the positions `0..n`.
pub open spec fn lex_ordering(n: nat, k: nat) -> Seq<usize> {
    unrank(positions(n), k)
}

#[verifier::external_type_specification]
#[verifier::external_body]
#[verifier::reject_recursive_types(I)]
pub struct ExPermutations<I: Iterator>(Permutations<I>);

/// How many orderings a permutation iterator has handed out.
pub uninterp spec fn orderings_emitted(p: Permutations<Range<usize>>) -> nat;

/// How many positions a permutation iterator orders.
pub uninterp spec fn orderings_width(p: Permutations<Range<usize>>) -> nat;

/// Relies on `itertools::Itertools::permutations`: the orderings of `0..n`,
/// none handed out yet.
#[verifier::external_body]
fn index_orderings(n: usize) -> (r: Permutations<Range<usize>>)
    ensures
        orderings_emitted(r) == 0,
        orderings_width(r) == n,
{
    (0..n).permutations(n)
}

/// Relies on `itertools::structs::Permutations::next`: each of the `n!`
/// orderings once, in lexicographic order of positions, then `None` for good.
#[verifier::external_body]
fn next_ordering(p: &mut Permutations<Range<usize>>) -> (r: Option<Vec<usize>>)
    ensures
        orderings_width(*final(p)) == orderings_width(*old(p)),
        orderings_emitted(*old(p)) < factorial(orderings_width(*old(p))) ==> {
            &&& r matches Some(v)
            &&& v@ == lex_ordering(orderings_width(*old(p)), orderings_emitted(*old(p)))
            &&& orderings_emitted(*final(p)) == orderings_emitted(*old(p)) + 1
        },
        orderings_emitted(*old(p)) >= factorial(orderings_width(*old(p))) ==> {
            &&& r is None
            &&& orderings_emitted(*final(p)) == orderings_emitted(*old(p))
        },
{
    p.next()
}


/// `n!` is positive.
pub proof fn lemma_factorial_positive(n: nat)
    ensures
        factorial(n) >= 1,
    decreases n,
{
    if n > 0 {
        lemma_factorial_positive((n - 1) as nat);
        assert(n * factorial((n - 1) as nat) >= 1) by (nonlinear_arith)
            requires
                n >= 1,
                factorial((n - 1) as nat) >= 1,
        ;
    }
}

/// For `k < len!` the quotient `k / (len-1)!` is a position of `items`, and
/// the remainder is below `(len-1)!`.
pub proof fn lemma_unrank_step(len: nat, k: nat)
    requires
        len >= 1,
        k < factorial(len),
    ensures
        0 <= k / factorial((len - 1) as nat) < len,
        k % factorial((len - 1) as nat) < factorial((len - 1) as nat),
{
    let f = factorial((len - 1) as nat);
    lemma_factorial_positive((len - 1) as nat);
    let q = k / f;
    vstd::arithmetic::div_mod::lemma_fundamental_div_mod(k as int, f as int);
    vstd::arithmetic::div_mod::lemma_mod_pos_bound(k as int, f as int);
    if q >= len {
        assert(q * f >= len * f) by (nonlinear_arith)
            requires
                q >= len,
                f >= 1,
        ;
        assert(factorial(len) == len * f);
    }
}

/// An ordering of `items` ranked below `len!` holds `len` of the items.
pub proof fn lemma_unrank_shape(items: Seq<usize>, k: nat)
    requires
        k < factorial(items.len()),
    ensures
        unrank(items, k).len() == items.len(),
        forall|i: int| 0 <= i < items.len() ==> items.contains(#[trigger] unrank(items, k)[i]),
    decreases items.len(),
{
    if items.len() > 0 {
        let f = factorial((items.len() - 1) as nat);
        lemma_unrank_step(items.len(), k);
        let q = (k / f) as int;
        let rest = items.remove(q);
        lemma_unrank_shape(rest, k % f);
        let r = unrank(items, k);
        assert(head_position(items.len(), k) == q);
        assert(rest_rank(items.len(), k) == k % f);
        assert(r == seq![items[q]] + unrank(rest, k % f));
        assert forall|i: int| 0 <= i < items.len() implies items.contains(#[trigger] r[i]) by {
            if i == 0 {
                assert(r[0] == items[q]);
            } else {
                let x = unrank(rest, k % f)[i - 1];
                assert(r[i] == x);
                assert(rest.contains(x));
                let j = choose|j: int| 0 <= j < rest.len() && rest[j] == x;
                if j < q {
                    assert(items[j] == x);
                } else {
                    assert(items[j + 1] == x);
                }
            }
        }
    }
}

/// The `k`-th ordering of `0..n`, for `k < n!`, holds `n` positions below `n`.
pub proof fn lemma_lex_ordering_shape(n: nat, k: nat)
    requires
        k < factorial(n),
    ensures
        lex_ordering(n, k).len() == n,
        forall|i: int| 0 <= i < n ==> (#[trigger] lex_ordering(n, k)[i]) < n,
{
    lemma_unrank_shape(positions(n), k);
    assert forall|i: int| 0 <= i < n implies (#[trigger] lex_ordering(n, k)[i]) < n by {
        assert(positions(n).contains(lex_ordering(n, k)[i]));
    }
}

/// Words joined by single spaces.
pub open spec fn join_words(ws: Seq<Seq<char>>) -> Seq<char>
    decreases ws.len(),
{
    if ws.len() == 0 {
        Seq::empty()
    } else if ws.len() == 1 {
        ws[0]
    } else {
        join_words(ws.drop_last()) + seq![' '] + ws.last()
    }
}

/// The words taken in the order of `order`.
pub open spec fn arranged(words: Seq<Seq<char>>, order: Seq<usize>) -> Seq<Seq<char>> {
    order.map_values(|j: usize| words[j as int])
}

/// The phrase of the `k`-th ordering of `words`.
pub open spec fn candidate(words: Seq<Seq<char>>, k: nat) -> Seq<char> {
    join_words(arranged(words, lex_ordering(words.len(), k)))
}

/// Whether the `k`-th ordering of `words` derives the target address.
pub open spec fn matches_target(
    words: Seq<Seq<char>>,
    k: nat,
    target: Seq<char>,
    lang: Language,
    scheme: AddressType,
    path: DerivationPath,
) -> bool {
    pipeline(lang, candidate(words, k), scheme, path) == Ok::<Seq<char>, PipelineSkip>(target)
}

/// How many orderings a search with a cap considers at most: `min(n!, cap)`.
pub open spec fn trial_limit(n: nat, cap: nat) -> nat {
    if factorial(n) < cap { factorial(n) } else { cap }
}

/// What a search reports: no ordering before `index` matches; if `found`,
/// the ordering at `index` matches within the limit; else `index` is the
/// number of orderings considered, `min(n!, cap)`.
pub open spec fn search_outcome(
    words: Seq<Seq<char>>,
    target: Seq<char>,
    cap: nat,
    lang: Language,
    scheme: AddressType,
    path: DerivationPath,
    found: bool,
    index: nat,
) -> bool {
    &&& forall|k: nat| k < index ==> !#[trigger] matches_target(words, k, target, lang, scheme, path)
    &&& if found {
        index < trial_limit(words.len(), cap) && matches_target(words, index, target, lang, scheme, path)
    } else {
        index == trial_limit(words.len(), cap)
    }
}

/// The result of a search.
pub struct SearchResult {
    /// Whether an ordering derived the target address.
    pub found: bool,
    /// The position of the matching ordering in enumeration order; when
    /// nothing matched, the number of orderings considered.
    pub trial_index: usize,
    /// The matching phrase.
    pub phrase: Option<String>,
    /// The matching address.
    pub address: Option<String>,
    /// The scheme searched under.
    pub scheme: AddressType,
    /// The derivation path searched under.
    pub path: String,
}

/// Compares a candidate address with the target, exactly; on a match,
/// packages the winning ordering's phrase, index, scheme and path.
pub fn evaluate_match(
    candidate_address: String,
    target: &str,
    trial_index: usize,
    phrase: String,
    scheme: AddressType,
    path: &str,
) -> (r: Option<SearchResult>)
    ensures
        r is Some <==> candidate_address@ == target@,
        r matches Some(res) ==> {
            &&& res.found
            &&& res.trial_index == trial_index
            &&& res.phrase matches Some(p) && p@ == phrase@
            &&& res.address matches Some(a) && a@ == target@
            &&& res.scheme == scheme
            &&& res.path@ == path@
        },
{
    if same_text(candidate_address.as_str(), target) {
        Some(SearchResult {
            found: true,
            trial_index,
            phrase: Some(phrase),
            address: Some(candidate_address),
            scheme,
            path: String::from_str(path),
        })
    } else {
        None
    }
}

fn join_ordering(words: &[String], order: &Vec<usize>) -> (r: String)
    requires
        forall|j: int| 0 <= j < order@.len() ==> (#[trigger] order@[j]) < words@.len(),
    ensures
        r@ == join_words(arranged(texts(words@), order@)),
{
    let ghost ws = arranged(texts(words@), order@);
    let mut s = String::new();
    let mut j: usize = 0;
    proof {
        reveal_strlit(" ");
        assert(ws.subrange(0, 0) =~= Seq::<Seq<char>>::empty());
    }
    while j < order.len()
        invariant
            ws == arranged(texts(words@), order@),
            forall|j: int| 0 <= j < order@.len() ==> (#[trigger] order@[j]) < words@.len(),
            j <= order@.len(),
            s@ == join_words(ws.subrange(0, j as int)),
        decreases order.len() - j,
    {
        let w = words[order[j]].as_str();
        assert(w@ == ws[j as int]);
        let ghost before = s@;
        if j > 0 {
            proof {
                reveal_strlit(" ");
                assert(" "@ =~= seq![' ']);
            }
            s.append(" ");
        }
        s.append(w);
        proof {
            let next = ws.subrange(0, j + 1);
            assert(next.drop_last() =~= ws.subrange(0, j as int));
            if j == 0 {
                assert(s@ =~= next[0]);
            } else {
                assert(s@ =~= join_words(next.drop_last()) + seq![' '] + next.last());
            }
        }
        j = j + 1;
    }
    assert(ws.subrange(0, order@.len() as int) =~= ws);
    s
}

/// A search under way: its fixed inputs, the enumeration cursor, and how
/// many orderings it has considered. It runs in slices, so that a caller can
/// report progress between them; no ordering is visited twice.
pub struct SearchRun {
    words: Vec<String>,
    target: String,
    cap: usize,
    language: Language,
    scheme: AddressType,
    path_text: String,
    path: DerivationPath,
    orders: Permutations<Range<usize>>,
    considered: usize,
}

impl SearchRun {
    /// The words, as texts.
    pub closed spec fn words_view(&self) -> Seq<Seq<char>> {
        texts(self.words@)
    }

    /// The target address.
    pub closed spec fn target_view(&self) -> Seq<char> {
        self.target@
    }

    /// The trial cap.
    pub closed spec fn cap_view(&self) -> nat {
        self.cap as nat
    }

    /// The language of the run.
    pub closed spec fn language_view(&self) -> Language {
        self.language
    }

    /// The scheme of the run.
    pub closed spec fn scheme_view(&self) -> AddressType {
        self.scheme
    }

    /// The derivation path of the run.
    pub closed spec fn path_view(&self) -> DerivationPath {
        self.path
    }

    /// The text of the derivation path.
    pub closed spec fn path_text_view(&self) -> Seq<char> {
        self.path_text@
    }

    /// How many orderings have been considered.
    pub closed spec fn considered_view(&self) -> nat {
        self.considered as nat
    }

    /// The cursor stands after the orderings considered, within `min(n!, cap)`,
    /// and none of those matched.
    pub closed spec fn wf(&self) -> bool {
        &&& orderings_width(self.orders) == self.words@.len()
        &&& orderings_emitted(self.orders) == self.considered
        &&& self.considered <= factorial(self.words@.len())
        &&& self.considered <= self.cap
        &&& path_parse(self.path_text@) == Ok::<DerivationPath, Bip32Error>(self.path)
        &&& forall|k: nat| k < self.considered ==> !#[trigger] matches_target(
            texts(self.words@), k, self.target@, self.language, self.scheme, self.path)
    }

    /// Prepares a search: parses the scheme's derivation path at
    /// `derivation_index` (a failure is fatal) and places the cursor before
    /// the first ordering.
    pub fn start(
        words: &[String],
        target: &str,
        max_permutations: usize,
        language: Language,
        address_type: AddressType,
        derivation_index: u32,
    ) -> (r: Result<SearchRun, SetupError>)
        ensures
            r matches Err(e) ==> e == SetupError::InvalidDerivationPath
                && path_parse(address_type.path_for(derivation_index as nat)) is Err,
            r matches Ok(run) ==> {
                &&& run.wf()
                &&& run.considered_view() == 0
                &&& run.words_view() == texts(words@)
                &&& run.target_view() == target@
                &&& run.cap_view() == max_permutations
                &&& run.language_view() == language
                &&& run.scheme_view() == address_type
                &&& run.path_text_view() == address_type.path_for(derivation_index as nat)
                &&& path_parse(address_type.path_for(derivation_index as nat)) == Ok::<DerivationPath, Bip32Error>(run.path_view())
            },
    {
        let path_text = address_type.derivation_path(derivation_index);
        let path = match parse_derivation_path(path_text.as_str()) {
            Ok(p) => p,
            Err(e) => return Err(e),
        };
        let mut copy: Vec<String> = Vec::new();
        let mut i: usize = 0;
        while i < words.len()
            invariant
                i <= words@.len(),
                copy@ == words@.subrange(0, i as int),
            decreases words.len() - i,
        {
            copy.push(words[i].clone());
            assert(copy@ =~= words@.subrange(0, i + 1));
            i = i + 1;
        }
        assert(copy@ =~= words@);
        let orders = index_orderings(words.len());
        Ok(SearchRun {
            words: copy,
            target: String::from_str(target),
            cap: max_permutations,
            language,
            scheme: address_type,
            path_text,
            path,
            orders,
            considered: 0,
        })
    }

    /// How many orderings have been considered.
    pub fn considered(&self) -> (r: usize)
        ensures
            r == self.considered_view(),
    {
        self.considered
    }

    fn finish(&self, found: bool, phrase: Option<String>, address: Option<String>) -> (r: SearchResult)
        ensures
            r.found == found,
            r.trial_index == self.considered,
            r.phrase == phrase,
            r.address == address,
            r.scheme == self.scheme,
            r.path@ == self.path_text@,
    {
        SearchResult {
            found,
            trial_index: self.considered,
            phrase,
            address,
            scheme: self.scheme,
            path: self.path_text.clone(),
        }
    }

    /// Considers at most `budget` further orderings. Returns the result once
    /// the search is over: at the first match, or after `min(n!, cap)`
    /// orderings; `None` while it goes on. A finished run is not advanced
    /// again.
    pub fn advance(&mut self, budget: usize) -> (r: Option<SearchResult>)
        requires
            old(self).wf(),
        ensures
            r is None ==> final(self).wf(),
            r is None ==> final(self).considered_view() < final(self).cap_view(),
            final(self).words_view() == old(self).words_view(),
            final(self).target_view() == old(self).target_view(),
            final(self).cap_view() == old(self).cap_view(),
            final(self).language_view() == old(self).language_view(),
            final(self).scheme_view() == old(self).scheme_view(),
            final(self).path_view() == old(self).path_view(),
            final(self).path_text_view() == old(self).path_text_view(),
            old(self).considered_view() <= final(self).considered_view(),
            r is None ==> final(self).considered_view() == old(self).considered_view() + budget,
            r matches Some(res) ==> {
                &&& search_outcome(old(self).words_view(), old(self).target_view(), old(self).cap_view(),
                    old(self).language_view(), old(self).scheme_view(), old(self).path_view(),
                    res.found, res.trial_index as nat)
                &&& res.scheme == old(self).scheme_view()
                &&& res.path@ == old(self).path_text_view()
                &&& res.found ==> (res.phrase matches Some(ph)
                    && ph@ == candidate(old(self).words_view(), res.trial_index as nat))
                &&& res.found ==> (res.address matches Some(a) && a@ == old(self).target_view())
                &&& !res.found ==> res.phrase is None && res.address is None
            },
    {
        let ghost ws = texts(self.words@);
        let ghost start = self.considered;
        let n = self.words.len();
        let mut spent: usize = 0;
        loop
            invariant
                self.wf(),
                ws == texts(self.words@),
                ws.len() == n,
                n == self.words@.len(),
                self.words == old(self).words,
                self.target == old(self).target,
                self.cap == old(self).cap,
                self.language == old(self).language,
                self.scheme == old(self).scheme,
                self.path == old(self).path,
                self.path_text == old(self).path_text,
                spent <= budget,
                self.considered == start + spent,
                start == old(self).considered,
            decreases budget - spent,
        {
            if self.considered >= self.cap {
                return Some(self.finish(false, None, None));
            }
            if spent >= budget {
                return None;
            }
            let order = match next_ordering(&mut self.orders) {
                Some(o) => o,
                None => {
                    return Some(self.finish(false, None, None));
                },
            };
            proof {
                lemma_lex_ordering_shape(n as nat, self.considered as nat);
            }
            let phrase = join_ordering(self.words.as_slice(), &order);
            assert(phrase@ == candidate(ws, self.considered as nat));
            match derive_address(phrase.as_str(), self.language, self.scheme, &self.path) {
                Ok(addr) => {
                    match evaluate_match(addr, self.target.as_str(), self.considered, phrase, self.scheme, self.path_text.as_str()) {
                        Some(res) => return Some(res),
                        None => {},
                    }
                },
                Err(_) => {},
            }
            self.considered = self.considered + 1;
            spent = spent + 1;
        }
    }
}

/// Tries the orderings of `words` in lexicographic order of positions, at
/// most `max_permutations` of them, and reports the first whose address
/// under `address_type` at `derivation_index` is `target`. Orderings that are
/// no valid mnemonic are skipped and still counted.
pub fn search_permutations(
    words: &[String],
    target: &str,
    max_permutations: usize,
    language: Language,
    address_type: AddressType,
    derivation_index: u32,
) -> (r: Result<SearchResult, SetupError>)
    ensures
        r matches Err(e) ==> e == SetupError::InvalidDerivationPath
            && path_parse(address_type.path_for(derivation_index as nat)) is Err,
        r matches Ok(res) ==> {
            &&& path_parse(address_type.path_for(derivation_index as nat)) matches Ok(p)
            &&& search_outcome(texts(words@), target@, max_permutations as nat, language, address_type, p, res.found, res.trial_index as nat)
            &&& res.scheme == address_type
            &&& res.path@ == address_type.path_for(derivation_index as nat)
            &&& res.found ==> (res.phrase matches Some(ph) && ph@ == candidate(texts(words@), res.trial_index as nat))
            &&& res.found ==> (res.address matches Some(a) && a@ == target@)
            &&& !res.found ==> res.phrase is None && res.address is None
        },
{
    let mut run = match SearchRun::start(words, target, max_permutations, language, address_type, derivation_index) {
        Ok(run) => run,
        Err(e) => return Err(e),
    };
    match run.advance(max_permutations) {
        Some(res) => Ok(res),
        None => {
            // A budget of the whole cap always ends the run.
            assert(false);
            Ok(run.finish(false, None, None))
        },
    }
}

/// Two searches over the same inputs report the same outcome: whether an
/// ordering matched, and the index reported.
pub proof fn lemma_search_deterministic(
    words: Seq<Seq<char>>,
    target: Seq<char>,
    cap: nat,
    lang: Language,
    scheme: AddressType,
    path: DerivationPath,
    found1: bool,
    index1: nat,
    found2: bool,
    index2: nat,
)
    requires
        search_outcome(words, target, cap, lang, scheme, path, found1, index1),
        search_outcome(words, target, cap, lang, scheme, path, found2, index2),
    ensures
        found1 == found2,
        index1 == index2,
{
    if found1 && index1 < index2 {
        assert(!matches_target(words, index1, target, lang, scheme, path));
    }
    if found2 && index2 < index1 {
        assert(!matches_target(words, index2, target, lang, scheme, path));
    }
}

proof fn lemma_remove_no_duplicates(items: Seq<usize>, q: int)
    requires
        items.no_duplicates(),
        0 <= q < items.len(),
    ensures
        items.remove(q).no_duplicates(),
        !items.remove(q).contains(items[q]),
{
    let rest = items.remove(q);
    assert forall|a: int, b: int| 0 <= a < rest.len() && 0 <= b < rest.len() && a != b implies rest[a] != rest[b] by {
        let ia = if a < q { a } else { a + 1 };
        let ib = if b < q { b } else { b + 1 };
        assert(rest[a] == items[ia] && rest[b] == items[ib]);
    }
    if rest.contains(items[q]) {
        let j = choose|j: int| 0 <= j < rest.len() && rest[j] == items[q];
        let ij = if j < q { j } else { j + 1 };
        assert(rest[j] == items[ij]);
    }
}

/// Orderings of distinct items ranked below `len!` repeat no item, and
/// different ranks give different orderings.
pub proof fn lemma_unrank_distinct(items: Seq<usize>, k1: nat, k2: nat)
    requires
        items.no_duplicates(),
        k1 < factorial(items.len()),
        k2 < factorial(items.len()),
    ensures
        unrank(items, k1).no_duplicates(),
        k1 != k2 ==> unrank(items, k1) != unrank(items, k2),
    decreases items.len(),
{
    if items.len() > 0 {
        let len = items.len();
        let f = factorial((len - 1) as nat);
        lemma_unrank_step(len, k1);
        lemma_unrank_step(len, k2);
        let q1 = (k1 / f) as int;
        let q2 = (k2 / f) as int;
        assert(head_position(len, k1) == q1);
        assert(head_position(len, k2) == q2);
        assert(rest_rank(len, k1) == k1 % f);
        assert(rest_rank(len, k2) == k2 % f);
        let rest1 = items.remove(q1);
        let rest2 = items.remove(q2);
        lemma_remove_no_duplicates(items, q1);
        lemma_remove_no_duplicates(items, q2);
        lemma_unrank_distinct(rest1, k1 % f, k2 % f);
        lemma_unrank_shape(rest1, k1 % f);
        let tail1 = unrank(rest1, k1 % f);
        let u1 = unrank(items, k1);
        assert(u1 == seq![items[q1]] + tail1);
        assert forall|a: int, b: int| 0 <= a < u1.len() && 0 <= b < u1.len() && a != b implies u1[a] != u1[b] by {
            if a == 0 {
                assert(u1[b] == tail1[b - 1]);
                assert(rest1.contains(tail1[b - 1]));
            } else if b == 0 {
                assert(u1[a] == tail1[a - 1]);
                assert(rest1.contains(tail1[a - 1]));
            } else {
                assert(u1[a] == tail1[a - 1] && u1[b] == tail1[b - 1]);
            }
        }
        if k1 != k2 {
            let u2 = unrank(items, k2);
            let tail2 = unrank(rest2, k2 % f);
            assert(u2 == seq![items[q2]] + tail2);
            vstd::arithmetic::div_mod::lemma_fundamental_div_mod(k1 as int, f as int);
            vstd::arithmetic::div_mod::lemma_fundamental_div_mod(k2 as int, f as int);
            if q1 != q2 {
                assert(u1[0] != u2[0]);
            } else {
                assert(k1 % f != k2 % f);
                if u1 == u2 {
                    assert(u1.subrange(1, u1.len() as int) =~= tail1);
                    assert(u2.subrange(1, u2.len() as int) =~= tail2);
                }
            }
        }
    }
}

/// The search considers each ordering of the word positions at most once:
/// ranks below `n!` give orderings of `0..n` that hold every position once,
/// and different ranks give different orderings. With the count that
/// `search_outcome` fixes, a search without a match considers exactly
/// `min(n!, cap)` distinct orderings.
pub proof fn lemma_orderings_distinct(n: nat, k1: nat, k2: nat)
    requires
        n <= usize::MAX,
        k1 < factorial(n),
        k2 < factorial(n),
    ensures
        lex_ordering(n, k1).len() == n,
        forall|i: int| 0 <= i < n ==> (#[trigger] lex_ordering(n, k1)[i]) < n,
        lex_ordering(n, k1).no_duplicates(),
        k1 != k2 ==> lex_ordering(n, k1) != lex_ordering(n, k2),
{
    assert forall|a: int, b: int| 0 <= a < n && 0 <= b < n && a != b implies positions(n)[a] != positions(n)[b] by {
        assert(positions(n)[a] as int == a && positions(n)[b] as int == b);
    }
    lemma_lex_ordering_shape(n, k1);
    lemma_unrank_distinct(positions(n), k1, k2);
}

/// An ordering whose phrase is no valid mnemonic never matches: the search
/// passes over it, and it still counts toward the cap, since every index
/// below the one reported has been considered.
pub proof fn lemma_invalid_mnemonic_skipped(
    words: Seq<Seq<char>>,
    k: nat,
    target: Seq<char>,
    lang: Language,
    scheme: AddressType,
    path: DerivationPath,
)
    requires
        crate::pipeline::mnemonic_parse(lang, candidate(words, k)) is Err,
    ensures
        pipeline(lang, candidate(words, k), scheme, path) == Err::<Seq<char>, PipelineSkip>(PipelineSkip::InvalidMnemonic),
        !matches_target(words, k, target, lang, scheme, path),
{
}

} // verus!
