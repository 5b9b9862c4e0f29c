//! Removing tracking elements from URLs with the ClearURLs rules
//! (<https://github.com/ClearURLs/Addon>).
//!
//! A provider has a `urlPattern`; when the URL matches it, the provider
//! blocks the URL (`completeProvider`), follows its `redirections`, drops the
//! query parameters whose lower-cased key matches one of its `rules`, and
//! removes from the whole URL the first match of each of its `rawRules`.
//! Backslashes in `urlPattern`, `redirections` and `rawRules` are removed
//! before they are compiled. At the end, trailing `?` then trailing `/` are
//! trimmed.

pub mod address;
pub mod patterns;

use vstd::prelude::*;

use crate::text::{push_str, remove_char, same_text, to_ascii_lowercase, trim_end_matches};
use crate::text::{ascii_lowercase, trim_end_char, without_char};
use address::{pairs_view, query_pairs_of, url_parses, url_query_pairs, url_with_query_pairs, with_query_pairs, PairView};
use patterns::{regex_captures_group1, regex_compiles, regex_group1, regex_is_match, regex_matches};
use patterns::{regex_remove_first, regex_remove_first_match, regex_valid};

verus! {

/// One provider of the ClearURLs rules file.
pub struct Provider {
    /// The key of the provider in the rules file.
    pub name: String,
    /// The `urlPattern`: a regex that the URLs of this provider match.
    pub url_pattern: String,
    /// The `completeProvider` flag: every matching URL is blocked.
    pub complete_provider: bool,
    /// Whether `completeProvider` is not a boolean or `redirections` is not
    /// a list: a provider that is not complete cannot then clean the URLs
    /// that it matches.
    pub malformed: bool,
    /// The `redirections`: regexes whose capture group 1 is the target URL;
    /// `None` for an item of the list that is not a string.
    pub redirections: Vec<Option<String>>,
    /// Whether `rules`, `referralMarketing` or `rawRules` is not a list of
    /// strings: such a provider cannot rewrite the URLs that it matches.
    pub rules_malformed: bool,
    /// The `rules` followed by the `referralMarketing` rules: regexes on
    /// the lower-cased keys of the query parameters to drop.
    pub rules: Vec<String>,
    /// The `rawRules`: regexes whose first match is removed from the URL.
    pub raw_rules: Vec<String>,
}

/// A provider as plain text.
pub struct ProviderView {
    pub name: Seq<char>,
    pub url_pattern: Seq<char>,
    pub complete_provider: bool,
    pub malformed: bool,
    pub redirections: Seq<Option<Seq<char>>>,
    pub rules_malformed: bool,
    pub rules: Seq<Seq<char>>,
    pub raw_rules: Seq<Seq<char>>,
}

/// The text of each item of `v`, `None` staying `None`.
pub open spec fn items_view(v: Seq<Option<String>>) -> Seq<Option<Seq<char>>> {
    v.map_values(|o: Option<String>| match o {
        Some(s) => Some(s@),
        None => None,
    })
}

/// The text of each string of `v`.
pub open spec fn strings_view(v: Seq<String>) -> Seq<Seq<char>> {
    v.map_values(|s: String| s@)
}

impl View for Provider {
    type V = ProviderView;

    open spec fn view(&self) -> ProviderView {
        ProviderView {
            name: self.name@,
            url_pattern: self.url_pattern@,
            complete_provider: self.complete_provider,
            malformed: self.malformed,
            redirections: items_view(self.redirections@),
            rules_malformed: self.rules_malformed,
            rules: strings_view(self.rules@),
            raw_rules: strings_view(self.raw_rules@),
        }
    }
}

/// Each provider of `v`, as plain text.
pub open spec fn providers_view(v: Seq<Provider>) -> Seq<ProviderView> {
    v.map_values(|p: Provider| p@)
}

/// A key of a provider in the rules file, as the file holds it.
pub enum Entry<T> {
    /// The key is not there.
    Absent,
    /// The key holds a value of another kind.
    WrongKind,
    /// The key holds this value.
    Present(T),
}

/// A provider as the rules file writes it: the items of a list are `None`
/// where they are not strings.
pub struct ProviderEntry {
    pub name: String,
    pub url_pattern: String,
    pub complete_provider: Entry<bool>,
    pub redirections: Entry<Vec<Option<String>>>,
    pub rules: Entry<Vec<Option<String>>>,
    pub referral_marketing: Entry<Vec<Option<String>>>,
    pub raw_rules: Entry<Vec<Option<String>>>,
}

/// Whether `e` is absent or a list of strings.
pub open spec fn list_ok(e: Entry<Vec<Option<String>>>) -> bool {
    match e {
        Entry::Absent => true,
        Entry::WrongKind => false,
        Entry::Present(v) => forall|k: int| 0 <= k < v@.len() ==> (#[trigger] v@[k]) is Some,
    }
}

/// The strings of `items`, in order.
pub open spec fn string_items(items: Seq<Option<Seq<char>>>) -> Seq<Seq<char>>
    decreases items.len(),
{
    if items.len() == 0 {
        seq![]
    } else {
        match items.last() {
            Some(s) => string_items(items.drop_last()).push(s),
            None => string_items(items.drop_last()),
        }
    }
}

/// The strings of the list `e`; none where it is not a list.
pub open spec fn list_strings(e: Entry<Vec<Option<String>>>) -> Seq<Seq<char>> {
    match e {
        Entry::Present(v) => string_items(items_view(v@)),
        _ => seq![],
    }
}

/// The provider that the rules file describes by `e`.
pub open spec fn spec_provider_of(e: ProviderEntry) -> ProviderView {
    ProviderView {
        name: e.name@,
        url_pattern: e.url_pattern@,
        complete_provider: e.complete_provider matches Entry::Present(b) && b,
        malformed: e.complete_provider is WrongKind || e.redirections is WrongKind,
        redirections: match e.redirections {
            Entry::Present(v) => items_view(v@),
            _ => seq![],
        },
        rules_malformed: !list_ok(e.rules) || !list_ok(e.referral_marketing) || !list_ok(e.raw_rules),
        rules: list_strings(e.rules) + list_strings(e.referral_marketing),
        raw_rules: list_strings(e.raw_rules),
    }
}

/// Whether the list `e` is well formed, and its strings.
fn strings_of(e: &Entry<Vec<Option<String>>>) -> (r: (bool, Vec<String>))
    ensures
        r.0 == list_ok(*e),
        strings_view(r.1@) == list_strings(*e),
{
    match e {
        Entry::Absent => (true, Vec::new()),
        Entry::WrongKind => (false, Vec::new()),
        Entry::Present(v) => {
            let ghost items = items_view(v@);
            let mut ok = true;
            let mut out: Vec<String> = Vec::new();
            let mut k: usize = 0;
            while k < v.len()
                invariant
                    items == items_view(v@),
                    k <= v.len(),
                    ok == (forall|m: int| 0 <= m < k ==> (#[trigger] v@[m]) is Some),
                    strings_view(out@) == string_items(items.take(k as int)),
                decreases v.len() - k,
            {
                proof {
                    assert(items.take(k + 1).drop_last() =~= items.take(k as int));
                }
                match &v[k] {
                    Some(text) => {
                        let ghost before = out@;
                        out.push(text.clone());
                        assert(strings_view(out@) =~= strings_view(before).push(text@));
                    },
                    None => {
                        ok = false;
                    },
                }
                k = k + 1;
            }
            assert(items.take(v.len() as int) =~= items);
            (ok, out)
        },
    }
}

impl Provider {
    /// The provider that the rules file describes by `entry`: the
    /// `referralMarketing` rules follow the `rules`, and the flags tell
    /// which entries break the format.
    pub fn from_entry(entry: ProviderEntry) -> (p: Provider)
        ensures
            p@ == spec_provider_of(entry),
    {
        let (rules_ok, mut rules) = strings_of(&entry.rules);
        let (referral_ok, mut referral) = strings_of(&entry.referral_marketing);
        let (raw_ok, raw_rules) = strings_of(&entry.raw_rules);
        let ghost first = rules@;
        let ghost second = referral@;
        rules.append(&mut referral);
        assert(strings_view(rules@) =~= strings_view(first) + strings_view(second));
        let complete_provider = match entry.complete_provider {
            Entry::Present(b) => b,
            _ => false,
        };
        let malformed = match (&entry.complete_provider, &entry.redirections) {
            (Entry::WrongKind, _) | (_, Entry::WrongKind) => true,
            _ => false,
        };
        let redirections = match entry.redirections {
            Entry::Present(v) => v,
            _ => Vec::new(),
        };
        let p = Provider {
            name: entry.name,
            url_pattern: entry.url_pattern,
            complete_provider,
            malformed,
            redirections,
            rules_malformed: !rules_ok || !referral_ok || !raw_ok,
            rules,
            raw_rules,
        };
        let ghost q = spec_provider_of(entry);
        assert(p@.redirections == q.redirections);
        assert(p@.rules == q.rules);
        assert(p@.raw_rules == q.raw_rules);
        p
    }
}

/// Why a URL could not be cleaned.
#[derive(Debug)]
pub enum CleanError {
    /// A `urlPattern` or a redirection does not compile; it holds the
    /// pattern, backslashes removed.
    InvalidPattern(String),
    /// The URL to rewrite is not a URL; it holds that text.
    InvalidUrl(String),
    /// A matching provider is malformed, one of its rules does not compile,
    /// one of its redirections is not a string, or one matched without a
    /// capture group 1.
    MalformedRules,
    /// Redirections led further than the allowed depth.
    TooManyRedirects,
}

/// A `CleanError` as plain text.
pub enum CleanErrorView {
    InvalidPattern(Seq<char>),
    InvalidUrl(Seq<char>),
    MalformedRules,
    TooManyRedirects,
}

impl View for CleanError {
    type V = CleanErrorView;

    open spec fn view(&self) -> CleanErrorView {
        match self {
            CleanError::InvalidPattern(p) => CleanErrorView::InvalidPattern(p@),
            CleanError::InvalidUrl(u) => CleanErrorView::InvalidUrl(u@),
            CleanError::MalformedRules => CleanErrorView::MalformedRules,
            CleanError::TooManyRedirects => CleanErrorView::TooManyRedirects,
        }
    }
}

/// The outcome of cleaning, as plain text.
pub type CleanResult = Result<Seq<char>, CleanErrorView>;

/// `r` as plain text.
pub open spec fn clean_result_view(r: Result<String, CleanError>) -> CleanResult {
    match r {
        Ok(s) => Ok(s@),
        Err(e) => Err(e@),
    }
}

/// `pattern` with its backslashes removed.
pub open spec fn unescaped(pattern: Seq<char>) -> Seq<char> {
    without_char(pattern, '\\')
}

/// Whether every one of `rules` compiles as it is.
pub open spec fn all_valid(rules: Seq<Seq<char>>) -> bool {
    forall|k: int| 0 <= k < rules.len() ==> regex_valid(#[trigger] rules[k])
}

/// Whether every one of `raw_rules` compiles once unescaped.
pub open spec fn all_raw_valid(raw_rules: Seq<Seq<char>>) -> bool {
    forall|k: int| 0 <= k < raw_rules.len() ==> regex_valid(unescaped(#[trigger] raw_rules[k]))
}

/// Whether some rule matches `key`, lower-cased.
pub open spec fn matches_some_rule(rules: Seq<Seq<char>>, key: Seq<char>) -> bool {
    exists|k: int| 0 <= k < rules.len() && regex_matches(#[trigger] rules[k], ascii_lowercase(key))
}

/// The pairs whose key matches none of `rules`, in their order.
pub open spec fn kept_pairs(pairs: Seq<PairView>, rules: Seq<Seq<char>>) -> Seq<PairView>
    decreases pairs.len(),
{
    if pairs.len() == 0 {
        pairs
    } else if matches_some_rule(rules, pairs.last().0) {
        kept_pairs(pairs.drop_last(), rules)
    } else {
        kept_pairs(pairs.drop_last(), rules).push(pairs.last())
    }
}

/// `url` after removing the first match of each raw rule in turn.
pub open spec fn apply_raw_rules(url: Seq<char>, raw_rules: Seq<Seq<char>>) -> Seq<char>
    decreases raw_rules.len(),
{
    if raw_rules.len() == 0 {
        url
    } else {
        regex_remove_first(unescaped(raw_rules.last()), apply_raw_rules(url, raw_rules.drop_last()))
    }
}

/// What the query rules and raw rules of `p` make of `url`.
pub open spec fn rewrite_spec(url: Seq<char>, p: ProviderView) -> CleanResult {
    if !url_parses(url) {
        Err(CleanErrorView::InvalidUrl(url))
    } else if p.rules_malformed || !all_valid(p.rules) || !all_raw_valid(p.raw_rules) {
        Err(CleanErrorView::MalformedRules)
    } else {
        Ok(apply_raw_rules(url_with_query_pairs(url, kept_pairs(url_query_pairs(url), p.rules)), p.raw_rules))
    }
}

/// The cleaned form of `url` under the providers `ps`, following at most
/// `fuel` nested redirections.
pub open spec fn clean_spec(url: Seq<char>, ps: Seq<ProviderView>, fuel: nat) -> CleanResult
    decreases fuel, ps.len() + 1, 0int, 0int,
{
    match run_providers(url, ps, 0, fuel) {
        Ok(u) => Ok(trim_end_char(trim_end_char(u, '?'), '/')),
        Err(e) => Err(e),
    }
}

/// `url` after the providers `ps[i..]`, in order, before the final trim.
pub open spec fn run_providers(url: Seq<char>, ps: Seq<ProviderView>, i: int, fuel: nat) -> CleanResult
    decreases fuel, ps.len() - i, 1int, 0int,
{
    if i < 0 || i >= ps.len() {
        Ok(url)
    } else {
        let p = ps[i];
        let pattern = unescaped(p.url_pattern);
        if !regex_valid(pattern) {
            Err(CleanErrorView::InvalidPattern(pattern))
        } else if !regex_matches(pattern, url) {
            run_providers(url, ps, i + 1, fuel)
        } else if p.complete_provider {
            Ok(seq![])
        } else if p.malformed {
            Err(CleanErrorView::MalformedRules)
        } else {
            match follow_redirections(url, p.redirections, 0, ps, i, fuel) {
                Err(e) => Err(e),
                Ok(redirected) => match rewrite_spec(redirected, p) {
                    Err(e) => Err(e),
                    Ok(rewritten) => run_providers(rewritten, ps, i + 1, fuel),
                },
            }
        }
    }
}

/// `url` after the redirections `redirs[j..]` of the provider `ps[i]`: each
/// one that matches replaces the URL with its target, cleaned.
pub open spec fn follow_redirections(
    url: Seq<char>,
    redirs: Seq<Option<Seq<char>>>,
    j: int,
    ps: Seq<ProviderView>,
    i: int,
    fuel: nat,
) -> CleanResult
    decreases fuel, ps.len() - i, 0int, redirs.len() - j,
{
    if j < 0 || j >= redirs.len() || i < 0 || i >= ps.len() {
        Ok(url)
    } else {
        match redirs[j] {
            None => Err(CleanErrorView::MalformedRules),
            Some(redir) => {
                let pattern = unescaped(redir);
                if !regex_valid(pattern) {
                    Err(CleanErrorView::InvalidPattern(pattern))
                } else if !regex_matches(pattern, url) {
                    follow_redirections(url, redirs, j + 1, ps, i, fuel)
                } else {
                    match regex_group1(pattern, url) {
                        None => Err(CleanErrorView::MalformedRules),
                        Some(target) => if fuel == 0 {
                            Err(CleanErrorView::TooManyRedirects)
                        } else {
                            match clean_spec(target, ps, (fuel - 1) as nat) {
                                Err(e) => Err(e),
                                Ok(cleaned) => follow_redirections(cleaned, redirs, j + 1, ps, i, fuel),
                            }
                        },
                    }
                }
            },
        }
    }
}

/// Whether each of `rules` compiles.
fn rules_compile(rules: &Vec<String>) -> (ok: bool)
    ensures
        ok == all_valid(strings_view(rules@)),
{
    let ghost v = strings_view(rules@);
    let mut k: usize = 0;
    while k < rules.len()
        invariant
            v == strings_view(rules@),
            k <= rules.len(),
            forall|m: int| 0 <= m < k ==> regex_valid(#[trigger] v[m]),
        decreases rules.len() - k,
    {
        if !regex_compiles(rules[k].as_str()) {
            assert(!regex_valid(v[k as int]));
            return false;
        }
        k = k + 1;
    }
    true
}

/// Whether each of `raw_rules` compiles once unescaped.
fn raw_rules_compile(raw_rules: &Vec<String>) -> (ok: bool)
    ensures
        ok == all_raw_valid(strings_view(raw_rules@)),
{
    let ghost v = strings_view(raw_rules@);
    let mut k: usize = 0;
    while k < raw_rules.len()
        invariant
            v == strings_view(raw_rules@),
            k <= raw_rules.len(),
            forall|m: int| 0 <= m < k ==> regex_valid(unescaped(#[trigger] v[m])),
        decreases raw_rules.len() - k,
    {
        let pattern = remove_char(raw_rules[k].as_str(), '\\');
        if !regex_compiles(pattern.as_str()) {
            assert(!regex_valid(unescaped(v[k as int])));
            return false;
        }
        k = k + 1;
    }
    true
}

/// Whether one of `rules` matches `key`, lower-cased.
fn some_rule_matches(rules: &Vec<String>, key: &str) -> (m: bool)
    requires
        all_valid(strings_view(rules@)),
    ensures
        m == matches_some_rule(strings_view(rules@), key@),
{
    let ghost v = strings_view(rules@);
    let lower = to_ascii_lowercase(key);
    let mut k: usize = 0;
    while k < rules.len()
        invariant
            v == strings_view(rules@),
            all_valid(v),
            lower@ == ascii_lowercase(key@),
            k <= rules.len(),
            forall|m: int| 0 <= m < k ==> !regex_matches(#[trigger] v[m], ascii_lowercase(key@)),
        decreases rules.len() - k,
    {
        assert(regex_valid(v[k as int]));
        if regex_is_match(rules[k].as_str(), lower.as_str()) {
            assert(regex_matches(v[k as int], ascii_lowercase(key@)));
            return true;
        }
        k = k + 1;
    }
    false
}

/// The pairs of `pairs` whose key matches none of `rules`, in their order.
fn keep_pairs(pairs: &Vec<(String, String)>, rules: &Vec<String>) -> (kept: Vec<(String, String)>)
    requires
        all_valid(strings_view(rules@)),
    ensures
        pairs_view(kept@) == kept_pairs(pairs_view(pairs@), strings_view(rules@)),
{
    let ghost all = pairs_view(pairs@);
    let mut kept: Vec<(String, String)> = Vec::new();
    let mut k: usize = 0;
    while k < pairs.len()
        invariant
            all == pairs_view(pairs@),
            all_valid(strings_view(rules@)),
            k <= pairs.len(),
            pairs_view(kept@) == kept_pairs(all.take(k as int), strings_view(rules@)),
        decreases pairs.len() - k,
    {
        let pair = &pairs[k];
        proof {
            assert(all.take(k + 1).drop_last() =~= all.take(k as int));
            assert(all.take(k + 1).last() == (pair.0@, pair.1@));
        }
        if !some_rule_matches(rules, pair.0.as_str()) {
            let ghost before = kept@;
            kept.push((pair.0.clone(), pair.1.clone()));
            assert(pairs_view(kept@) =~= pairs_view(before).push((pair.0@, pair.1@)));
        }
        k = k + 1;
    }
    assert(all.take(pairs.len() as int) =~= all);
    kept
}

/// `url` after removing the first match of each raw rule in turn.
fn apply_raw(url: String, raw_rules: &Vec<String>) -> (r: String)
    requires
        all_raw_valid(strings_view(raw_rules@)),
    ensures
        r@ == apply_raw_rules(url@, strings_view(raw_rules@)),
{
    let ghost v = strings_view(raw_rules@);
    let ghost u0 = url@;
    let mut current = url;
    let mut k: usize = 0;
    while k < raw_rules.len()
        invariant
            v == strings_view(raw_rules@),
            all_raw_valid(v),
            k <= raw_rules.len(),
            current@ == apply_raw_rules(u0, v.take(k as int)),
        decreases raw_rules.len() - k,
    {
        let pattern = remove_char(raw_rules[k].as_str(), '\\');
        proof {
            assert(regex_valid(unescaped(v[k as int])));
            assert(v.take(k + 1).drop_last() =~= v.take(k as int));
        }
        current = regex_remove_first_match(pattern.as_str(), current.as_str());
        k = k + 1;
    }
    assert(v.take(raw_rules.len() as int) =~= v);
    current
}

/// What the query rules and raw rules of `p` make of `url`.
fn rewrite(url: String, p: &Provider) -> (r: Result<String, CleanError>)
    ensures
        clean_result_view(r) == rewrite_spec(url@, p@),
{
    match query_pairs_of(url.as_str()) {
        None => Err(CleanError::InvalidUrl(url)),
        Some(pairs) => {
            if p.rules_malformed || !rules_compile(&p.rules) || !raw_rules_compile(&p.raw_rules) {
                return Err(CleanError::MalformedRules);
            }
            let kept = keep_pairs(&pairs, &p.rules);
            let rewritten = with_query_pairs(url.as_str(), &kept);
            Ok(apply_raw(rewritten, &p.raw_rules))
        },
    }
}

/// Whether none of the providers `ps` has redirections.
pub open spec fn without_redirections(ps: Seq<ProviderView>) -> bool {
    forall|k: int| 0 <= k < ps.len() ==> (#[trigger] ps[k]).redirections.len() == 0
}

/// Providers without redirections after a first one run as they would
/// alone: from position `i + 1` behind `p` as from position `i`.
proof fn lemma_run_after_first(url: Seq<char>, p: ProviderView, qs: Seq<ProviderView>, i: int, fuel: nat)
    requires
        0 <= i <= qs.len(),
        without_redirections(qs),
    ensures
        run_providers(url, seq![p] + qs, i + 1, fuel) == run_providers(url, qs, i, fuel),
    decreases qs.len() - i,
{
    let ps = seq![p] + qs;
    assert(ps.len() == qs.len() + 1);
    if i < qs.len() {
        assert(ps[i + 1] == qs[i]);
        let q = qs[i];
        assert(q.redirections.len() == 0);
        assert(follow_redirections(url, q.redirections, 0, ps, i + 1, fuel) == Ok::<Seq<char>, CleanErrorView>(url));
        assert(follow_redirections(url, q.redirections, 0, qs, i, fuel) == Ok::<Seq<char>, CleanErrorView>(url));
        let pattern = unescaped(q.url_pattern);
        if regex_valid(pattern) && regex_matches(pattern, url) && !q.complete_provider && !q.malformed {
            match rewrite_spec(url, q) {
                Ok(w) => {
                    lemma_run_after_first(w, p, qs, i + 1, fuel);
                    assert(run_providers(url, qs, i, fuel) == run_providers(w, qs, i + 1, fuel));
                    assert(run_providers(url, ps, i + 1, fuel) == run_providers(w, ps, i + 2, fuel));
                },
                Err(e) => {},
            }
        } else if regex_valid(pattern) && !regex_matches(pattern, url) {
            lemma_run_after_first(url, p, qs, i + 1, fuel);
        }
    } else {
        assert(run_providers(url, ps, i + 1, fuel) == Ok::<Seq<char>, CleanErrorView>(url));
        assert(run_providers(url, qs, i, fuel) == Ok::<Seq<char>, CleanErrorView>(url));
    }
}

/// Whether each of `redirs` is a string that compiles and does not match `url`.
pub open spec fn no_redirection_matches(url: Seq<char>, redirs: Seq<Option<Seq<char>>>) -> bool {
    forall|k: int|
        0 <= k < redirs.len() ==> match #[trigger] redirs[k] {
            Some(r) => regex_valid(unescaped(r)) && !regex_matches(unescaped(r), url),
            None => false,
        }
}

/// Redirections none of which matches leave the URL as it is.
proof fn lemma_no_redirection_taken(
    url: Seq<char>,
    redirs: Seq<Option<Seq<char>>>,
    j: int,
    ps: Seq<ProviderView>,
    i: int,
    fuel: nat,
)
    requires
        0 <= j <= redirs.len(),
        0 <= i < ps.len(),
        no_redirection_matches(url, redirs),
    ensures
        follow_redirections(url, redirs, j, ps, i, fuel) == Ok::<Seq<char>, CleanErrorView>(url),
    decreases redirs.len() - j,
{
    if j < redirs.len() {
        assert(redirs[j] is Some);
        lemma_no_redirection_taken(url, redirs, j + 1, ps, i, fuel);
    }
}

/// A provider that matches the URL does not end the cleaning: when none of
/// its redirections matches, and the providers after it have none,
/// cleaning with it in front of `qs` gives what cleaning its rewritten URL
/// with `qs` gives. In particular a matching provider that leaves the URL
/// as it is changes nothing, and the rules of every later matching
/// provider still apply.
pub proof fn lemma_matching_provider_then_rest(url: Seq<char>, p: ProviderView, qs: Seq<ProviderView>, fuel: nat)
    requires
        regex_valid(unescaped(p.url_pattern)),
        regex_matches(unescaped(p.url_pattern), url),
        !p.complete_provider,
        !p.malformed,
        no_redirection_matches(url, p.redirections),
        without_redirections(qs),
    ensures
        clean_spec(url, seq![p] + qs, fuel) == (match rewrite_spec(url, p) {
            Err(e) => Err(e),
            Ok(rewritten) => clean_spec(rewritten, qs, fuel),
        }),
        rewrite_spec(url, p) == Ok::<Seq<char>, CleanErrorView>(url) ==> clean_spec(url, seq![p] + qs, fuel)
            == clean_spec(url, qs, fuel),
{
    let ps = seq![p] + qs;
    assert(ps[0] == p);
    lemma_no_redirection_taken(url, p.redirections, 0, ps, 0, fuel);
    if let Ok(w) = rewrite_spec(url, p) {
        lemma_run_after_first(w, p, qs, 0, fuel);
    }
}

/// Cleans `url` with `providers`, following at most `fuel` nested
/// redirections: each provider in turn whose unescaped `urlPattern` matches
/// the URL blocks it (the result is then empty) or follows its
/// redirections, cleaning each target in full, then drops the query
/// parameters that its rules match and applies its raw rules. Trailing `?`
/// then trailing `/` are trimmed from the result.
pub fn process_url_with_depth(url: &str, providers: &Vec<Provider>, fuel: u64) -> (r: Result<String, CleanError>)
    ensures
        clean_result_view(r) == clean_spec(url@, providers_view(providers@), fuel as nat),
    decreases fuel,
{
    let ghost ps = providers_view(providers@);
    let ghost f = fuel as nat;
    let mut current: String = url.to_owned();
    let mut i: usize = 0;
    while i < providers.len()
        invariant
            ps == providers_view(providers@),
            f == fuel as nat,
            i <= providers.len(),
            run_providers(current@, ps, i as int, f) == run_providers(url@, ps, 0, f),
        decreases providers.len() - i,
    {
        let p = &providers[i];
        assert(ps[i as int] == p@);
        let pattern = remove_char(p.url_pattern.as_str(), '\\');
        if !regex_compiles(pattern.as_str()) {
            return Err(CleanError::InvalidPattern(pattern));
        }
        if regex_is_match(pattern.as_str(), current.as_str()) {
            if p.complete_provider {
                let empty = String::new();
                proof {
                    assert(trim_end_char(seq![], '?') == Seq::<char>::empty());
                    assert(trim_end_char(seq![], '/') == Seq::<char>::empty());
                }
                return Ok(empty);
            }
            if p.malformed {
                return Err(CleanError::MalformedRules);
            }
            let ghost start = current@;
            let ghost redirs = p@.redirections;
            let mut j: usize = 0;
            while j < p.redirections.len()
                invariant
                    ps == providers_view(providers@),
                    f == fuel as nat,
                    i < providers.len(),
                    p == &providers@[i as int],
                    redirs == p@.redirections,
                    ps[i as int] == p@,
                    j <= p.redirections.len(),
                    run_providers(start, ps, i as int, f) == run_providers(url@, ps, 0, f),
                    regex_valid(unescaped(p@.url_pattern)),
                    regex_matches(unescaped(p@.url_pattern), start),
                    !p.malformed,
                    !p.complete_provider,
                    follow_redirections(current@, redirs, j as int, ps, i as int, f)
                        == follow_redirections(start, redirs, 0, ps, i as int, f),
                decreases p.redirections.len() - j,
            {
                let redir = match &p.redirections[j] {
                    None => {
                        return Err(CleanError::MalformedRules);
                    },
                    Some(redir) => redir,
                };
                let rp = remove_char(redir.as_str(), '\\');
                assert(redirs[j as int] == Some(redir@));
                assert(rp@ == unescaped(redir@));
                if !regex_compiles(rp.as_str()) {
                    return Err(CleanError::InvalidPattern(rp));
                }
                match regex_captures_group1(rp.as_str(), current.as_str()) {
                    None => {},
                    Some(None) => {
                        return Err(CleanError::MalformedRules);
                    },
                    Some(Some(target)) => {
                        if fuel == 0 {
                            return Err(CleanError::TooManyRedirects);
                        }
                        match process_url_with_depth(target.as_str(), providers, fuel - 1) {
                            Err(e) => {
                                return Err(e);
                            },
                            Ok(cleaned) => {
                                current = cleaned;
                            },
                        }
                    },
                }
                j = j + 1;
            }
            match rewrite(current, p) {
                Err(e) => {
                    return Err(e);
                },
                Ok(rewritten) => {
                    current = rewritten;
                },
            }
        }
        i = i + 1;
    }
    let trimmed = trim_end_matches(current.as_str(), '?');
    Ok(trim_end_matches(trimmed.as_str(), '/'))
}

/// Cleans `url` with `providers`, following nested redirections as deep as
/// `u64::MAX`.
pub fn process_url(url: &str, providers: &Vec<Provider>) -> (r: Result<String, CleanError>)
    ensures
        clean_result_view(r) == clean_spec(url@, providers_view(providers@), u64::MAX as nat),
{
    process_url_with_depth(url, providers, u64::MAX)
}

/// What `clear_url` answers for a cleaning outcome `cleaned` of `link`:
/// the cleaned link where it differs from `link`, `None` where it does not.
pub open spec fn spec_report(link: Seq<char>, cleaned: CleanResult) -> Result<Option<Seq<char>>, CleanErrorView> {
    match cleaned {
        Err(e) => Err(e),
        Ok(c) => if c == link {
            Ok(None)
        } else {
            Ok(Some(c))
        },
    }
}

/// Cleans `link` with `providers`: `Some` holds the cleaned link where
/// cleaning changed it.
pub fn clear_url(link: &str, providers: &Vec<Provider>) -> (r: Result<Option<String>, CleanError>)
    ensures
        (match r {
            Err(e) => Err(e@),
            Ok(None) => Ok(None),
            Ok(Some(c)) => Ok(Some(c@)),
        }) == spec_report(link@, clean_spec(link@, providers_view(providers@), u64::MAX as nat)),
{
    match process_url(link, providers) {
        Err(e) => Err(e),
        Ok(cleaned) => if same_text(cleaned.as_str(), link) {
            Ok(None)
        } else {
            Ok(Some(cleaned))
        },
    }
}

/// The message that announces a cleaned link.
pub fn cleaned_message(cleaned: &str) -> (m: String)
    ensures
        m@ == "Cleaned that shit for you\n"@ + cleaned@,
{
    let mut m = "Cleaned that shit for you\n".to_owned();
    push_str(&mut m, cleaned);
    m
}

/// Whether none of the providers `ps[lo..hi]` matches `url`, each pattern
/// compiling.
pub open spec fn none_matches(url: Seq<char>, ps: Seq<ProviderView>, lo: int, hi: int) -> bool {
    forall|k: int|
        lo <= k < hi ==> regex_valid(unescaped(#[trigger] ps[k].url_pattern))
            && !regex_matches(unescaped(ps[k].url_pattern), url)
}

/// Trimming a character leaves none of it at the end.
pub proof fn lemma_trim_end_char(s: Seq<char>, c: char)
    ensures
        trim_end_char(s, c).len() == 0 || trim_end_char(s, c).last() != c,
        trim_end_char(s, c).len() <= s.len(),
        trim_end_char(s, c) == s.take(trim_end_char(s, c).len() as int),
    decreases s.len(),
{
    if s.len() > 0 && s.last() == c {
        lemma_trim_end_char(s.drop_last(), c);
        let t = trim_end_char(s.drop_last(), c);
        assert(s.drop_last().take(t.len() as int) =~= s.take(t.len() as int));
    } else {
        assert(s.take(s.len() as int) =~= s);
    }
}

/// A cleaned URL never ends with `/`.
pub proof fn lemma_cleaned_has_no_trailing_slash(url: Seq<char>, ps: Seq<ProviderView>, fuel: nat)
    ensures
        clean_spec(url, ps, fuel) matches Ok(u) ==> u.len() == 0 || u.last() != '/',
{
    if let Ok(u) = run_providers(url, ps, 0, fuel) {
        lemma_trim_end_char(trim_end_char(u, '?'), '/');
    }
}

/// Providers that do not match leave the URL as it is.
pub proof fn lemma_run_providers_no_match(url: Seq<char>, ps: Seq<ProviderView>, i: int, fuel: nat)
    requires
        0 <= i <= ps.len(),
        none_matches(url, ps, i, ps.len() as int),
    ensures
        run_providers(url, ps, i, fuel) == Ok::<Seq<char>, CleanErrorView>(url),
    decreases ps.len() - i,
{
    if i < ps.len() {
        lemma_run_providers_no_match(url, ps, i + 1, fuel);
    }
}

/// Where no provider matches, cleaning only trims trailing `?` then `/`.
pub proof fn lemma_no_match_only_trims(url: Seq<char>, ps: Seq<ProviderView>, fuel: nat)
    requires
        none_matches(url, ps, 0, ps.len() as int),
    ensures
        clean_spec(url, ps, fuel) == Ok::<Seq<char>, CleanErrorView>(trim_end_char(trim_end_char(url, '?'), '/')),
{
    lemma_run_providers_no_match(url, ps, 0, fuel);
}

/// Providers before the first one that matches change nothing.
pub proof fn lemma_run_providers_skip(url: Seq<char>, ps: Seq<ProviderView>, i: int, fuel: nat)
    requires
        0 <= i <= ps.len(),
        none_matches(url, ps, 0, i),
    ensures
        run_providers(url, ps, 0, fuel) == run_providers(url, ps, i, fuel),
    decreases i,
{
    if i > 0 {
        lemma_run_providers_skip(url, ps, i - 1, fuel);
        assert(none_matches(url, ps, 0, i - 1));
    }
}

/// The first matching provider, when it is a complete provider, blocks the
/// URL whatever its other entries hold: the result is empty.
pub proof fn lemma_complete_provider_blocks(url: Seq<char>, ps: Seq<ProviderView>, i: int, fuel: nat)
    requires
        0 <= i < ps.len(),
        none_matches(url, ps, 0, i),
        regex_valid(unescaped(ps[i].url_pattern)),
        regex_matches(unescaped(ps[i].url_pattern), url),
        ps[i].complete_provider,
    ensures
        clean_spec(url, ps, fuel) == Ok::<Seq<char>, CleanErrorView>(seq![]),
{
    lemma_run_providers_skip(url, ps, i, fuel);
    assert(trim_end_char(seq![], '?') == Seq::<char>::empty());
    assert(trim_end_char(seq![], '/') == Seq::<char>::empty());
}

/// The first matching provider, when it is malformed and not complete,
/// makes cleaning fail.
pub proof fn lemma_malformed_provider_refuses(url: Seq<char>, ps: Seq<ProviderView>, i: int, fuel: nat)
    requires
        0 <= i < ps.len(),
        none_matches(url, ps, 0, i),
        regex_valid(unescaped(ps[i].url_pattern)),
        regex_matches(unescaped(ps[i].url_pattern), url),
        !ps[i].complete_provider,
        ps[i].malformed,
    ensures
        clean_spec(url, ps, fuel) == Err::<Seq<char>, CleanErrorView>(CleanErrorView::MalformedRules),
{
    lemma_run_providers_skip(url, ps, i, fuel);
}

/// A redirection of the first matching provider that matches the URL is
/// followed: its capture group 1 is cleaned in full, and the provider's
/// rules then apply to the cleaned target.
pub proof fn lemma_redirection_followed(
    url: Seq<char>,
    ps: Seq<ProviderView>,
    i: int,
    redirection: Seq<char>,
    target: Seq<char>,
    fuel: nat,
)
    requires
        0 <= i < ps.len(),
        none_matches(url, ps, 0, i),
        regex_valid(unescaped(ps[i].url_pattern)),
        regex_matches(unescaped(ps[i].url_pattern), url),
        !ps[i].malformed,
        !ps[i].complete_provider,
        ps[i].redirections == seq![Some(redirection)],
        regex_valid(unescaped(redirection)),
        regex_matches(unescaped(redirection), url),
        regex_group1(unescaped(redirection), url) == Some(target),
        fuel > 0,
    ensures
        run_providers(url, ps, 0, fuel) == (match clean_spec(target, ps, (fuel - 1) as nat) {
            Err(e) => Err(e),
            Ok(cleaned) => match rewrite_spec(cleaned, ps[i]) {
                Err(e) => Err(e),
                Ok(rewritten) => run_providers(rewritten, ps, i + 1, fuel),
            },
        }),
{
    lemma_run_providers_skip(url, ps, i, fuel);
    let redirs = ps[i].redirections;
    assert(follow_redirections(url, redirs, 0, ps, i, fuel) == (match clean_spec(target, ps, (fuel - 1) as nat) {
        Err(e) => Err(e),
        Ok(cleaned) => follow_redirections(cleaned, redirs, 1, ps, i, fuel),
    }));
    if let Ok(cleaned) = clean_spec(target, ps, (fuel - 1) as nat) {
        assert(follow_redirections(cleaned, redirs, 1, ps, i, fuel) == Ok::<Seq<char>, CleanErrorView>(cleaned));
    }
}

} // verus!
