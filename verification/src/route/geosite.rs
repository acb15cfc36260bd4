//! Lists of domains by name.

use vstd::prelude::*;

use super::domain::{
    ascii_lowercase, ascii_uppercase, contains_text, holds_text, is_within,
    law_subdomains_end_in_a_dot_and_the_root, lemma_push_text, lowered_text, stands_at, text_views,
    trim_end_dots, uppered_text, within, without_end_dots,
};
use super::patterns::{
    any_regex_matches, compile_regex_set, regex_matches, regex_set_compiles, regex_set_is_match,
    regex_set_patterns,
};
use super::selector::{lists_text, GeositeDomainMatcher, SelectorModel};
use crate::assoc::AssocMap;

verus! {

/// How an entry of a list matches domains.
#[derive(Clone, Copy, Debug, PartialEq, Eq, Structural)]
pub enum GeositeDomainType {
    /// The domain contains the value.
    Plain,
    /// The domain matches the value as a regular expression.
    Regex,
    /// The domain is the value or lies under it.
    RootDomain,
    /// The domain is the value.
    Full,
}

/// The meaning of the number by which databases give the type.
pub open spec fn type_numbered(number: i32) -> Option<GeositeDomainType> {
    if number == 0 {
        Some(GeositeDomainType::Plain)
    } else if number == 1 {
        Some(GeositeDomainType::Regex)
    } else if number == 2 {
        Some(GeositeDomainType::RootDomain)
    } else if number == 3 {
        Some(GeositeDomainType::Full)
    } else {
        None
    }
}

impl GeositeDomainType {
    pub fn from_number(number: i32) -> (result: Option<Self>)
        ensures
            result == type_numbered(number),
    {
        match number {
            0 => Some(GeositeDomainType::Plain),
            1 => Some(GeositeDomainType::Regex),
            2 => Some(GeositeDomainType::RootDomain),
            3 => Some(GeositeDomainType::Full),
            _ => None,
        }
    }
}

/// An entry of a list in mathematical form.
pub struct DomainEntry {
    pub type_number: i32,
    pub value: Seq<char>,
    pub attributes: Seq<Seq<char>>,
}

/// An entry of a list.
#[derive(Debug, PartialEq, Eq)]
pub struct GeositeDomain {
    /// The number of the entry's type.
    pub type_number: i32,
    pub value: String,
    pub attributes: Vec<String>,
}

impl View for GeositeDomain {
    type V = DomainEntry;

    open spec fn view(&self) -> DomainEntry {
        DomainEntry {
            type_number: self.type_number,
            value: self.value@,
            attributes: text_views(self.attributes@),
        }
    }
}

/// A list of domains.
#[derive(Debug, PartialEq, Eq)]
pub struct GeositeList {
    pub country_code: String,
    pub domains: Vec<GeositeDomain>,
}

/// The entries of a list in mathematical form.
pub open spec fn entry_views(entries: Seq<GeositeDomain>) -> Seq<DomainEntry> {
    entries.map_values(|entry: GeositeDomain| entry@)
}

/// Whether an entry is selected: without attributes every entry is, else those with one of them.
pub open spec fn is_selected(entry: DomainEntry, attributes: Seq<Seq<char>>) -> bool {
    attributes.len() == 0 || exists|i: int|
        0 <= i < entry.attributes.len() && attributes.contains(#[trigger] entry.attributes[i])
}

/// What a list matches, by type of entry.
#[verifier::ext_equal]
pub struct CompiledModel {
    pub keywords: Seq<Seq<char>>,
    pub patterns: Seq<Seq<char>>,
    pub root_domains: Seq<Seq<char>>,
    pub full_domains: Seq<Seq<char>>,
}

/// Whether a domain lies within one of the roots.
pub open spec fn within_one_of(domain: Seq<char>, roots: Seq<Seq<char>>) -> bool {
    exists|i: int| 0 <= i < roots.len() && within(domain, #[trigger] roots[i])
}

/// Whether a domain contains one of the keywords.
pub open spec fn holds_one_of(domain: Seq<char>, keywords: Seq<Seq<char>>) -> bool {
    exists|i: int| 0 <= i < keywords.len() && holds_text(domain, #[trigger] keywords[i])
}

impl CompiledModel {
    pub open spec fn empty() -> CompiledModel {
        CompiledModel {
            keywords: Seq::empty(),
            patterns: Seq::empty(),
            root_domains: Seq::empty(),
            full_domains: Seq::empty(),
        }
    }

    pub open spec fn matches(self, domain: Seq<char>) -> bool {
        ||| self.full_domains.contains(domain)
        ||| within_one_of(domain, self.root_domains)
        ||| holds_one_of(domain, self.keywords)
        ||| any_regex_matches(self.patterns, domain)
    }

    /// With one more value of a type.
    pub open spec fn with(self, domain_type: GeositeDomainType, value: Seq<char>) -> CompiledModel {
        match domain_type {
            GeositeDomainType::Plain => CompiledModel {
                keywords: self.keywords.push(lowered_text(value)),
                ..self
            },
            GeositeDomainType::Regex => CompiledModel {
                patterns: self.patterns.push(value),
                ..self
            },
            GeositeDomainType::RootDomain => CompiledModel {
                root_domains: self.root_domains.push(lowered_text(value)),
                ..self
            },
            GeositeDomainType::Full => CompiledModel {
                full_domains: self.full_domains.push(lowered_text(value)),
                ..self
            },
        }
    }
}

/// Why a list cannot be compiled.
#[derive(Debug, PartialEq, Eq, Clone, Copy, Structural)]
pub enum GeositeError {
    /// There is no list of the name.
    UnknownList,
    /// A selected entry has a type of this number, which stands for no type.
    UnknownType(i32),
    /// The regular expressions of the list do not compile.
    InvalidRegex,
}

/// The selected entries by type, or the number of the first that has no type.
pub open spec fn gathered(entries: Seq<DomainEntry>, attributes: Seq<Seq<char>>) -> Result<
    CompiledModel,
    i32,
>
    decreases entries.len(),
{
    if entries.len() == 0 {
        Ok(CompiledModel::empty())
    } else {
        let entry = entries.last();
        match gathered(entries.drop_last(), attributes) {
            Err(number) => Err(number),
            Ok(model) => if !is_selected(entry, attributes) {
                Ok(model)
            } else {
                match type_numbered(entry.type_number) {
                    Some(domain_type) => Ok(
                        model.with(domain_type, without_end_dots(entry.value)),
                    ),
                    None => Err(entry.type_number),
                }
            },
        }
    }
}

/// What the selected entries match, or why they cannot be compiled.
pub open spec fn compiled_entries(entries: Seq<DomainEntry>, attributes: Seq<Seq<char>>) -> Result<
    CompiledModel,
    GeositeError,
> {
    match gathered(entries, attributes) {
        Err(number) => Err(GeositeError::UnknownType(number)),
        Ok(model) => if model.patterns.len() == 0 || regex_set_compiles(model.patterns) {
            Ok(model)
        } else {
            Err(GeositeError::InvalidRegex)
        },
    }
}

/// Whether one entry matches a domain.
pub open spec fn entry_matches(entry: DomainEntry, domain: Seq<char>) -> bool {
    let value = without_end_dots(entry.value);
    match type_numbered(entry.type_number) {
        Some(GeositeDomainType::Plain) => holds_text(domain, lowered_text(value)),
        Some(GeositeDomainType::Regex) => regex_matches(value, domain),
        Some(GeositeDomainType::RootDomain) => within(domain, lowered_text(value)),
        Some(GeositeDomainType::Full) => domain == lowered_text(value),
        None => false,
    }
}

proof fn lemma_with_matches(
    model: CompiledModel,
    domain_type: GeositeDomainType,
    value: Seq<char>,
    domain: Seq<char>,
)
    ensures
        model.with(domain_type, value).matches(domain) == (model.matches(domain) || match domain_type {
            GeositeDomainType::Plain => holds_text(domain, lowered_text(value)),
            GeositeDomainType::Regex => regex_matches(value, domain),
            GeositeDomainType::RootDomain => within(domain, lowered_text(value)),
            GeositeDomainType::Full => domain == lowered_text(value),
        }),
{
    let more = model.with(domain_type, value);
    let lowered = lowered_text(value);
    match domain_type {
        GeositeDomainType::Plain => {
            assert(more.keywords[model.keywords.len() as int] == lowered);
            assert forall|i: int| 0 <= i < model.keywords.len() implies more.keywords[i]
                == #[trigger] model.keywords[i] by {}
            assert(holds_one_of(domain, more.keywords) == (holds_one_of(domain, model.keywords)
                || holds_text(domain, lowered)));
        },
        GeositeDomainType::Regex => {
            assert(more.patterns[model.patterns.len() as int] == value);
            assert forall|i: int| 0 <= i < model.patterns.len() implies more.patterns[i]
                == #[trigger] model.patterns[i] by {}
            assert(any_regex_matches(more.patterns, domain) == (any_regex_matches(
                model.patterns,
                domain,
            ) || regex_matches(value, domain)));
        },
        GeositeDomainType::RootDomain => {
            assert(more.root_domains[model.root_domains.len() as int] == lowered);
            assert forall|i: int| 0 <= i < model.root_domains.len() implies more.root_domains[i]
                == #[trigger] model.root_domains[i] by {}
            assert(within_one_of(domain, more.root_domains) == (within_one_of(
                domain,
                model.root_domains,
            ) || within(domain, lowered)));
        },
        GeositeDomainType::Full => {
            assert(more.full_domains[model.full_domains.len() as int] == lowered);
            assert forall|i: int| 0 <= i < model.full_domains.len() implies more.full_domains[i]
                == #[trigger] model.full_domains[i] by {}
            assert(more.full_domains.contains(domain) == (model.full_domains.contains(domain)
                || domain == lowered));
        },
    }
}

proof fn lemma_gathered_matches(
    entries: Seq<DomainEntry>,
    attributes: Seq<Seq<char>>,
    domain: Seq<char>,
)
    ensures
        gathered(entries, attributes) matches Ok(model) ==> (model.matches(domain) <==> exists|
            i: int,
        |
            0 <= i < entries.len() && is_selected(#[trigger] entries[i], attributes)
                && entry_matches(entries[i], domain)),
    decreases entries.len(),
{
    if entries.len() > 0 {
        let front = entries.drop_last();
        let entry = entries.last();
        lemma_gathered_matches(front, attributes, domain);
        if gathered(entries, attributes) is Ok {
            let model = gathered(front, attributes)->Ok_0;
            let whole = gathered(entries, attributes)->Ok_0;
            if is_selected(entry, attributes) {
                lemma_with_matches(
                    model,
                    type_numbered(entry.type_number)->Some_0,
                    without_end_dots(entry.value),
                    domain,
                );
            }
            assert forall|i: int| 0 <= i < front.len() implies front[i] == #[trigger] entries[i] by {}
            if whole.matches(domain) {
                if model.matches(domain) {
                    let i = choose|i: int|
                        0 <= i < front.len() && is_selected(#[trigger] front[i], attributes)
                            && entry_matches(front[i], domain);
                    assert(is_selected(entries[i], attributes));
                } else {
                    assert(is_selected(entries[entries.len() - 1], attributes));
                }
            }
            if exists|i: int|
                0 <= i < entries.len() && is_selected(#[trigger] entries[i], attributes)
                    && entry_matches(entries[i], domain) {
                let i = choose|i: int|
                    0 <= i < entries.len() && is_selected(#[trigger] entries[i], attributes)
                        && entry_matches(entries[i], domain);
                if i < front.len() {
                    assert(is_selected(front[i], attributes));
                }
            }
        }
    }
}

/// A list that compiles matches a domain exactly where one of its selected entries does.
pub proof fn law_list_matches_by_its_entries(
    entries: Seq<DomainEntry>,
    attributes: Seq<Seq<char>>,
    domain: Seq<char>,
)
    ensures
        compiled_entries(entries, attributes) matches Ok(model) ==> (model.matches(domain)
            <==> exists|i: int|
            0 <= i < entries.len() && is_selected(#[trigger] entries[i], attributes)
                && entry_matches(entries[i], domain)),
{
    lemma_gathered_matches(entries, attributes, domain);
}

/// What a list matches, ready for use.
pub struct CompiledGeositeMatcher {
    keywords: Vec<String>,
    regexes: Option<regex::RegexSet>,
    root_domains: Vec<String>,
    full_domains: Vec<String>,
}

impl View for CompiledGeositeMatcher {
    type V = CompiledModel;

    closed spec fn view(&self) -> CompiledModel {
        CompiledModel {
            keywords: text_views(self.keywords@),
            patterns: match self.regexes {
                Some(set) => regex_set_patterns(set),
                None => Seq::empty(),
            },
            root_domains: text_views(self.root_domains@),
            full_domains: text_views(self.full_domains@),
        }
    }
}

fn check_selected(entry: &GeositeDomain, attributes: &Vec<String>) -> (result: bool)
    ensures
        result == is_selected(entry@, text_views(attributes@)),
{
    if attributes.len() == 0 {
        return true;
    }
    assert(text_views(attributes@).len() > 0);
    let mut index: usize = 0;
    while index < entry.attributes.len()
        invariant
            index <= entry.attributes@.len(),
            forall|i: int|
                0 <= i < index ==> !text_views(attributes@).contains(
                    #[trigger] entry@.attributes[i],
                ),
        decreases entry.attributes@.len() - index,
    {
        assert(entry@.attributes[index as int] == entry.attributes@[index as int]@);
        if lists_text(attributes, entry.attributes[index].as_str()) {
            return true;
        }
        index += 1;
    }
    false
}

/// Whether a domain lies within one of the roots.
pub fn root_domain_matches(root_domains: &Vec<String>, domain: &str) -> (result: bool)
    ensures
        result == within_one_of(domain@, text_views(root_domains@)),
{
    let ghost roots = text_views(root_domains@);
    let mut index: usize = 0;
    while index < root_domains.len()
        invariant
            index <= root_domains@.len(),
            roots == text_views(root_domains@),
            forall|i: int| 0 <= i < index ==> !within(domain@, #[trigger] roots[i]),
        decreases root_domains@.len() - index,
    {
        assert(roots[index as int] == root_domains@[index as int]@);
        if is_within(domain, root_domains[index].as_str()) {
            return true;
        }
        index += 1;
    }
    false
}

fn keyword_matches(keywords: &Vec<String>, domain: &str) -> (result: bool)
    ensures
        result == holds_one_of(domain@, text_views(keywords@)),
{
    let ghost views = text_views(keywords@);
    let mut index: usize = 0;
    while index < keywords.len()
        invariant
            index <= keywords@.len(),
            views == text_views(keywords@),
            forall|i: int| 0 <= i < index ==> !holds_text(domain@, #[trigger] views[i]),
        decreases keywords@.len() - index,
    {
        assert(views[index as int] == keywords@[index as int]@);
        if contains_text(domain, keywords[index].as_str()) {
            return true;
        }
        index += 1;
    }
    false
}

proof fn lemma_unknown_type_persists(
    entries: Seq<DomainEntry>,
    attributes: Seq<Seq<char>>,
    length: int,
)
    requires
        0 <= length <= entries.len(),
        gathered(entries.take(length), attributes) is Err,
    ensures
        gathered(entries, attributes) == gathered(entries.take(length), attributes),
    decreases entries.len() - length,
{
    if length < entries.len() {
        assert(entries.take(length + 1).drop_last() =~= entries.take(length));
        lemma_unknown_type_persists(entries, attributes, length + 1);
    } else {
        assert(entries.take(length) =~= entries);
    }
}

impl CompiledGeositeMatcher {
    /// Compiles the entries of a list that have one of the attributes.
    pub fn new(entries: &Vec<GeositeDomain>, attributes: &Vec<String>) -> (result: Result<
        Self,
        GeositeError,
    >)
        ensures
            match compiled_entries(entry_views(entries@), text_views(attributes@)) {
                Ok(model) => result matches Ok(matcher) && matcher@ == model,
                Err(error) => result matches Err(given) && given == error,
            },
    {
        let ghost all = entry_views(entries@);
        let ghost selected = text_views(attributes@);
        let mut keywords: Vec<String> = Vec::new();
        let mut patterns: Vec<String> = Vec::new();
        let mut root_domains: Vec<String> = Vec::new();
        let mut full_domains: Vec<String> = Vec::new();
        let mut index: usize = 0;
        proof {
            assert(all.take(0) =~= Seq::empty());
            assert(text_views(keywords@) =~= Seq::empty());
        }
        while index < entries.len()
            invariant
                index <= entries@.len(),
                all == entry_views(entries@),
                selected == text_views(attributes@),
                gathered(all.take(index as int), selected) == Ok::<CompiledModel, i32>(
                    CompiledModel {
                        keywords: text_views(keywords@),
                        patterns: text_views(patterns@),
                        root_domains: text_views(root_domains@),
                        full_domains: text_views(full_domains@),
                    },
                ),
            decreases entries@.len() - index,
        {
            let entry = &entries[index];
            proof {
                assert(all.take(index + 1).drop_last() =~= all.take(index as int));
                assert(all.take(index + 1).last() == entry@);
            }
            if check_selected(entry, attributes) {
                let value = trim_end_dots(entry.value.as_str());
                match GeositeDomainType::from_number(entry.type_number) {
                    Some(GeositeDomainType::Plain) => {
                        let keyword = ascii_lowercase(value);
                        proof {
                            lemma_push_text(keywords@, keyword);
                        }
                        keywords.push(keyword);
                    },
                    Some(GeositeDomainType::Regex) => {
                        let pattern = value.to_owned();
                        proof {
                            lemma_push_text(patterns@, pattern);
                        }
                        patterns.push(pattern);
                    },
                    Some(GeositeDomainType::RootDomain) => {
                        let root = ascii_lowercase(value);
                        proof {
                            lemma_push_text(root_domains@, root);
                        }
                        root_domains.push(root);
                    },
                    Some(GeositeDomainType::Full) => {
                        let full = ascii_lowercase(value);
                        proof {
                            lemma_push_text(full_domains@, full);
                        }
                        full_domains.push(full);
                    },
                    None => {
                        proof {
                            lemma_unknown_type_persists(all, selected, index + 1);
                        }
                        return Err(GeositeError::UnknownType(entry.type_number));
                    },
                }
            }
            index += 1;
        }
        assert(all.take(all.len() as int) =~= all);
        let regexes = if patterns.len() == 0 {
            assert(text_views(patterns@) =~= Seq::empty());
            None
        } else {
            match compile_regex_set(&patterns) {
                Ok(set) => Some(set),
                Err(_) => {
                    return Err(GeositeError::InvalidRegex);
                },
            }
        };
        Ok(CompiledGeositeMatcher { keywords, regexes, root_domains, full_domains })
    }

    /// Whether the list matches a domain.
    pub fn matches(&self, domain: &str) -> (result: bool)
        ensures
            result == self@.matches(domain@),
    {
        lists_text(&self.full_domains, domain) || root_domain_matches(&self.root_domains, domain)
            || keyword_matches(&self.keywords, domain) || match &self.regexes {
            Some(set) => regex_set_is_match(set, domain),
            None => false,
        }
    }
}

/// Why lists cannot make up a database.
#[derive(Debug, PartialEq, Eq)]
pub enum GeositeListError {
    /// A list has no name.
    EmptyName,
    /// Two lists have this name.
    DuplicateName(String),
}

/// The mathematical form of a `GeositeListError`.
pub enum GeositeListFault {
    EmptyName,
    DuplicateName(Seq<char>),
}

impl View for GeositeListError {
    type V = GeositeListFault;

    open spec fn view(&self) -> GeositeListFault {
        match self {
            GeositeListError::EmptyName => GeositeListFault::EmptyName,
            GeositeListError::DuplicateName(name) => GeositeListFault::DuplicateName(name@),
        }
    }
}

/// Lists by name.
pub type Sites = Map<Seq<char>, Seq<DomainEntry>>;

/// The lists by their names in upper case, or what is wrong with the first that cannot stand.
pub open spec fn sites_of(lists: Seq<GeositeList>) -> Result<Sites, GeositeListFault>
    decreases lists.len(),
{
    if lists.len() == 0 {
        Ok(Map::empty())
    } else {
        let name = uppered_text(lists.last().country_code@);
        match sites_of(lists.drop_last()) {
            Err(fault) => Err(fault),
            Ok(sites) => if name.len() == 0 {
                Err(GeositeListFault::EmptyName)
            } else if sites.contains_key(name) {
                Err(GeositeListFault::DuplicateName(name))
            } else {
                Ok(sites.insert(name, entry_views(lists.last().domains@)))
            },
        }
    }
}

proof fn lemma_list_fault_persists(lists: Seq<GeositeList>, length: int)
    requires
        0 <= length <= lists.len(),
        sites_of(lists.take(length)) is Err,
    ensures
        sites_of(lists) == sites_of(lists.take(length)),
    decreases lists.len() - length,
{
    if length < lists.len() {
        assert(lists.take(length + 1).drop_last() =~= lists.take(length));
        lemma_list_fault_persists(lists, length + 1);
    } else {
        assert(lists.take(length) =~= lists);
    }
}

/// What a selector matches, or why it matches nothing.
pub open spec fn compiled_selector(sites: Sites, selector: SelectorModel) -> Result<
    CompiledModel,
    GeositeError,
> {
    if sites.contains_key(selector.site) {
        compiled_entries(sites[selector.site], selector.attributes)
    } else {
        Err(GeositeError::UnknownList)
    }
}

/// Whether a selector matches a domain. One that does not compile matches nothing.
pub open spec fn selector_matches(sites: Sites, selector: SelectorModel, domain: Seq<char>) -> bool {
    compiled_selector(sites, selector) matches Ok(model) && model.matches(domain)
}

/// Lists by name, with the selectors that were compiled so far.
pub struct GeositeDatabase {
    sites: AssocMap<String, Vec<GeositeDomain>>,
    matchers: Vec<(GeositeDomainMatcher, Option<CompiledGeositeMatcher>)>,
}

/// Every list as a sequence of entries.
pub open spec fn site_views(sites: Map<Seq<char>, Vec<GeositeDomain>>) -> Sites {
    sites.map_values(|entries: Vec<GeositeDomain>| entry_views(entries@))
}

impl View for GeositeDatabase {
    type V = Sites;

    closed spec fn view(&self) -> Sites {
        site_views(self.sites@)
    }
}

impl GeositeDatabase {
    /// What is kept of a selector is what compiling it gives.
    pub closed spec fn wf(&self) -> bool {
        &&& self.sites.wf()
        &&& forall|i: int|
            0 <= i < self.matchers@.len() ==> match (#[trigger] self.matchers@[i]).1 {
                Some(matcher) => compiled_selector(self@, self.matchers@[i].0@) == Ok::<
                    CompiledModel,
                    GeositeError,
                >(matcher@),
                None => compiled_selector(self@, self.matchers@[i].0@) is Err,
            }
    }

    /// A database of lists.
    pub fn new(lists: Vec<GeositeList>) -> (result: Result<Self, GeositeListError>)
        ensures
            match sites_of(lists@) {
                Ok(sites) => result matches Ok(database) && database.wf() && database@ == sites,
                Err(fault) => result matches Err(error) && error@ == fault,
            },
    {
        let ghost all = lists@;
        let mut sites: AssocMap<String, Vec<GeositeDomain>> = AssocMap::new();
        proof {
            assert(all.take(0) =~= Seq::empty());
            assert(site_views(sites@) =~= Map::empty());
        }
        for list in iter: lists
            invariant
                iter.seq() == all,
                sites.wf(),
                sites_of(all.take(iter.index() as int)) == Ok::<Sites, GeositeListFault>(
                    site_views(sites@),
                ),
        {
            let ghost index = iter.index() as int;
            proof {
                assert(all.take(index + 1).drop_last() =~= all.take(index));
                assert(all.take(index + 1).last() == list);
            }
            let name = ascii_uppercase(list.country_code.as_str());
            let ghost before = sites@;
            if name.as_str().is_empty() {
                proof {
                    lemma_empty_text(name@);
                    lemma_list_fault_persists(all, index + 1);
                }
                return Err(GeositeListError::EmptyName);
            }
            proof {
                lemma_empty_text(name@);
            }
            if sites.contains(&name) {
                proof {
                    lemma_list_fault_persists(all, index + 1);
                }
                return Err(GeositeListError::DuplicateName(name));
            }
            let _ = sites.insert(name.clone(), list.domains);
            assert(site_views(sites@) =~= site_views(before).insert(
                name@,
                entry_views(list.domains@),
            ));
        }
        assert(all.take(all.len() as int) =~= all);
        Ok(GeositeDatabase { sites, matchers: Vec::new() })
    }

    /// Compiles a selector.
    pub fn compile(&self, matcher: &GeositeDomainMatcher) -> (result: Result<
        CompiledGeositeMatcher,
        GeositeError,
    >)
        requires
            self.wf(),
        ensures
            match compiled_selector(self@, matcher@) {
                Ok(model) => result matches Ok(compiled) && compiled@ == model,
                Err(error) => result matches Err(given) && given == error,
            },
    {
        match self.sites.get(&matcher.site) {
            Some(entries) => CompiledGeositeMatcher::new(entries, &matcher.attributes),
            None => Err(GeositeError::UnknownList),
        }
    }

    /// Where a selector that was compiled before is kept.
    fn find_compiled(&self, matcher: &GeositeDomainMatcher) -> (result: Option<usize>)
        ensures
            match result {
                Some(index) => index < self.matchers@.len() && self.matchers@[index as int].0@
                    == matcher@,
                None => forall|i: int|
                    0 <= i < self.matchers@.len() ==> (#[trigger] self.matchers@[i]).0@ != matcher@,
            },
    {
        let mut index: usize = 0;
        while index < self.matchers.len()
            invariant
                index <= self.matchers@.len(),
                forall|i: int| 0 <= i < index ==> (#[trigger] self.matchers@[i]).0@ != matcher@,
            decreases self.matchers@.len() - index,
        {
            if self.matchers[index].0.same(matcher) {
                return Some(index);
            }
            index += 1;
        }
        None
    }

    /// Whether a selector matches a domain. It is compiled once.
    pub fn matches(&mut self, matcher: &GeositeDomainMatcher, domain: &str) -> (result: bool)
        requires
            old(self).wf(),
        ensures
            final(self).wf(),
            final(self)@ == old(self)@,
            result == selector_matches(old(self)@, matcher@, domain@),
    {
        let index: usize = match self.find_compiled(matcher) {
            Some(index) => index,
            None => {
                let compiled = match self.compile(matcher) {
                    Ok(compiled) => Some(compiled),
                    Err(_) => None,
                };
                self.matchers.push((matcher.clone(), compiled));
                self.matchers.len() - 1
            },
        };
        match &self.matchers[index].1 {
            Some(compiled) => compiled.matches(domain),
            None => false,
        }
    }
}

proof fn lemma_empty_text(text: Seq<char>)
    ensures
        vstd::utf8::encode_utf8(text).len() == 0 <==> text.len() == 0,
{
    if text.len() > 0 && vstd::utf8::encode_utf8(text).len() == 0 {
        assert(vstd::utf8::encode_utf8(text) =~= vstd::utf8::encode_utf8(Seq::<char>::empty()));
        crate::text::lemma_utf8_injective(text, Seq::empty());
    }
}

/// The state of the domain lists.
pub struct GeositeModel {
    pub sites: Option<Sites>,
    pub updating: bool,
}

/// The domain lists of a node, which may not be there yet.
pub struct Geosite {
    database: Option<GeositeDatabase>,
    updating: bool,
}

impl View for Geosite {
    type V = GeositeModel;

    closed spec fn view(&self) -> GeositeModel {
        GeositeModel {
            sites: match self.database {
                Some(database) => Some(database@),
                None => None,
            },
            updating: self.updating,
        }
    }
}

/// Whether a selector matches a domain, where the lists are there.
pub open spec fn geosite_matches(
    sites: Option<Sites>,
    selector: SelectorModel,
    domain: Seq<char>,
) -> bool {
    sites matches Some(sites) && selector_matches(sites, selector, domain)
}

impl Geosite {
    pub closed spec fn wf(&self) -> bool {
        self.database matches Some(database) ==> database.wf()
    }

    /// The lists that a node starts with.
    pub fn new(database: Option<GeositeDatabase>) -> (geosite: Self)
        requires
            database matches Some(database) ==> database.wf(),
        ensures
            geosite.wf(),
            geosite@.sites == match database {
                Some(database) => Some(database@),
                None => None,
            },
            !geosite@.updating,
    {
        Geosite { database, updating: false }
    }

    /// Called when a rule needs the lists. Returns whether keeping them up to date has to be
    /// started, which is so once.
    pub fn ensure_updating(&mut self) -> (start: bool)
        requires
            old(self).wf(),
        ensures
            final(self).wf(),
            final(self)@ == (GeositeModel { updating: true, ..old(self)@ }),
            start == !old(self)@.updating,
    {
        let start = !self.updating;
        self.updating = true;
        start
    }

    /// Replaces the lists.
    pub fn install(&mut self, database: GeositeDatabase)
        requires
            old(self).wf(),
            database.wf(),
        ensures
            final(self).wf(),
            final(self)@ == (GeositeModel { sites: Some(database@), ..old(self)@ }),
    {
        self.database = Some(database);
    }

    /// Whether a selector matches a domain. Without lists nothing matches.
    pub fn matches(&mut self, matcher: &GeositeDomainMatcher, domain: &str) -> (result: bool)
        requires
            old(self).wf(),
        ensures
            final(self).wf(),
            final(self)@ == old(self)@,
            result == geosite_matches(old(self)@.sites, matcher@, domain@),
    {
        match self.database.take() {
            Some(mut database) => {
                let result = database.matches(matcher, domain);
                self.database = Some(database);
                result
            },
            None => false,
        }
    }
}

/// What an entry matches, by its type: 0 a domain that holds the value, 1 what the expression
/// matches, 2 the value and everything under it, 3 the value alone; nothing for any other type.
pub proof fn law_entries_match_by_their_type(entry: DomainEntry, domain: Seq<char>)
    ensures
        ({
            let value = lowered_text(without_end_dots(entry.value));
            &&& entry.type_number == 0 ==> (entry_matches(entry, domain) <==> exists|
                before: Seq<char>,
                after: Seq<char>,
            | domain == #[trigger] (before + value + after))
            &&& entry.type_number == 1 ==> (entry_matches(entry, domain) <==> regex_matches(
                without_end_dots(entry.value),
                domain,
            ))
            &&& entry.type_number == 2 ==> (entry_matches(entry, domain) <==> domain == value
                || exists|prefix: Seq<char>| domain == #[trigger] (prefix + seq!['.'] + value))
            &&& entry.type_number == 3 ==> (entry_matches(entry, domain) <==> domain == value)
            &&& entry.type_number < 0 || entry.type_number > 3 ==> !entry_matches(entry, domain)
        }),
{
    let value = lowered_text(without_end_dots(entry.value));
    law_subdomains_end_in_a_dot_and_the_root(domain, value);
    if entry.type_number == 0 {
        if holds_text(domain, value) {
            let at = choose|at: int| stands_at(domain, value, at);
            let before = domain.take(at);
            let after = domain.skip(at + value.len());
            assert(domain =~= before + value + after) by {
                assert(domain.subrange(at, at + value.len()) =~= value);
            }
        }
        if exists|before: Seq<char>, after: Seq<char>| domain == #[trigger] (before + value + after) {
            let (before, after) = choose|before: Seq<char>, after: Seq<char>|
                domain == #[trigger] (before + value + after);
            let at = before.len() as int;
            assert(domain.subrange(at, at + value.len()) =~= value);
            assert(stands_at(domain, value, at));
        }
    }
}

/// An entry is selected where no attribute is asked for or it has one of those asked for.
pub proof fn law_entries_are_selected_by_attribute(
    entry: DomainEntry,
    attributes: Seq<Seq<char>>,
)
    ensures
        attributes.len() == 0 ==> is_selected(entry, attributes),
        attributes.len() > 0 ==> (is_selected(entry, attributes) <==> exists|i: int, j: int|
            0 <= i < entry.attributes.len() && 0 <= j < attributes.len()
                && #[trigger] entry.attributes[i] == #[trigger] attributes[j]),
{
    if attributes.len() > 0 && is_selected(entry, attributes) {
        let i = choose|i: int|
            0 <= i < entry.attributes.len() && attributes.contains(#[trigger] entry.attributes[i]);
        let j = choose|j: int| 0 <= j < attributes.len() && attributes[j] == entry.attributes[i];
        assert(entry.attributes[i] == attributes[j]);
    }
}

/// Lists are known by their names in upper case, each with its own entries; a name that is empty or
/// given twice is refused.
pub proof fn law_lists_are_known_by_name(lists: Seq<GeositeList>, index: int, other: int)
    ensures
        sites_of(lists) matches Ok(sites) && 0 <= index < lists.len() ==> ({
            let name = uppered_text(lists[index].country_code@);
            &&& name.len() > 0
            &&& sites_of(lists)->Ok_0.contains_key(name)
            &&& sites_of(lists)->Ok_0[name] == entry_views(lists[index].domains@)
        }),
        0 <= index < other < lists.len() && uppered_text(lists[index].country_code@)
            == uppered_text(lists[other].country_code@) ==> sites_of(lists) is Err,
        0 <= index < lists.len() && lists[index].country_code@.len() == 0 ==> sites_of(lists)
            is Err,
    decreases lists.len(),
{
    if lists.len() > 0 {
        let front = lists.drop_last();
        law_lists_are_known_by_name(front, index, other);
        if 0 <= index < other && other == lists.len() - 1 {
            law_lists_are_known_by_name(front, index, index);
        }
        if 0 <= index < front.len() {
            assert(front[index] == lists[index]);
        }
        if 0 <= other < front.len() {
            assert(front[other] == lists[other]);
        }
    }
}

/// Without lists, or in a list that there is not, nothing matches.
pub proof fn law_unknown_lists_match_nothing(
    sites: Sites,
    selector: SelectorModel,
    domain: Seq<char>,
)
    ensures
        !geosite_matches(None, selector, domain),
        !sites.contains_key(selector.site) ==> !geosite_matches(Some(sites), selector, domain),
        sites.contains_key(selector.site) && compiled_entries(
            sites[selector.site],
            selector.attributes,
        ) is Ok ==> (geosite_matches(Some(sites), selector, domain) <==> exists|i: int|
            0 <= i < sites[selector.site].len() && is_selected(
                #[trigger] sites[selector.site][i],
                selector.attributes,
            ) && entry_matches(sites[selector.site][i], domain)),
{
    if sites.contains_key(selector.site) {
        law_list_matches_by_its_entries(sites[selector.site], selector.attributes, domain);
    }
}

/// An update is started once; while it runs no other is.
pub proof fn law_updates_are_started_once(
    first: &mut Geosite,
    second: &mut Geosite,
    start: bool,
    start_then: bool,
)
    requires
        old(first).wf(),
        call_ensures(Geosite::ensure_updating, (first,), start),
        *old(second) == *final(first),
        call_ensures(Geosite::ensure_updating, (second,), start_then),
    ensures
        start <==> !old(first)@.updating,
        !start_then,
        final(second)@.sites == old(first)@.sites,
{
}

/// The types of entries are numbered 0 for keywords, 1 for regular expressions, 2 for domains with
/// what lies below them and 3 for single domains; there are no others.
pub proof fn law_entry_types_are_numbered(number: i32, found: Option<GeositeDomainType>)
    requires
        call_ensures(GeositeDomainType::from_number, (number,), found),
    ensures
        found == Some(GeositeDomainType::Plain) <==> number == 0,
        found == Some(GeositeDomainType::Regex) <==> number == 1,
        found == Some(GeositeDomainType::RootDomain) <==> number == 2,
        found == Some(GeositeDomainType::Full) <==> number == 3,
        found is None <==> number < 0 || number > 3,
{
}

} // verus!
