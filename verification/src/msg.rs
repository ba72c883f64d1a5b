use vstd::prelude::*;

use crate::data::{AttributeValue, AttributeView, Block, EventView, Tx, events_view};
use crate::error::{ErrorView, StargridError};
use crate::text::push_char;
use crate::json::JsonValue;

verus! {

/// A request that a client of the repeater sends.
#[derive(Debug)]
pub enum RepeaterMessage {
    Subscribe(RepeaterSubscription),
}

/// What a client subscribes to.
#[derive(Debug)]
pub enum RepeaterSubscription {
    /// Subscribe to whole blocks
    Blocks,
    /// Subscribe to specific transactions by log events
    Txs(RepeaterTxSubscription),
}

/// A subscription to the transactions that pass all of its filters.
#[derive(Debug)]
pub struct RepeaterTxSubscription {
    /// ID of this subscription unique to the client. If the ID is already in use, responds with an error.
    pub id: u64,
    /// Filters for one or more event types and/or attributes. Cannot be empty. All filters must apply.
    pub filters: Vec<EventFilter>,
}

/// A filter on the events of a transaction: the event's name, and a filter for
/// each attribute name that must be present.
#[derive(Debug)]
pub struct EventFilter {
    /// Name of the event to filter for
    pub name: String,
    /// Attribute filters to apply
    pub attributes: Vec<(String, AttributeFilter)>,
}

/// A filter on the value of one attribute.
#[derive(Debug)]
pub enum AttributeFilter {
    /// At least one of the given sub-filters
    AnyOf(Vec<AttributeFilter>),
    /// All of the given sub-filters
    AllOf(Vec<AttributeFilter>),
    /// Invert the given sub-filter
    Not(Box<AttributeFilter>),
    /// Glob-like matching of the whole text: `*` stands for any run of
    /// characters and `?` for any one character (line feeds aside, as with the
    /// regex `.`), a backslash makes the character after it stand for itself,
    /// and every other character stands for itself.
    Match(String),
}

/// What the repeater hands on to its clients.
#[derive(Debug)]
pub enum Broadcast {
    /// Necessary non-event for tokio watch channels
    Nothing,
    /// Broadcast a block
    Block(Block),
    /// Broadcast a transaction
    Tx(Tx),
    /// Broadcast that the Stargrid server is terminating
    Close,
}

// ---------------------------------------------------------------------------
// Views
// ---------------------------------------------------------------------------

pub enum FilterView {
    AnyOf(Seq<FilterView>),
    AllOf(Seq<FilterView>),
    Not(Box<FilterView>),
    Match(Seq<char>),
}

pub open spec fn filter_view(f: AttributeFilter) -> FilterView
    decreases f,
{
    match f {
        AttributeFilter::AnyOf(v) => FilterView::AnyOf(
            Seq::new(
                v.len() as nat,
                |i: int|
                    if 0 <= i < v.len() {
                        filter_view(v@[i])
                    } else {
                        FilterView::Match(Seq::empty())
                    },
            ),
        ),
        AttributeFilter::AllOf(v) => FilterView::AllOf(
            Seq::new(
                v.len() as nat,
                |i: int|
                    if 0 <= i < v.len() {
                        filter_view(v@[i])
                    } else {
                        FilterView::Match(Seq::empty())
                    },
            ),
        ),
        AttributeFilter::Not(g) => FilterView::Not(Box::new(filter_view(*g))),
        AttributeFilter::Match(p) => FilterView::Match(p@),
    }
}

impl View for AttributeFilter {
    type V = FilterView;

    open spec fn view(&self) -> FilterView {
        filter_view(*self)
    }
}

pub struct EventFilterView {
    pub name: Seq<char>,
    pub attributes: Seq<(Seq<char>, FilterView)>,
}

impl View for EventFilter {
    type V = EventFilterView;

    open spec fn view(&self) -> EventFilterView {
        EventFilterView {
            name: self.name@,
            attributes: self.attributes@.map_values(|p: (String, AttributeFilter)| (p.0@, p.1@)),
        }
    }
}

pub open spec fn filters_view(filters: Seq<EventFilter>) -> Seq<EventFilterView> {
    filters.map_values(|f: EventFilter| f@)
}

pub enum SubscriptionView {
    Blocks,
    Txs { id: u64, filters: Seq<EventFilterView> },
}

impl View for RepeaterSubscription {
    type V = SubscriptionView;

    open spec fn view(&self) -> SubscriptionView {
        match self {
            RepeaterSubscription::Blocks => SubscriptionView::Blocks,
            RepeaterSubscription::Txs(tx) => SubscriptionView::Txs {
                id: tx.id,
                filters: filters_view(tx.filters@),
            },
        }
    }
}

pub open spec fn subscriptions_view(subs: Seq<RepeaterSubscription>) -> Seq<SubscriptionView> {
    subs.map_values(|s: RepeaterSubscription| s@)
}

// ---------------------------------------------------------------------------
// Glob patterns
// ---------------------------------------------------------------------------

/// The characters that have a meaning of their own in the syntax of the regex
/// crate (its `is_meta_character`).
pub open spec fn is_regex_meta(c: char) -> bool {
    ||| c == '\\' || c == '.' || c == '+' || c == '*' || c == '?' || c == '('
    ||| c == ')' || c == '|' || c == '[' || c == ']' || c == '{' || c == '}'
    ||| c == '^' || c == '$' || c == '#' || c == '&' || c == '-' || c == '~'
}

/// The regular expression text that matches the one character `c` and nothing
/// else: `c` itself, behind a backslash where it is a regex metacharacter.
pub open spec fn literal_regex(c: char) -> Seq<char> {
    if is_regex_meta(c) {
        seq!['\\', c]
    } else {
        seq![c]
    }
}

/// The regular expression text that matches `s` character for character.
pub open spec fn literal_text(s: Seq<char>) -> Seq<char>
    decreases s.len(),
{
    if s.len() == 0 {
        Seq::empty()
    } else {
        literal_regex(s[0]) + literal_text(s.drop_first())
    }
}

/// The regular expression text for the rest of a glob pattern, read in escape
/// mode or not. Out of escape mode `*` becomes `.*`, `?` becomes `.`, and a
/// backslash turns escape mode on and stands for nothing. Every other
/// character, and any character at all in escape mode (which it then leaves),
/// stands for itself alone: it is copied, behind a backslash where it is a
/// regex metacharacter.
pub open spec fn glob_body(p: Seq<char>, escape: bool) -> Seq<char>
    decreases p.len(),
{
    if p.len() == 0 {
        Seq::empty()
    } else if escape {
        literal_regex(p[0]) + glob_body(p.drop_first(), false)
    } else if p[0] == '*' {
        seq!['.', '*'] + glob_body(p.drop_first(), false)
    } else if p[0] == '?' {
        seq!['.'] + glob_body(p.drop_first(), false)
    } else if p[0] == '\\' {
        glob_body(p.drop_first(), true)
    } else {
        literal_regex(p[0]) + glob_body(p.drop_first(), false)
    }
}

/// The anchored regular expression for a glob pattern.
pub open spec fn glob_regex(p: Seq<char>) -> Seq<char> {
    seq!['^'] + glob_body(p, false) + seq!['$']
}

/// Whether `c` is a regex metacharacter.
fn is_regex_meta_char(c: char) -> (b: bool)
    ensures
        b == is_regex_meta(c),
{
    c == '\\' || c == '.' || c == '+' || c == '*' || c == '?' || c == '(' || c == ')' || c
        == '|' || c == '[' || c == ']' || c == '{' || c == '}' || c == '^' || c == '$' || c
        == '#' || c == '&' || c == '-' || c == '~'
}

/// Appends the regular expression text that matches `c` alone.
fn push_literal(s: &mut String, c: char)
    ensures
        final(s)@ == old(s)@ + literal_regex(c),
{
    let ghost before = s@;
    if is_regex_meta_char(c) {
        push_char(s, '\\');
        push_char(s, c);
        assert(s@ =~= before + seq!['\\', c]);
    } else {
        push_char(s, c);
        assert(s@ =~= before + seq![c]);
    }
}

/// Translates a glob pattern into an anchored regular expression.
pub fn glob_to_regex(pattern: &str) -> (r: String)
    ensures
        r@ == glob_regex(pattern@),
{
    let n = pattern.unicode_len();
    let mut rxpat = String::new();
    let mut escape = false;
    push_char(&mut rxpat, '^');
    let ghost p = pattern@;
    assert(p.skip(0) =~= p);
    let mut i: usize = 0;
    while i < n
        invariant
            n == p.len(),
            p == pattern@,
            i <= n,
            seq!['^'] + glob_body(p, false) == rxpat@ + glob_body(p.skip(i as int), escape),
        decreases n - i,
    {
        let c = pattern.get_char(i);
        let ghost rest = p.skip(i as int);
        assert(rest[0] == c);
        assert(rest.drop_first() =~= p.skip(i + 1));
        let ghost before = rxpat@;
        if escape {
            push_literal(&mut rxpat, c);
            escape = false;
        } else if c == '*' {
            push_char(&mut rxpat, '.');
            push_char(&mut rxpat, '*');
            assert(rxpat@ =~= before + seq!['.', '*']);
        } else if c == '?' {
            push_char(&mut rxpat, '.');
            assert(rxpat@ =~= before + seq!['.']);
        } else if c == '\\' {
            escape = true;
        } else {
            push_literal(&mut rxpat, c);
        }
        i = i + 1;
    }
    assert(p.skip(n as int) =~= Seq::<char>::empty());
    push_char(&mut rxpat, '$');
    rxpat
}

// ---------------------------------------------------------------------------
// Regular expressions
// ---------------------------------------------------------------------------

/// Whether `regex::Regex::new` accepts a pattern.
pub uninterp spec fn regex_compiles(pattern: Seq<char>) -> bool;

/// Whether the regex compiled from `pattern` matches somewhere in `haystack`.
pub uninterp spec fn regex_is_match(pattern: Seq<char>, haystack: Seq<char>) -> bool;

/// `regex::Regex::new` on `pattern`, then `Regex::is_match` on `haystack`:
/// `None` where the pattern does not compile (invalid, or over the size limit),
/// else whether the regex matches anywhere in the haystack. Both outcomes are
/// functions of the texts alone.
#[verifier::external_body]
pub(crate) fn regex_search(pattern: &str, haystack: &str) -> (r: Option<bool>)
    ensures
        r == (if regex_compiles(pattern@) {
            Some(regex_is_match(pattern@, haystack@))
        } else {
            None
        }),
{
    match regex::Regex::new(pattern) {
        Ok(re) => Some(re.is_match(haystack)),
        Err(_) => None,
    }
}

// ---------------------------------------------------------------------------
// Matching
// ---------------------------------------------------------------------------

/// Whether a glob pattern matches a text: its regular expression compiles and matches.
pub open spec fn glob_matches(pattern: Seq<char>, text: Seq<char>) -> bool {
    regex_compiles(glob_regex(pattern)) && regex_is_match(glob_regex(pattern), text)
}

/// Whether an attribute filter accepts an attribute value. Only string values
/// are accepted, by any filter.
pub open spec fn filter_matches(f: FilterView, av: AttributeView) -> bool
    decreases f, 0nat,
{
    match av.value.as_str() {
        None => false,
        Some(text) => match f {
            FilterView::Match(p) => glob_matches(p, text),
            FilterView::AllOf(fs) => all_filters_match(fs, av),
            FilterView::AnyOf(fs) => any_filter_matches(fs, av),
            FilterView::Not(g) => !filter_matches(*g, av),
        },
    }
}

pub open spec fn all_filters_match(fs: Seq<FilterView>, av: AttributeView) -> bool
    decreases fs, 1nat,
{
    if fs.len() == 0 {
        true
    } else {
        all_filters_match(fs.drop_last(), av) && filter_matches(fs.last(), av)
    }
}

pub open spec fn any_filter_matches(fs: Seq<FilterView>, av: AttributeView) -> bool
    decreases fs, 1nat,
{
    if fs.len() == 0 {
        false
    } else {
        any_filter_matches(fs.drop_last(), av) || filter_matches(fs.last(), av)
    }
}

impl AttributeFilter {
    /// Whether this filter accepts the attribute value.
    pub fn matches(&self, av: &AttributeValue) -> (r: bool)
        ensures
            r == filter_matches(self@, av@),
        decreases self,
    {
        let value = match av.value.as_str() {
            Some(v) => v,
            None => return false,
        };
        match self {
            AttributeFilter::Match(pattern) => {
                let rxpat = glob_to_regex(pattern.as_str());
                match regex_search(rxpat.as_str(), value) {
                    Some(m) => m,
                    None => false,
                }
            },
            AttributeFilter::AllOf(filters) => {
                let ghost fs = self@->AllOf_0;
                let n = filters.len();
                assert(fs.take(0) =~= Seq::<FilterView>::empty());
                for i in 0..n
                    invariant
                        n == filters.len(),
                        *self == AttributeFilter::AllOf(*filters),
                        fs == self@->AllOf_0,
                        fs.len() == n,
                        forall|j: int| 0 <= j < n ==> #[trigger] fs[j] == filters@[j]@,
                        all_filters_match(fs.take(i as int), av@),
                {
                    proof {
                        assert(decreases_to!(*self => self->AllOf_0));
                        assert(decreases_to!(*filters => filters@));
                        assert(decreases_to!(filters@ => filters@[i as int]));
                        assert(fs.take(i + 1).drop_last() =~= fs.take(i as int));
                    }
                    if !filters[i].matches(av) {
                        proof {
                            lemma_all_fails_extends(fs, av@, i + 1, n as int);
                            assert(fs.take(n as int) =~= fs);
                        }
                        return false;
                    }
                }
                assert(fs.take(n as int) =~= fs);
                true
            },
            AttributeFilter::AnyOf(filters) => {
                let ghost fs = self@->AnyOf_0;
                let n = filters.len();
                assert(fs.take(0) =~= Seq::<FilterView>::empty());
                for i in 0..n
                    invariant
                        n == filters.len(),
                        *self == AttributeFilter::AnyOf(*filters),
                        fs == self@->AnyOf_0,
                        fs.len() == n,
                        forall|j: int| 0 <= j < n ==> #[trigger] fs[j] == filters@[j]@,
                        !any_filter_matches(fs.take(i as int), av@),
                {
                    proof {
                        assert(decreases_to!(*self => self->AnyOf_0));
                        assert(decreases_to!(*filters => filters@));
                        assert(decreases_to!(filters@ => filters@[i as int]));
                        assert(fs.take(i + 1).drop_last() =~= fs.take(i as int));
                    }
                    if filters[i].matches(av) {
                        proof {
                            lemma_any_holds_extends(fs, av@, i + 1, n as int);
                            assert(fs.take(n as int) =~= fs);
                        }
                        return true;
                    }
                }
                assert(fs.take(n as int) =~= fs);
                false
            },
            AttributeFilter::Not(filter) => {
                proof {
                    assert(decreases_to!(*self => *filter));
                }
                !filter.matches(av)
            },
        }
    }
}

pub proof fn lemma_all_fails_extends(fs: Seq<FilterView>, av: AttributeView, k: int, m: int)
    requires
        0 <= k <= m <= fs.len(),
        !all_filters_match(fs.take(k), av),
    ensures
        !all_filters_match(fs.take(m), av),
    decreases m - k,
{
    if m > k {
        lemma_all_fails_extends(fs, av, k, m - 1);
        assert(fs.take(m).drop_last() =~= fs.take(m - 1));
    }
}

pub proof fn lemma_any_holds_extends(fs: Seq<FilterView>, av: AttributeView, k: int, m: int)
    requires
        0 <= k <= m <= fs.len(),
        any_filter_matches(fs.take(k), av),
    ensures
        any_filter_matches(fs.take(m), av),
    decreases m - k,
{
    if m > k {
        lemma_any_holds_extends(fs, av, k, m - 1);
        assert(fs.take(m).drop_last() =~= fs.take(m - 1));
    }
}

/// Whether the event has an attribute named `key` whose value the filter accepts.
pub open spec fn attribute_passes(key: Seq<char>, f: FilterView, ev: EventView) -> bool {
    exists|k: int|
        0 <= k < ev.attributes.len() && #[trigger] ev.attributes[k].0 == key && filter_matches(
            f,
            ev.attributes[k].1,
        )
}

/// Whether every attribute filter finds an attribute that it accepts (vacuously
/// so without attribute filters).
pub open spec fn attributes_pass(ef: EventFilterView, ev: EventView) -> bool {
    forall|j: int|
        0 <= j < ef.attributes.len() ==> #[trigger] attribute_passes(
            ef.attributes[j].0,
            ef.attributes[j].1,
            ev,
        )
}

/// Whether an event has the filter's name and passes its attribute filters.
pub open spec fn event_passes(ef: EventFilterView, ev: EventView) -> bool {
    ev.name == ef.name && attributes_pass(ef, ev)
}

/// Whether some event of a transaction passes the filter.
pub open spec fn event_filter_matches(ef: EventFilterView, events: Seq<EventView>) -> bool {
    exists|i: int| 0 <= i < events.len() && #[trigger] event_passes(ef, events[i])
}

/// Whether every filter of a subscription finds an event that passes it.
pub open spec fn tx_filters_match(filters: Seq<EventFilterView>, events: Seq<EventView>) -> bool {
    forall|i: int| 0 <= i < filters.len() ==> #[trigger] event_filter_matches(filters[i], events)
}

impl EventFilter {
    fn attribute_passes(key: &String, filter: &AttributeFilter, event: &crate::data::Event) -> (r: bool)
        ensures
            r == attribute_passes(key@, filter@, event@),
    {
        let ghost ev = event@;
        let m = event.attributes.len();
        for k in 0..m
            invariant
                m == event.attributes.len(),
                ev == event@,
                ev.attributes.len() == m,
                forall|kk: int|
                    0 <= kk < k ==> !(#[trigger] ev.attributes[kk].0 == key@ && filter_matches(
                        filter@,
                        ev.attributes[kk].1,
                    )),
        {
            assert(ev.attributes[k as int] == (event.attributes@[k as int].0@, event.attributes@[k as int].1@));
            if event.attributes[k].0 == *key && filter.matches(&event.attributes[k].1) {
                assert(ev.attributes[k as int].0 == key@ && filter_matches(filter@, ev.attributes[k as int].1));
                return true;
            }
        }
        false
    }

    fn attributes_pass(&self, event: &crate::data::Event) -> (r: bool)
        ensures
            r == attributes_pass(self@, event@),
    {
        let ghost ef = self@;
        let n = self.attributes.len();
        for j in 0..n
            invariant
                n == self.attributes.len(),
                ef == self@,
                ef.attributes.len() == n,
                forall|jj: int|
                    0 <= jj < j ==> #[trigger] attribute_passes(
                        ef.attributes[jj].0,
                        ef.attributes[jj].1,
                        event@,
                    ),
        {
            assert(ef.attributes[j as int] == (self.attributes@[j as int].0@, self.attributes@[j as int].1@));
            if !Self::attribute_passes(&self.attributes[j].0, &self.attributes[j].1, event) {
                assert(!attribute_passes(ef.attributes[j as int].0, ef.attributes[j as int].1, event@));
                return false;
            }
        }
        true
    }

    /// Whether some event of the transaction has this filter's name and passes
    /// all of its attribute filters.
    pub fn matches(&self, tx: &Tx) -> (r: bool)
        ensures
            r == event_filter_matches(self@, events_view(tx.events@)),
    {
        let ghost evs = events_view(tx.events@);
        let n = tx.events.len();
        for i in 0..n
            invariant
                n == tx.events.len(),
                evs == events_view(tx.events@),
                evs.len() == n,
                forall|k: int| 0 <= k < i ==> !#[trigger] event_passes(self@, evs[k]),
        {
            let e = &tx.events[i];
            assert(evs[i as int] == e@);
            if e.name == self.name && self.attributes_pass(e) {
                assert(event_passes(self@, evs[i as int]));
                return true;
            }
        }
        false
    }
}

impl RepeaterTxSubscription {
    /// Whether every filter of the subscription matches the transaction.
    pub fn matches(&self, tx: &Tx) -> (r: bool)
        ensures
            r == tx_filters_match(filters_view(self.filters@), events_view(tx.events@)),
    {
        let ghost fs = filters_view(self.filters@);
        let n = self.filters.len();
        for i in 0..n
            invariant
                n == self.filters.len(),
                fs == filters_view(self.filters@),
                fs.len() == n,
                forall|k: int| 0 <= k < i ==> #[trigger] event_filter_matches(fs[k], events_view(tx.events@)),
        {
            assert(fs[i as int] == self.filters@[i as int]@);
            if !self.filters[i].matches(tx) {
                return false;
            }
        }
        true
    }

    /// Checks that the subscription has at least one filter.
    pub fn validate(&self) -> (r: Result<(), StargridError>)
        ensures
            r is Ok <==> self.filters.len() > 0,
            r matches Err(e) ==> e@ == ErrorView::Generic("Subscription filters cannot be empty"@),
    {
        if self.filters.len() == 0 {
            Err(StargridError::Generic("Subscription filters cannot be empty".to_owned()))
        } else {
            Ok(())
        }
    }
}

/// No filter accepts an attribute whose value is not a string.
pub proof fn law_filters_need_strings(f: FilterView, av: AttributeView)
    requires
        av.value.as_str() is None,
    ensures
        !filter_matches(f, av),
{
}

/// On string values, a filter negated twice accepts what the filter accepts.
pub proof fn law_double_negation(f: FilterView, av: AttributeView)
    requires
        av.value.as_str() is Some,
    ensures
        filter_matches(FilterView::Not(Box::new(FilterView::Not(Box::new(f)))), av)
            == filter_matches(f, av),
{
    assert(filter_matches(FilterView::Not(Box::new(f)), av) == !filter_matches(f, av));
}

/// `AllOf` accepts a string value exactly when each of its filters does, `AnyOf`
/// when one of them does.
pub proof fn law_combinations(fs: Seq<FilterView>, av: AttributeView)
    requires
        av.value.as_str() is Some,
    ensures
        filter_matches(FilterView::AllOf(fs), av) <==> forall|i: int|
            0 <= i < fs.len() ==> #[trigger] filter_matches(fs[i], av),
        filter_matches(FilterView::AnyOf(fs), av) <==> exists|i: int|
            0 <= i < fs.len() && #[trigger] filter_matches(fs[i], av),
    decreases fs.len(),
{
    assert(filter_matches(FilterView::AllOf(fs), av) == all_filters_match(fs, av));
    assert(filter_matches(FilterView::AnyOf(fs), av) == any_filter_matches(fs, av));
    if fs.len() > 0 {
        law_combinations(fs.drop_last(), av);
        assert(filter_matches(FilterView::AllOf(fs.drop_last()), av) == all_filters_match(
            fs.drop_last(),
            av,
        ));
        assert(filter_matches(FilterView::AnyOf(fs.drop_last()), av) == any_filter_matches(
            fs.drop_last(),
            av,
        ));
        if all_filters_match(fs, av) {
            assert forall|i: int| 0 <= i < fs.len() implies #[trigger] filter_matches(fs[i], av) by {
                if i < fs.len() - 1 {
                    assert(fs.drop_last()[i] == fs[i]);
                }
            }
        }
        if forall|i: int| 0 <= i < fs.len() ==> #[trigger] filter_matches(fs[i], av) {
            assert forall|i: int| 0 <= i < fs.drop_last().len() implies #[trigger] filter_matches(
                fs.drop_last()[i],
                av,
            ) by {
                assert(fs.drop_last()[i] == fs[i]);
            }
            assert(filter_matches(fs[fs.len() - 1], av));
        }
        if any_filter_matches(fs, av) {
            if any_filter_matches(fs.drop_last(), av) {
                let i = choose|i: int|
                    0 <= i < fs.drop_last().len() && #[trigger] filter_matches(fs.drop_last()[i], av);
                assert(fs.drop_last()[i] == fs[i]);
            } else {
                assert(filter_matches(fs[fs.len() - 1], av));
            }
        }
        if exists|i: int| 0 <= i < fs.len() && #[trigger] filter_matches(fs[i], av) {
            let i = choose|i: int| 0 <= i < fs.len() && #[trigger] filter_matches(fs[i], av);
            if i < fs.len() - 1 {
                assert(fs.drop_last()[i] == fs[i]);
                assert(filter_matches(fs.drop_last()[i], av));
            }
        }
    }
}

/// A glob pattern without `*`, `?` or backslashes becomes the anchored pattern
/// that matches its own text character for character.
pub proof fn law_plain_glob(p: Seq<char>)
    requires
        forall|i: int| 0 <= i < p.len() ==> #[trigger] p[i] != '*' && p[i] != '?' && p[i] != '\\',
    ensures
        glob_body(p, false) == literal_text(p),
    decreases p.len(),
{
    if p.len() > 0 {
        assert forall|i: int| 0 <= i < p.drop_first().len() implies #[trigger] p.drop_first()[i]
            != '*' && p.drop_first()[i] != '?' && p.drop_first()[i] != '\\' by {
            assert(p.drop_first()[i] == p[i + 1]);
        }
        law_plain_glob(p.drop_first());
    }
}

/// A backslash makes the character after it, a wildcard or a backslash
/// included, stand for itself alone.
pub proof fn law_escaped_char(c: char, rest: Seq<char>)
    ensures
        glob_body(seq!['\\', c] + rest, false) == literal_regex(c) + glob_body(rest, false),
{
    let p = seq!['\\', c] + rest;
    assert(p.drop_first() =~= seq![c] + rest);
    assert((seq![c] + rest).drop_first() =~= rest);
    assert(glob_body(p, false) == glob_body(seq![c] + rest, true));
    assert(glob_body(seq![c] + rest, true) == literal_regex(c) + glob_body(rest, false));
}

/// A pattern with no metacharacter of the regex syntax, and so no wildcard,
/// becomes the anchored pattern of its own text.
pub proof fn law_literal_text_of_plain(s: Seq<char>)
    requires
        forall|i: int| 0 <= i < s.len() ==> !is_regex_meta(#[trigger] s[i]),
    ensures
        literal_text(s) == s,
    decreases s.len(),
{
    if s.len() > 0 {
        assert forall|i: int| 0 <= i < s.drop_first().len() implies !is_regex_meta(
            #[trigger] s.drop_first()[i],
        ) by {
            assert(s.drop_first()[i] == s[i + 1]);
        }
        law_literal_text_of_plain(s.drop_first());
        assert(seq![s[0]] + s.drop_first() =~= s);
    }
}

/// Out of escape mode `*` stands for any run of characters and `?` for any one
/// character, wherever they stand in a pattern.
pub proof fn law_wildcards(rest: Seq<char>)
    ensures
        glob_body(seq!['*'] + rest, false) == seq!['.', '*'] + glob_body(rest, false),
        glob_body(seq!['?'] + rest, false) == seq!['.'] + glob_body(rest, false),
{
    assert((seq!['*'] + rest).drop_first() =~= rest);
    assert((seq!['?'] + rest).drop_first() =~= rest);
}

/// A character that a glob pattern and a regular expression both read as
/// itself: an ASCII letter or digit, a non-ASCII character, a space, or one of
/// `! " % ' , / : ; < = > @ _` and the backquote.
pub open spec fn is_plain_glob_char(c: char) -> bool {
    ||| 'a' <= c && c <= 'z'
    ||| 'A' <= c && c <= 'Z'
    ||| '0' <= c && c <= '9'
    ||| (c as u32) >= 0x80
    ||| c == ' ' || c == '!' || c == '"' || c == '%' || c == '\'' || c == ',' || c == '/'
    ||| c == ':' || c == ';' || c == '<' || c == '=' || c == '>' || c == '@' || c == '_' || c == '`'
}

/// A glob pattern made only of plain characters (addresses, denominations,
/// event names) becomes the anchored regular expression of its own text: `^`,
/// the pattern unchanged, `$`. So it accepts exactly the string equal to it.
pub proof fn law_plain_pattern_is_its_own_regex(p: Seq<char>)
    requires
        forall|i: int| 0 <= i < p.len() ==> is_plain_glob_char(#[trigger] p[i]),
    ensures
        glob_regex(p) == seq!['^'] + p + seq!['$'],
{
    assert forall|i: int| 0 <= i < p.len() implies #[trigger] p[i] != '*' && p[i] != '?' && p[i]
        != '\\' by {
        assert(is_plain_glob_char(p[i]));
    }
    law_plain_glob(p);
    assert forall|i: int| 0 <= i < p.len() implies !is_regex_meta(#[trigger] p[i]) by {
        assert(is_plain_glob_char(p[i]));
    }
    law_literal_text_of_plain(p);
}

/// Whether a filter accepts an attribute does not depend on the attribute's
/// `indexed` flag: only its value is read.
pub proof fn law_indexed_flag_irrelevant(f: FilterView, value: JsonValue, a: bool, b: bool)
    ensures
        filter_matches(f, AttributeView { indexed: a, value }) == filter_matches(
            f,
            AttributeView { indexed: b, value },
        ),
    decreases f, 0nat,
{
    match f {
        FilterView::Match(_) => {},
        FilterView::AllOf(fs) => lemma_flag_irrelevant_all(fs, value, a, b),
        FilterView::AnyOf(fs) => lemma_flag_irrelevant_all(fs, value, a, b),
        FilterView::Not(g) => law_indexed_flag_irrelevant(*g, value, a, b),
    }
}

proof fn lemma_flag_irrelevant_all(fs: Seq<FilterView>, value: JsonValue, a: bool, b: bool)
    ensures
        all_filters_match(fs, AttributeView { indexed: a, value }) == all_filters_match(
            fs,
            AttributeView { indexed: b, value },
        ),
        any_filter_matches(fs, AttributeView { indexed: a, value }) == any_filter_matches(
            fs,
            AttributeView { indexed: b, value },
        ),
    decreases fs, 1nat,
{
    if fs.len() > 0 {
        lemma_flag_irrelevant_all(fs.drop_last(), value, a, b);
        law_indexed_flag_irrelevant(fs.last(), value, a, b);
    }
}

} // verus!
