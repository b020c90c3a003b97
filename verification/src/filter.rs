//! Topic filters and pattern-based subscriptions.
//!
//! A filter is either an exact topic or a NATS-style pattern (`*` matches one
//! token, `>` one or more trailing tokens). A filter is a pattern exactly when
//! its text holds `*` or `>`.
use vstd::prelude::*;

use crate::nats_pattern;
use crate::nats_pattern::{NatsPattern, PatternError, PatternView};
use crate::text::{concat_str, has_char, str_chars, str_eq};

verus! {

/// The mathematical value of a [`TopicFilter`].
pub enum FilterView {
    Exact(Seq<char>),
    Pattern { pattern: PatternView, original: Seq<char> },
}

/// Topic filter: an exact topic, or a NATS-style pattern together with the
/// text it was parsed from.
#[derive(Debug, Clone)]
pub enum TopicFilter {
    /// Exact topic match
    Exact(String),
    /// NATS-style pattern match with wildcards
    Pattern {
        /// Compiled pattern matcher
        pattern: NatsPattern,
        /// The text the pattern was parsed from
        original: String,
    },
}

impl View for TopicFilter {
    type V = FilterView;

    open spec fn view(&self) -> FilterView {
        match self {
            TopicFilter::Exact(s) => FilterView::Exact(s@),
            TopicFilter::Pattern { pattern, original } => FilterView::Pattern {
                pattern: pattern@,
                original: original@,
            },
        }
    }
}

/// Whether the text holds a wildcard character.
pub open spec fn has_wildcard(t: Seq<char>) -> bool {
    t.contains('*') || t.contains('>')
}

/// The filter that the text `t` describes, or the pattern error that refuses it.
pub open spec fn parse_filter(t: Seq<char>) -> Result<FilterView, PatternError> {
    if has_wildcard(t) {
        match nats_pattern::parse_pattern(t) {
            Ok(p) => Ok(FilterView::Pattern { pattern: p, original: t }),
            Err(e) => Err(e),
        }
    } else {
        Ok(FilterView::Exact(t))
    }
}

/// The text of a filter.
pub open spec fn filter_text(f: FilterView) -> Seq<char> {
    match f {
        FilterView::Exact(s) => s,
        FilterView::Pattern { original, .. } => original,
    }
}

/// Whether `topic` matches the filter `f`.
pub open spec fn filter_matches(f: FilterView, topic: Seq<char>) -> bool {
    match f {
        FilterView::Exact(s) => s == topic,
        FilterView::Pattern { pattern, .. } => nats_pattern::pattern_matches(pattern, topic),
    }
}

/// The views of a sequence of filters.
pub open spec fn filters_view(fs: Seq<TopicFilter>) -> Seq<FilterView> {
    fs.map_values(|f: TopicFilter| f@)
}

/// ServerError type for topic filter operations.
#[derive(Debug, Clone, PartialEq, Eq)]
pub enum FilterError {
    /// The filter's text is not a valid pattern; holds the pattern error's message.
    InvalidPattern(String),
}

/// The message shown for an invalid pattern with the given detail.
pub open spec fn invalid_pattern_message(detail: Seq<char>) -> Seq<char> {
    "Invalid NATS pattern: "@ + detail
}

impl FilterError {
    /// The human-readable description of this error.
    pub fn to_string(&self) -> (s: String)
        ensures
            s@ == invalid_pattern_message(self->InvalidPattern_0@),
    {
        match self {
            FilterError::InvalidPattern(detail) => concat_str(
                "Invalid NATS pattern: ",
                detail.as_str(),
            ),
        }
    }
}

impl TopicFilter {
    /// Creates a filter from its text: a pattern when the text holds `*` or
    /// `>` (refused with the pattern's error when it is not a valid pattern),
    /// an exact topic otherwise.
    pub fn new(topic: &str) -> (res: Result<Self, FilterError>)
        ensures
            match parse_filter(topic@) {
                Ok(v) => res is Ok && res->Ok_0@ == v,
                Err(e) => res is Err && res->Err_0->InvalidPattern_0@
                    == nats_pattern::pattern_error_message(e),
            },
    {
        let chars = str_chars(topic);
        if has_char(&chars, '*') || has_char(&chars, '>') {
            match NatsPattern::new(topic) {
                Ok(pattern) => Ok(TopicFilter::Pattern { pattern, original: topic.to_owned() }),
                Err(e) => Err(FilterError::InvalidPattern(e.to_string())),
            }
        } else {
            Ok(TopicFilter::Exact(topic.to_owned()))
        }
    }

    /// Whether `topic` matches this filter.
    pub fn matches(&self, topic: &str) -> (r: bool)
        ensures
            r == filter_matches(self@, topic@),
    {
        match self {
            TopicFilter::Exact(exact) => str_eq(exact.as_str(), topic),
            TopicFilter::Pattern { pattern, .. } => pattern.matches(topic),
        }
    }

    /// The text of this filter.
    pub fn as_str(&self) -> (s: &str)
        ensures
            s@ == filter_text(self@),
    {
        match self {
            TopicFilter::Exact(s) => s.as_str(),
            TopicFilter::Pattern { original, .. } => original.as_str(),
        }
    }
}

/// One connection's entry: its id and its filters, in subscription order.
pub type EntryView = (u64, Seq<FilterView>);

/// The view of one stored entry.
pub open spec fn entry_view(e: (u64, Vec<TopicFilter>)) -> EntryView {
    (e.0, filters_view(e.1@))
}

/// No connection id occurs in two entries.
pub open spec fn ids_unique(s: Seq<EntryView>) -> bool {
    forall|i: int, j: int| 0 <= i < j < s.len() ==> #[trigger] s[i].0 != #[trigger] s[j].0
}

/// The position of the entry of connection `c`, if it has one.
pub open spec fn conn_pos(s: Seq<EntryView>, c: u64) -> Option<int> {
    if exists|i: int| 0 <= i < s.len() && s[i].0 == c {
        Some(choose|i: int| 0 <= i < s.len() && s[i].0 == c)
    } else {
        None
    }
}

/// The filters of connection `c` (none when it has no entry).
pub open spec fn conn_filters(s: Seq<EntryView>, c: u64) -> Seq<FilterView> {
    match conn_pos(s, c) {
        Some(i) => s[i].1,
        None => Seq::empty(),
    }
}

/// Whether some filter of `fs` matches `topic`.
pub open spec fn any_matches(fs: Seq<FilterView>, topic: Seq<char>) -> bool {
    exists|i: int| 0 <= i < fs.len() && filter_matches(#[trigger] fs[i], topic)
}

/// The connections with a filter that matches `topic`, in entry order.
pub open spec fn subscribers(s: Seq<EntryView>, topic: Seq<char>) -> Seq<u64>
    decreases s.len(),
{
    if s.len() == 0 {
        Seq::empty()
    } else {
        let rest = subscribers(s.drop_last(), topic);
        if any_matches(s.last().1, topic) {
            rest.push(s.last().0)
        } else {
            rest
        }
    }
}

/// The texts of the filters of `fs` that match `topic`, each paired with `c`.
pub open spec fn matching_texts(c: u64, fs: Seq<FilterView>, topic: Seq<char>) -> Seq<
    (u64, Seq<char>),
>
    decreases fs.len(),
{
    if fs.len() == 0 {
        Seq::empty()
    } else {
        let rest = matching_texts(c, fs.drop_last(), topic);
        if filter_matches(fs.last(), topic) {
            rest.push((c, filter_text(fs.last())))
        } else {
            rest
        }
    }
}

/// Every (connection, filter text) pair whose filter matches `topic`, entry by entry.
pub open spec fn subscribers_with_patterns(s: Seq<EntryView>, topic: Seq<char>) -> Seq<
    (u64, Seq<char>),
>
    decreases s.len(),
{
    if s.len() == 0 {
        Seq::empty()
    } else {
        subscribers_with_patterns(s.drop_last(), topic) + matching_texts(
            s.last().0,
            s.last().1,
            topic,
        )
    }
}

/// The filters of `fs` whose text is not `text`, in order.
pub open spec fn without_text(fs: Seq<FilterView>, text: Seq<char>) -> Seq<FilterView>
    decreases fs.len(),
{
    if fs.len() == 0 {
        Seq::empty()
    } else {
        let rest = without_text(fs.drop_last(), text);
        if filter_text(fs.last()) != text {
            rest.push(fs.last())
        } else {
            rest
        }
    }
}

/// The number of filters over all entries.
pub open spec fn total_filters(s: Seq<EntryView>) -> nat
    decreases s.len(),
{
    if s.len() == 0 {
        0
    } else {
        total_filters(s.drop_last()) + s.last().1.len()
    }
}

/// The entries after `c` subscribes with `f`: appended to its entry, or a new
/// entry at the end.
pub open spec fn subscribed(s: Seq<EntryView>, c: u64, f: FilterView) -> Seq<EntryView> {
    match conn_pos(s, c) {
        Some(i) => s.update(i, (c, s[i].1.push(f))),
        None => s.push((c, seq![f])),
    }
}

/// The entries after `c` drops its filters whose text is `text`.
pub open spec fn unsubscribed(s: Seq<EntryView>, c: u64, text: Seq<char>) -> Seq<EntryView> {
    match conn_pos(s, c) {
        Some(i) => s.update(i, (c, without_text(s[i].1, text))),
        None => s,
    }
}

/// The entries after the entry of `c` is removed.
pub open spec fn connection_removed(s: Seq<EntryView>, c: u64) -> Seq<EntryView> {
    match conn_pos(s, c) {
        Some(i) => s.remove(i),
        None => s,
    }
}

/// Manages topic subscriptions with pattern matching support: for each
/// connection, the filters it subscribed with, in order.
#[derive(Debug)]
pub struct FilteredSubscriptionManager {
    subscriptions: Vec<(u64, Vec<TopicFilter>)>,
}

impl View for FilteredSubscriptionManager {
    type V = Seq<EntryView>;

    closed spec fn view(&self) -> Seq<EntryView> {
        self.subscriptions@.map_values(|e: (u64, Vec<TopicFilter>)| entry_view(e))
    }
}

impl FilteredSubscriptionManager {
    /// Every connection has at most one entry.
    pub open spec fn wf(&self) -> bool {
        ids_unique(self@)
    }

    /// Creates a manager with no subscriptions.
    pub fn new() -> (m: Self)
        ensures
            m.wf(),
            m@ == Seq::<EntryView>::empty(),
    {
        let m = FilteredSubscriptionManager { subscriptions: Vec::new() };
        assert(m@ =~= Seq::<EntryView>::empty());
        m
    }

    /// The position of the entry of `conn_id`.
    fn find_conn(&self, conn_id: u64) -> (r: Option<usize>)
        requires
            self.wf(),
        ensures
            match r {
                Some(i) => conn_pos(self@, conn_id) == Some(i as int) && i < self@.len(),
                None => conn_pos(self@, conn_id) is None,
            },
    {
        let ghost s = self@;
        let mut i: usize = 0;
        while i < self.subscriptions.len()
            invariant
                s == self@,
                ids_unique(s),
                i <= self.subscriptions.len(),
                s.len() == self.subscriptions@.len(),
                forall|j: int| 0 <= j < i ==> s[j].0 != conn_id,
            decreases self.subscriptions.len() - i,
        {
            assert(s[i as int] == entry_view(self.subscriptions@[i as int]));
            if self.subscriptions[i].0 == conn_id {
                assert(s[i as int].0 == conn_id);
                let ghost k = choose|k: int| 0 <= k < s.len() && s[k].0 == conn_id;
                assert(k == i);
                return Some(i);
            }
            i = i + 1;
        }
        None
    }

    /// Subscribes a connection with a filter, after its earlier filters.
    pub fn subscribe(&mut self, conn_id: u64, pattern: TopicFilter)
        requires
            old(self).wf(),
        ensures
            final(self).wf(),
            final(self)@ == subscribed(old(self)@, conn_id, pattern@),
    {
        let ghost before = self@;
        match self.find_conn(conn_id) {
            Some(i) => {
                let mut entry = self.subscriptions.remove(i);
                let ghost fs = entry.1@;
                entry.1.push(pattern);
                assert(filters_view(entry.1@) =~= filters_view(fs).push(pattern@));
                self.subscriptions.insert(i, entry);
                assert(self@ =~= before.update(i as int, (conn_id, before[i as int].1.push(pattern@))));
            },
            None => {
                let mut fs: Vec<TopicFilter> = Vec::new();
                fs.push(pattern);
                assert(filters_view(fs@) =~= seq![pattern@]);
                self.subscriptions.push((conn_id, fs));
                assert(self@ =~= before.push((conn_id, seq![pattern@])));
            },
        }
    }

    /// Removes every filter of `conn_id` whose text is `pattern`; `true` when
    /// at least one was removed. The connection keeps its (possibly empty) entry.
    pub fn unsubscribe(&mut self, conn_id: u64, pattern: &str) -> (removed: bool)
        requires
            old(self).wf(),
        ensures
            final(self).wf(),
            final(self)@ == unsubscribed(old(self)@, conn_id, pattern@),
            removed == (without_text(conn_filters(old(self)@, conn_id), pattern@).len()
                < conn_filters(old(self)@, conn_id).len()),
    {
        let ghost before = self@;
        match self.find_conn(conn_id) {
            Some(i) => {
                let entry = self.subscriptions.remove(i);
                let (id, filters) = entry;
                let before_len = filters.len();
                let ghost fv = filters_view(filters@);
                let mut kept: Vec<TopicFilter> = Vec::new();
                for f in it: filters
                    invariant
                        it.seq() == filters@,
                        fv == filters_view(filters@),
                        filters_view(kept@) == without_text(fv.take(it.index() as int), pattern@),
                {
                    assert(fv.take(it.index() + 1).drop_last() =~= fv.take(it.index() as int));
                    assert(fv[it.index() as int] == f@);
                    if !str_eq(f.as_str(), pattern) {
                        let ghost k = kept@;
                        kept.push(f);
                        assert(filters_view(kept@) =~= filters_view(k).push(f@));
                    }
                }
                assert(fv.take(fv.len() as int) =~= fv);
                proof {
                    lemma_without_text_len(fv, pattern@);
                }
                let removed = kept.len() < before_len;
                self.subscriptions.insert(i, (id, kept));
                assert(self@ =~= before.update(
                    i as int,
                    (conn_id, without_text(before[i as int].1, pattern@)),
                ));
                removed
            },
            None => false,
        }
    }

    /// Whether some filter in `filters` matches `topic`.
    fn any_filter_matches(filters: &Vec<TopicFilter>, topic: &str) -> (r: bool)
        ensures
            r == any_matches(filters_view(filters@), topic@),
    {
        let ghost fv = filters_view(filters@);
        let mut j: usize = 0;
        while j < filters.len()
            invariant
                j <= filters.len(),
                fv == filters_view(filters@),
                forall|k: int| 0 <= k < j ==> !filter_matches(#[trigger] fv[k], topic@),
            decreases filters.len() - j,
        {
            if filters[j].matches(topic) {
                assert(filter_matches(fv[j as int], topic@));
                return true;
            }
            j = j + 1;
        }
        false
    }

    /// The connections with at least one filter matching `topic`, each once,
    /// in the order in which they first subscribed.
    pub fn get_subscribers(&self, topic: &str) -> (r: Vec<u64>)
        requires
            self.wf(),
        ensures
            r@ == subscribers(self@, topic@),
    {
        let ghost s = self@;
        let mut result: Vec<u64> = Vec::new();
        let mut i: usize = 0;
        while i < self.subscriptions.len()
            invariant
                s == self@,
                i <= self.subscriptions.len(),
                s.len() == self.subscriptions@.len(),
                result@ == subscribers(s.take(i as int), topic@),
            decreases self.subscriptions.len() - i,
        {
            assert(s[i as int] == entry_view(self.subscriptions@[i as int]));
            assert(s.take(i + 1).drop_last() =~= s.take(i as int));
            if Self::any_filter_matches(&self.subscriptions[i].1, topic) {
                result.push(self.subscriptions[i].0);
            }
            i = i + 1;
        }
        assert(s.take(s.len() as int) =~= s);
        result
    }

    /// The texts of the filters in `filters` that match `topic`, each paired
    /// with `conn_id`, appended to `out`.
    fn push_matching_texts(
        conn_id: u64,
        filters: &Vec<TopicFilter>,
        topic: &str,
        out: &mut Vec<(u64, String)>,
    )
        ensures
            pairs_view(final(out)@) == pairs_view(old(out)@) + matching_texts(
                conn_id,
                filters_view(filters@),
                topic@,
            ),
    {
        let ghost fv = filters_view(filters@);
        let ghost start = pairs_view(out@);
        let mut j: usize = 0;
        while j < filters.len()
            invariant
                j <= filters.len(),
                fv == filters_view(filters@),
                pairs_view(out@) == start + matching_texts(conn_id, fv.take(j as int), topic@),
            decreases filters.len() - j,
        {
            assert(fv.take(j + 1).drop_last() =~= fv.take(j as int));
            assert(fv[j as int] == filters@[j as int]@);
            let f = &filters[j];
            if f.matches(topic) {
                let ghost o = out@;
                let text = f.as_str().to_owned();
                out.push((conn_id, text));
                assert(pairs_view(out@) =~= pairs_view(o).push((conn_id, filter_text(fv[j as int]))));
            }
            j = j + 1;
        }
        assert(fv.take(fv.len() as int) =~= fv);
    }

    /// Every (connection, filter text) pair whose filter matches `topic`:
    /// connections in the order in which they first subscribed, and each
    /// connection's filters in the order they were added.
    pub fn get_subscribers_with_patterns(&self, topic: &str) -> (r: Vec<(u64, String)>)
        requires
            self.wf(),
        ensures
            pairs_view(r@) == subscribers_with_patterns(self@, topic@),
    {
        let ghost s = self@;
        let mut result: Vec<(u64, String)> = Vec::new();
        let mut i: usize = 0;
        while i < self.subscriptions.len()
            invariant
                s == self@,
                i <= self.subscriptions.len(),
                s.len() == self.subscriptions@.len(),
                pairs_view(result@) == subscribers_with_patterns(s.take(i as int), topic@),
            decreases self.subscriptions.len() - i,
        {
            assert(s[i as int] == entry_view(self.subscriptions@[i as int]));
            assert(s.take(i + 1).drop_last() =~= s.take(i as int));
            Self::push_matching_texts(
                self.subscriptions[i].0,
                &self.subscriptions[i].1,
                topic,
                &mut result,
            );
            i = i + 1;
        }
        assert(s.take(s.len() as int) =~= s);
        result
    }

    /// Removes the entry of `conn_id` with all its filters.
    pub fn remove_connection(&mut self, conn_id: u64)
        requires
            old(self).wf(),
        ensures
            final(self).wf(),
            final(self)@ == connection_removed(old(self)@, conn_id),
            total_filters(final(self)@) == total_filters(old(self)@) - conn_filters(
                old(self)@,
                conn_id,
            ).len(),
    {
        let ghost before = self@;
        proof {
            lemma_remove_connection_forgets(before, conn_id, Seq::empty(), conn_id);
        }
        match self.find_conn(conn_id) {
            Some(i) => {
                let _ = self.subscriptions.remove(i);
                assert(self@ =~= before.remove(i as int));
            },
            None => {},
        }
    }

    /// The texts of the filters of `conn_id`, in the order they were added
    /// (none when it has no entry).
    pub fn get_patterns(&self, conn_id: u64) -> (r: Vec<String>)
        requires
            self.wf(),
        ensures
            strings_view(r@) == conn_filters(self@, conn_id).map_values(
                |f: FilterView| filter_text(f),
            ),
    {
        let mut result: Vec<String> = Vec::new();
        match self.find_conn(conn_id) {
            Some(i) => {
                let filters = &self.subscriptions[i].1;
                let ghost fv = filters_view(filters@);
                assert(fv == conn_filters(self@, conn_id));
                let mut j: usize = 0;
                while j < filters.len()
                    invariant
                        j <= filters.len(),
                        fv == filters_view(filters@),
                        strings_view(result@) == fv.take(j as int).map_values(
                            |f: FilterView| filter_text(f),
                        ),
                    decreases filters.len() - j,
                {
                    let ghost o = result@;
                    result.push(filters[j].as_str().to_owned());
                    assert(fv[j as int] == filters@[j as int]@);
                    assert(strings_view(result@) =~= strings_view(o).push(filter_text(fv[j as int])));
                    assert(fv.take(j + 1).map_values(|f: FilterView| filter_text(f))
                        =~= fv.take(j as int).map_values(|f: FilterView| filter_text(f)).push(
                        filter_text(fv[j as int]),
                    ));
                    j = j + 1;
                }
                assert(fv.take(fv.len() as int) =~= fv);
            },
            None => {
                assert(strings_view(result@) =~= Seq::<Seq<char>>::empty());
            },
        }
        result
    }

    /// The number of filters over all connections.
    pub fn subscription_count(&self) -> (n: usize)
        requires
            total_filters(self@) <= usize::MAX,
        ensures
            n == total_filters(self@),
    {
        let ghost s = self@;
        let mut n: usize = 0;
        let mut i: usize = 0;
        while i < self.subscriptions.len()
            invariant
                s == self@,
                i <= self.subscriptions.len(),
                s.len() == self.subscriptions@.len(),
                n == total_filters(s.take(i as int)),
                total_filters(s) <= usize::MAX,
            decreases self.subscriptions.len() - i,
        {
            assert(s[i as int] == entry_view(self.subscriptions@[i as int]));
            assert(s.take(i + 1).drop_last() =~= s.take(i as int));
            proof {
                lemma_total_filters_prefix(s, i + 1);
            }
            n = n + self.subscriptions[i].1.len();
            i = i + 1;
        }
        assert(s.take(s.len() as int) =~= s);
        n
    }
}

impl Default for FilteredSubscriptionManager {
    fn default() -> (m: Self)
        ensures
            m.wf(),
            m@ == Seq::<EntryView>::empty(),
    {
        Self::new()
    }
}

/// The views of a sequence of (connection, text) pairs.
pub open spec fn pairs_view(v: Seq<(u64, String)>) -> Seq<(u64, Seq<char>)> {
    v.map_values(|p: (u64, String)| (p.0, p.1@))
}

/// The views of a sequence of strings.
pub open spec fn strings_view(v: Seq<String>) -> Seq<Seq<char>> {
    v.map_values(|x: String| x@)
}

/// The filters of a prefix never outnumber those of the whole.
pub proof fn lemma_total_filters_prefix(s: Seq<EntryView>, k: int)
    requires
        0 <= k <= s.len(),
    ensures
        total_filters(s.take(k)) <= total_filters(s),
    decreases s.len() - k,
{
    if k < s.len() {
        lemma_total_filters_prefix(s, k + 1);
        assert(s.take(k + 1).drop_last() =~= s.take(k));
    } else {
        assert(s.take(k) =~= s);
    }
}

/// Dropping filters never makes the list longer.
pub proof fn lemma_without_text_len(fs: Seq<FilterView>, text: Seq<char>)
    ensures
        without_text(fs, text).len() <= fs.len(),
    decreases fs.len(),
{
    if fs.len() > 0 {
        lemma_without_text_len(fs.drop_last(), text);
    }
}

/// With unique ids, the entry of `c` is at `i` exactly when `s[i]` has id `c`.
pub proof fn lemma_conn_pos_at(s: Seq<EntryView>, c: u64, i: int)
    requires
        ids_unique(s),
        0 <= i < s.len(),
        s[i].0 == c,
    ensures
        conn_pos(s, c) == Some(i),
{
    let k = choose|k: int| 0 <= k < s.len() && s[k].0 == c;
    if k != i {
        if k < i {
            assert(s[k].0 != s[i].0);
        } else {
            assert(s[i].0 != s[k].0);
        }
    }
}

/// A connection is among the subscribers of `topic` exactly when some entry
/// with its id has a filter matching `topic`.
pub proof fn lemma_subscribers_contains(s: Seq<EntryView>, topic: Seq<char>, c: u64)
    ensures
        subscribers(s, topic).contains(c) <==> exists|i: int|
            0 <= i < s.len() && s[i].0 == c && any_matches(#[trigger] s[i].1, topic),
    decreases s.len(),
{
    if s.len() > 0 {
        let d = s.drop_last();
        lemma_subscribers_contains(d, topic, c);
        let rest = subscribers(d, topic);
        if subscribers(s, topic).contains(c) {
            if rest.contains(c) {
                let i = choose|i: int| 0 <= i < d.len() && d[i].0 == c && any_matches(d[i].1, topic);
                assert(s[i] == d[i]);
            } else {
                let j = choose|j: int| 0 <= j < subscribers(s, topic).len() && subscribers(s, topic)[j] == c;
                assert(any_matches(s.last().1, topic) && s.last().0 == c) by {
                    if !any_matches(s.last().1, topic) {
                        assert(subscribers(s, topic) == rest);
                    } else if j < rest.len() {
                        assert(rest[j] == c);
                    }
                }
                assert(s[s.len() - 1] == s.last());
            }
        }
        if exists|i: int| 0 <= i < s.len() && s[i].0 == c && any_matches(#[trigger] s[i].1, topic) {
            let i = choose|i: int| 0 <= i < s.len() && s[i].0 == c && any_matches(s[i].1, topic);
            if i < s.len() - 1 {
                assert(d[i] == s[i]);
                let j = choose|j: int| 0 <= j < rest.len() && rest[j] == c;
                if any_matches(s.last().1, topic) {
                    assert(subscribers(s, topic)[j] == c);
                }
            } else {
                assert(subscribers(s, topic) == rest.push(c));
                assert(subscribers(s, topic)[rest.len() as int] == c);
            }
        }
    }
}

/// `get_subscribers` names each connection at most once, and names exactly
/// the connections with a filter that matches the topic.
pub proof fn lemma_subscribers_exact(s: Seq<EntryView>, topic: Seq<char>, c: u64)
    requires
        ids_unique(s),
    ensures
        subscribers(s, topic).no_duplicates(),
        subscribers(s, topic).contains(c) <==> any_matches(conn_filters(s, c), topic),
    decreases s.len(),
{
    lemma_subscribers_contains(s, topic, c);
    if let Some(i) = conn_pos(s, c) {
        lemma_conn_pos_at(s, c, i);
    }
    if s.len() > 0 {
        let d = s.drop_last();
        assert(ids_unique(d)) by {
            assert forall|i: int, j: int| 0 <= i < j < d.len() implies #[trigger] d[i].0
                != #[trigger] d[j].0 by {
                assert(s[i] == d[i] && s[j] == d[j]);
            }
        }
        lemma_subscribers_exact(d, topic, c);
        let rest = subscribers(d, topic);
        let last = s.last();
        if any_matches(last.1, topic) {
            lemma_subscribers_contains(d, topic, last.0);
            if rest.contains(last.0) {
                let i = choose|i: int| 0 <= i < d.len() && d[i].0 == last.0 && any_matches(d[i].1, topic);
                assert(s[i].0 != s[s.len() - 1].0);
            }
        }
    }
}

/// After `c` subscribes with a filter that matches `topic`, `c` is among the
/// subscribers of `topic`; its filters gain the new one at the end, every
/// other connection keeps its filters, and the count grows by one.
pub proof fn lemma_subscribe_then_subscribers(
    s: Seq<EntryView>,
    c: u64,
    f: FilterView,
    topic: Seq<char>,
    other: u64,
)
    requires
        ids_unique(s),
    ensures
        ids_unique(subscribed(s, c, f)),
        conn_filters(subscribed(s, c, f), c) == conn_filters(s, c).push(f),
        other != c ==> conn_filters(subscribed(s, c, f), other) == conn_filters(s, other),
        total_filters(subscribed(s, c, f)) == total_filters(s) + 1,
        filter_matches(f, topic) ==> subscribers(subscribed(s, c, f), topic).contains(c),
{
    let t = subscribed(s, c, f);
    match conn_pos(s, c) {
        Some(i) => {
            lemma_conn_pos_at(s, c, i);
            assert(0 <= i < s.len() && s[i].0 == c);
            lemma_conn_pos_at(t, c, i);
            lemma_total_filters_update(s, i, (c, s[i].1.push(f)));
        },
        None => {
            assert forall|a: int, b: int| 0 <= a < b < t.len() implies #[trigger] t[a].0
                != #[trigger] t[b].0 by {
                if b == s.len() {
                    assert(!(0 <= a < s.len() && s[a].0 == c));
                }
            }
            lemma_conn_pos_at(t, c, s.len() as int);
            assert(t.drop_last() =~= s);
        },
    }
    if other != c {
        match conn_pos(s, other) {
            Some(j) => {
                lemma_conn_pos_at(s, other, j);
                lemma_conn_pos_at(t, other, j);
            },
            None => {
                if let Some(j) = conn_pos(t, other) {
                    assert(t[j].0 == other);
                    if j < s.len() {
                        assert(s[j].0 == other);
                    }
                }
            },
        }
    }
    if filter_matches(f, topic) {
        lemma_subscribers_exact(t, topic, c);
        let fs = conn_filters(t, c);
        assert(fs[fs.len() - 1] == f);
    }
}

/// Removing one entry lowers the count by its number of filters.
proof fn lemma_total_filters_remove(s: Seq<EntryView>, i: int)
    requires
        0 <= i < s.len(),
    ensures
        total_filters(s.remove(i)) == total_filters(s) - s[i].1.len(),
    decreases s.len(),
{
    let t = s.remove(i);
    if i < s.len() - 1 {
        lemma_total_filters_remove(s.drop_last(), i);
        assert(t.drop_last() =~= s.drop_last().remove(i));
        assert(t.last() == s.last());
    } else {
        assert(t =~= s.drop_last());
    }
}

/// Replacing one entry changes the count by the difference of the entry sizes.
pub proof fn lemma_total_filters_update(s: Seq<EntryView>, i: int, e: EntryView)
    requires
        0 <= i < s.len(),
    ensures
        total_filters(s.update(i, e)) == total_filters(s) - s[i].1.len() + e.1.len(),
    decreases s.len(),
{
    let t = s.update(i, e);
    if i < s.len() - 1 {
        lemma_total_filters_update(s.drop_last(), i, e);
        assert(t.drop_last() =~= s.drop_last().update(i, e));
    } else {
        assert(t.drop_last() =~= s.drop_last());
    }
}

/// After `c` unsubscribes from `text`, none of its filters has that text, so
/// unsubscribing from it again removes nothing.
pub proof fn lemma_unsubscribe_removes_all(s: Seq<EntryView>, c: u64, text: Seq<char>)
    requires
        ids_unique(s),
    ensures
        ids_unique(unsubscribed(s, c, text)),
        forall|k: int|
            0 <= k < conn_filters(unsubscribed(s, c, text), c).len() ==> filter_text(
                #[trigger] conn_filters(unsubscribed(s, c, text), c)[k],
            ) != text,
        without_text(conn_filters(unsubscribed(s, c, text), c), text)
            == conn_filters(unsubscribed(s, c, text), c),
{
    let t = unsubscribed(s, c, text);
    if let Some(i) = conn_pos(s, c) {
        lemma_conn_pos_at(s, c, i);
        assert(ids_unique(t));
        lemma_conn_pos_at(t, c, i);
        lemma_without_text_avoids(s[i].1, text);
        lemma_without_text_idempotent(s[i].1, text);
    }
}

/// No filter kept by `without_text` has the dropped text.
pub proof fn lemma_without_text_avoids(fs: Seq<FilterView>, text: Seq<char>)
    ensures
        forall|k: int|
            0 <= k < without_text(fs, text).len() ==> filter_text(
                #[trigger] without_text(fs, text)[k],
            ) != text,
    decreases fs.len(),
{
    if fs.len() > 0 {
        let d = fs.drop_last();
        lemma_without_text_avoids(d, text);
        let w = without_text(d, text);
        assert forall|k: int| 0 <= k < without_text(fs, text).len() implies filter_text(
            #[trigger] without_text(fs, text)[k],
        ) != text by {
            if k < w.len() {
                assert(without_text(fs, text)[k] == w[k]);
            }
        }
    }
}

/// Dropping the same text twice drops nothing more.
pub proof fn lemma_without_text_idempotent(fs: Seq<FilterView>, text: Seq<char>)
    ensures
        without_text(without_text(fs, text), text) == without_text(fs, text),
    decreases fs.len(),
{
    if fs.len() > 0 {
        let d = fs.drop_last();
        lemma_without_text_idempotent(d, text);
        let w = without_text(d, text);
        if filter_text(fs.last()) != text {
            assert(w.push(fs.last()).drop_last() =~= w);
        }
    }
}

/// After the entry of `c` is removed, `c` has no filters and is a subscriber
/// of no topic; every other connection keeps its filters, and the count drops
/// by the number of filters `c` had.
pub proof fn lemma_remove_connection_forgets(
    s: Seq<EntryView>,
    c: u64,
    topic: Seq<char>,
    other: u64,
)
    requires
        ids_unique(s),
    ensures
        ids_unique(connection_removed(s, c)),
        conn_filters(connection_removed(s, c), c) == Seq::<FilterView>::empty(),
        !subscribers(connection_removed(s, c), topic).contains(c),
        other != c ==> conn_filters(connection_removed(s, c), other) == conn_filters(s, other),
        total_filters(connection_removed(s, c)) == total_filters(s) - conn_filters(s, c).len(),
{
    let t = connection_removed(s, c);
    if let Some(i) = conn_pos(s, c) {
        lemma_conn_pos_at(s, c, i);
        lemma_total_filters_remove(s, i);
        assert forall|a: int, b: int| 0 <= a < b < t.len() implies #[trigger] t[a].0
            != #[trigger] t[b].0 by {
            let a2 = if a < i { a } else { a + 1 };
            let b2 = if b < i { b } else { b + 1 };
            assert(t[a] == s[a2] && t[b] == s[b2]);
        }
        assert(conn_pos(t, c) is None) by {
            if exists|k: int| 0 <= k < t.len() && t[k].0 == c {
                let k = choose|k: int| 0 <= k < t.len() && t[k].0 == c;
                let k2 = if k < i { k } else { k + 1 };
                assert(t[k] == s[k2]);
                if k2 < i {
                    assert(s[k2].0 != s[i].0);
                } else {
                    assert(s[i].0 != s[k2].0);
                }
            }
        }
        if other != c {
            match conn_pos(s, other) {
                Some(j) => {
                    lemma_conn_pos_at(s, other, j);
                    let j2 = if j < i { j } else { j - 1 };
                    assert(t[j2] == s[j]);
                    lemma_conn_pos_at(t, other, j2);
                },
                None => {
                    if let Some(k) = conn_pos(t, other) {
                        let k2 = if k < i { k } else { k + 1 };
                        assert(t[k] == s[k2]);
                    }
                },
            }
        }
    } else {
        assert(conn_pos(t, c) is None);
    }
    lemma_subscribers_exact(t, topic, c);
}

/// The texts of a list of filters, in order.
pub open spec fn filter_texts(fs: Seq<FilterView>) -> Seq<Seq<char>> {
    fs.map_values(|f: FilterView| filter_text(f))
}

/// Dropping a text from a list of filters drops exactly the filters with that
/// text from the list of texts, keeping the order of the others; the number
/// dropped is the number of filters with that text, and some are dropped
/// exactly when the text is among them.
pub proof fn lemma_without_text_texts(fs: Seq<FilterView>, text: Seq<char>)
    ensures
        filter_texts(without_text(fs, text)) == filter_texts(fs).filter(|q: Seq<char>| q != text),
        fs.len() - without_text(fs, text).len() == filter_texts(fs).filter(|q: Seq<char>| q == text).len(),
        without_text(fs, text).len() < fs.len() <==> filter_texts(fs).contains(text),
    decreases fs.len(),
{
    reveal(Seq::filter);
    let ne = |q: Seq<char>| q != text;
    let eq = |q: Seq<char>| q == text;
    if fs.len() == 0 {
        assert(filter_texts(without_text(fs, text)) =~= filter_texts(fs).filter(ne));
        assert(filter_texts(fs).filter(eq) =~= Seq::<Seq<char>>::empty());
    } else {
        let d = fs.drop_last();
        lemma_without_text_texts(d, text);
        let ts = filter_texts(fs);
        assert(ts.drop_last() =~= filter_texts(d));
        assert(ts.last() == filter_text(fs.last()));
        lemma_without_text_len(d, text);
        if filter_text(fs.last()) != text {
            assert(filter_texts(without_text(fs, text)) =~= filter_texts(without_text(d, text)).push(
                filter_text(fs.last()),
            ));
        } else {
            assert(ts.contains(text)) by {
                assert(ts[ts.len() - 1] == text);
            }
        }
        if filter_texts(d).contains(text) {
            let k = choose|k: int| 0 <= k < filter_texts(d).len() && filter_texts(d)[k] == text;
            assert(ts[k] == text);
        }
        if ts.contains(text) && filter_text(fs.last()) != text {
            let k = choose|k: int| 0 <= k < ts.len() && ts[k] == text;
            assert(k < ts.len() - 1);
            assert(filter_texts(d)[k] == text);
        }
    }
}

/// Drops the last entry of entries with distinct ids: the ids stay distinct,
/// and the filters of `c` are those of the last entry when it is `c`'s, else
/// those in the rest.
proof fn lemma_conn_filters_drop_last(s: Seq<EntryView>, c: u64)
    requires
        ids_unique(s),
        s.len() > 0,
    ensures
        ids_unique(s.drop_last()),
        conn_filters(s, c) == if s.last().0 == c {
            s.last().1
        } else {
            conn_filters(s.drop_last(), c)
        },
        s.last().0 == c ==> conn_pos(s.drop_last(), c) is None,
{
    let d = s.drop_last();
    assert forall|i: int, j: int| 0 <= i < j < d.len() implies #[trigger] d[i].0 != #[trigger] d[j].0 by {
        assert(s[i] == d[i] && s[j] == d[j]);
    }
    if s.last().0 == c {
        lemma_conn_pos_at(s, c, s.len() - 1);
        if exists|i: int| 0 <= i < d.len() && d[i].0 == c {
            let i = choose|i: int| 0 <= i < d.len() && d[i].0 == c;
            assert(s[i].0 != s[s.len() - 1].0);
        }
    } else {
        match conn_pos(d, c) {
            Some(i) => {
                lemma_conn_pos_at(d, c, i);
                assert(s[i] == d[i]);
                lemma_conn_pos_at(s, c, i);
            },
            None => {
                if exists|i: int| 0 <= i < s.len() && s[i].0 == c {
                    let i = choose|i: int| 0 <= i < s.len() && s[i].0 == c;
                    assert(i != s.len() - 1);
                    assert(d[i] == s[i]);
                }
            },
        }
    }
}

/// After `c` unsubscribes from `text`, its filters are its old filters
/// without those with that text, in order; every other connection keeps its
/// filters, and the count drops by the number of filters removed.
pub proof fn lemma_unsubscribe_lists(s: Seq<EntryView>, c: u64, text: Seq<char>, other: u64)
    requires
        ids_unique(s),
    ensures
        conn_filters(unsubscribed(s, c, text), c) == without_text(conn_filters(s, c), text),
        filter_texts(conn_filters(unsubscribed(s, c, text), c)) == filter_texts(conn_filters(s, c)).filter(
            |q: Seq<char>| q != text,
        ),
        other != c ==> conn_filters(unsubscribed(s, c, text), other) == conn_filters(s, other),
        total_filters(unsubscribed(s, c, text)) == total_filters(s) - filter_texts(
            conn_filters(s, c),
        ).filter(|q: Seq<char>| q == text).len(),
{
    let t = unsubscribed(s, c, text);
    lemma_without_text_texts(conn_filters(s, c), text);
    match conn_pos(s, c) {
        Some(i) => {
            lemma_conn_pos_at(s, c, i);
            assert(ids_unique(t));
            lemma_conn_pos_at(t, c, i);
            lemma_total_filters_update(s, i, (c, without_text(s[i].1, text)));
            if other != c {
                match conn_pos(s, other) {
                    Some(j) => {
                        lemma_conn_pos_at(s, other, j);
                        assert(t[j] == s[j]);
                        lemma_conn_pos_at(t, other, j);
                    },
                    None => {
                        if exists|k: int| 0 <= k < t.len() && t[k].0 == other {
                            let k = choose|k: int| 0 <= k < t.len() && t[k].0 == other;
                            assert(k != i);
                            assert(t[k] == s[k]);
                        }
                    },
                }
            }
        },
        None => {
            assert(without_text(Seq::<FilterView>::empty(), text) =~= Seq::<FilterView>::empty());
        },
    }
}

/// How many filters of `fs` match `topic` and have the text `t`.
pub open spec fn matching_count(fs: Seq<FilterView>, topic: Seq<char>, t: Seq<char>) -> nat
    decreases fs.len(),
{
    if fs.len() == 0 {
        0
    } else {
        matching_count(fs.drop_last(), topic, t) + if filter_matches(fs.last(), topic)
            && filter_text(fs.last()) == t {
            1nat
        } else {
            0nat
        }
    }
}

/// Some filter matches `topic` and has the text `t` exactly when the count is positive.
proof fn lemma_matching_count_pos(fs: Seq<FilterView>, topic: Seq<char>, t: Seq<char>)
    ensures
        matching_count(fs, topic, t) > 0 <==> exists|k: int|
            0 <= k < fs.len() && filter_matches(#[trigger] fs[k], topic) && filter_text(fs[k]) == t,
    decreases fs.len(),
{
    if fs.len() > 0 {
        let d = fs.drop_last();
        lemma_matching_count_pos(d, topic, t);
        if matching_count(d, topic, t) > 0 {
            let k = choose|k: int|
                0 <= k < d.len() && filter_matches(#[trigger] d[k], topic) && filter_text(d[k]) == t;
            assert(fs[k] == d[k]);
        }
        if exists|k: int|
            0 <= k < fs.len() && filter_matches(#[trigger] fs[k], topic) && filter_text(fs[k]) == t {
            let k = choose|k: int|
                0 <= k < fs.len() && filter_matches(#[trigger] fs[k], topic) && filter_text(fs[k])
                    == t;
            if k < fs.len() - 1 {
                assert(d[k] == fs[k]);
            }
        }
    }
}

/// The pairs of one entry: `(c, t)` occurs as often as `c`'s filters that
/// match and have the text `t`; other connections do not occur.
proof fn lemma_matching_texts_count(c2: u64, fs: Seq<FilterView>, topic: Seq<char>, c: u64, t: Seq<char>)
    ensures
        matching_texts(c2, fs, topic).to_multiset().count((c, t)) == if c2 == c {
            matching_count(fs, topic, t)
        } else {
            0
        },
    decreases fs.len(),
{
    broadcast use vstd::seq_lib::group_to_multiset_ensures;

    if fs.len() == 0 {
        assert(matching_texts(c2, fs, topic).to_multiset() =~= vstd::multiset::Multiset::empty());
    } else {
        lemma_matching_texts_count(c2, fs.drop_last(), topic, c, t);
    }
}

/// The pairs of the entries count, for each `(c, t)`, the filters of `c`
/// that match and have the text `t`.
proof fn lemma_pairs_count(s: Seq<EntryView>, topic: Seq<char>, c: u64, t: Seq<char>)
    requires
        ids_unique(s),
    ensures
        subscribers_with_patterns(s, topic).to_multiset().count((c, t)) == matching_count(
            conn_filters(s, c),
            topic,
            t,
        ),
    decreases s.len(),
{
    broadcast use vstd::seq_lib::group_to_multiset_ensures;

    let pairs = subscribers_with_patterns(s, topic);
    if s.len() == 0 {
        assert(pairs.to_multiset() =~= vstd::multiset::Multiset::empty());
        assert(conn_pos(s, c) is None);
    } else {
        let d = s.drop_last();
        lemma_conn_filters_drop_last(s, c);
        lemma_pairs_count(d, topic, c, t);
        lemma_matching_texts_count(s.last().0, s.last().1, topic, c, t);
        vstd::seq_lib::lemma_multiset_commutative(
            subscribers_with_patterns(d, topic),
            matching_texts(s.last().0, s.last().1, topic),
        );
        if s.last().0 == c {
            assert(conn_filters(d, c) == Seq::<FilterView>::empty());
        }
    }
}

/// The pairs that `get_subscribers_with_patterns` gives, taken as a
/// multiset, are each connection with each of its filters that match the
/// topic (as often as it holds such a filter); and a connection occurs in
/// them exactly when it is among the subscribers of the topic.
pub proof fn lemma_subscribers_with_patterns_exact(
    s: Seq<EntryView>,
    topic: Seq<char>,
    c: u64,
    t: Seq<char>,
)
    requires
        ids_unique(s),
    ensures
        subscribers_with_patterns(s, topic).to_multiset().count((c, t)) == matching_count(
            conn_filters(s, c),
            topic,
            t,
        ),
        subscribers(s, topic).contains(c) <==> exists|t2: Seq<char>| #[trigger]
            subscribers_with_patterns(s, topic).contains((c, t2)),
{
    broadcast use vstd::seq_lib::group_to_multiset_ensures;

    let pairs = subscribers_with_patterns(s, topic);
    lemma_pairs_count(s, topic, c, t);
    lemma_subscribers_exact(s, topic, c);
    let fs = conn_filters(s, c);
    if subscribers(s, topic).contains(c) {
        let k = choose|k: int| 0 <= k < fs.len() && filter_matches(#[trigger] fs[k], topic);
        let t2 = filter_text(fs[k]);
        lemma_pairs_count(s, topic, c, t2);
        lemma_matching_count_pos(fs, topic, t2);
        assert(pairs.to_multiset().count((c, t2)) > 0);
        assert(pairs.contains((c, t2)));
    }
    if exists|t2: Seq<char>| #[trigger] pairs.contains((c, t2)) {
        let t2 = choose|t2: Seq<char>| #[trigger] pairs.contains((c, t2));
        lemma_pairs_count(s, topic, c, t2);
        lemma_matching_count_pos(fs, topic, t2);
        let k = choose|k: int|
            0 <= k < fs.len() && filter_matches(#[trigger] fs[k], topic) && filter_text(fs[k]) == t2;
        assert(any_matches(fs, topic));
    }
}

} // verus!
