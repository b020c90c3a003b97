//! NATS-style pattern matching for topics.
//!
//! Topics are split into tokens at `.`; wildcards match whole tokens:
//! `*` matches exactly one token, `>` (only as the last token) matches one
//! or more trailing tokens. `*` and `>` cannot be mixed in one pattern, and
//! empty tokens are refused.
use vstd::prelude::*;

use crate::text;
use crate::text::{chars_eq, chars_to_string, has_char, has_double_dot_exec, split_on_dots, str_chars};

verus! {

/// ServerError type for pattern parsing.
#[derive(Debug, Clone, Copy, PartialEq, Eq, Structural)]
pub enum PatternError {
    /// Empty pattern string
    EmptyPattern,
    /// Empty token (e.g. `orders..new`)
    EmptyToken,
    /// Wildcard combined with text (e.g. `ord*`)
    CombinedWildcard,
    /// Multi-token wildcard not at end (e.g. `orders.>.new`)
    MultiWildcardNotLast,
    /// Pattern contains both `*` and `>`
    MixedWildcards,
}

/// The message that describes each pattern error.
pub open spec fn pattern_error_message(e: PatternError) -> Seq<char> {
    match e {
        PatternError::EmptyPattern => "Pattern cannot be empty"@,
        PatternError::EmptyToken => "Pattern contains empty token (consecutive dots)"@,
        PatternError::CombinedWildcard => "Wildcard cannot be combined with text in the same token"@,
        PatternError::MultiWildcardNotLast => "Multi-token wildcard '>' must be the last token"@,
        PatternError::MixedWildcards => "Pattern cannot contain both '*' and '>' wildcards"@,
    }
}

impl PatternError {
    /// The human-readable description of this error.
    pub fn to_string(&self) -> (s: String)
        ensures
            s@ == pattern_error_message(*self),
    {
        match self {
            PatternError::EmptyPattern => "Pattern cannot be empty".to_owned(),
            PatternError::EmptyToken => "Pattern contains empty token (consecutive dots)".to_owned(),
            PatternError::CombinedWildcard => {
                "Wildcard cannot be combined with text in the same token".to_owned()
            },
            PatternError::MultiWildcardNotLast => {
                "Multi-token wildcard '>' must be the last token".to_owned()
            },
            PatternError::MixedWildcards => {
                "Pattern cannot contain both '*' and '>' wildcards".to_owned()
            },
        }
    }
}

/// A token in a NATS pattern.
#[derive(Debug, Clone, PartialEq, Eq)]
pub enum Token {
    /// Literal string token
    Literal(String),
    /// Single-token wildcard (`*`)
    SingleWild,
    /// Multi-token wildcard (`>`)
    MultiWild,
}

/// The mathematical value of a [`Token`].
pub enum TokenView {
    Literal(Seq<char>),
    SingleWild,
    MultiWild,
}

impl View for Token {
    type V = TokenView;

    open spec fn view(&self) -> TokenView {
        match self {
            Token::Literal(s) => TokenView::Literal(s@),
            Token::SingleWild => TokenView::SingleWild,
            Token::MultiWild => TokenView::MultiWild,
        }
    }
}

/// The views of a sequence of tokens.
pub open spec fn tokens_view(toks: Seq<Token>) -> Seq<TokenView> {
    toks.map_values(|t: Token| t@)
}

/// NATS-style pattern for topic matching.
#[derive(Debug, Clone, PartialEq, Eq)]
pub enum NatsPattern {
    /// Exact topic match (no wildcards)
    Exact(String),
    /// Pattern with single-token wildcards (`*`)
    SingleWildcard { pattern: String, tokens: Vec<Token> },
    /// Pattern with a multi-token wildcard (`>`) at the end; `prefix` holds the
    /// tokens before it
    MultiWildcard { pattern: String, prefix: Vec<Token> },
}

/// The mathematical value of a [`NatsPattern`].
pub enum PatternView {
    Exact(Seq<char>),
    SingleWildcard { pattern: Seq<char>, tokens: Seq<TokenView> },
    MultiWildcard { pattern: Seq<char>, prefix: Seq<TokenView> },
}

impl View for NatsPattern {
    type V = PatternView;

    open spec fn view(&self) -> PatternView {
        match self {
            NatsPattern::Exact(s) => PatternView::Exact(s@),
            NatsPattern::SingleWildcard { pattern, tokens } => PatternView::SingleWildcard {
                pattern: pattern@,
                tokens: tokens_view(tokens@),
            },
            NatsPattern::MultiWildcard { pattern, prefix } => PatternView::MultiWildcard {
                pattern: pattern@,
                prefix: tokens_view(prefix@),
            },
        }
    }
}

/// The text a pattern was parsed from.
pub open spec fn pattern_text(p: PatternView) -> Seq<char> {
    match p {
        PatternView::Exact(s) => s,
        PatternView::SingleWildcard { pattern, .. } => pattern,
        PatternView::MultiWildcard { pattern, .. } => pattern,
    }
}

/// Whether one pattern token accepts one topic token.
pub open spec fn token_matches(tok: TokenView, part: Seq<char>) -> bool {
    match tok {
        TokenView::Literal(lit) => lit == part,
        TokenView::SingleWild => true,
        TokenView::MultiWild => false,
    }
}

/// Whether each token of `toks` accepts the topic token at the same position.
pub open spec fn tokens_accept(toks: Seq<TokenView>, parts: Seq<Seq<char>>) -> bool {
    forall|i: int| 0 <= i < toks.len() ==> token_matches(#[trigger] toks[i], parts[i])
}

/// Whether the topic `topic` matches the pattern `p`.
pub open spec fn pattern_matches(p: PatternView, topic: Seq<char>) -> bool {
    match p {
        PatternView::Exact(e) => e == topic,
        PatternView::SingleWildcard { tokens, .. } => {
            &&& text::split_dots(topic).len() == tokens.len()
            &&& tokens_accept(tokens, text::split_dots(topic))
        },
        PatternView::MultiWildcard { prefix, .. } => {
            &&& text::split_dots(topic).len() > prefix.len()
            &&& tokens_accept(prefix, text::split_dots(topic))
        },
    }
}

/// The error, if any, of the pattern token at position `i` of `parts`.
pub open spec fn part_error(parts: Seq<Seq<char>>, i: int) -> Option<PatternError> {
    let part = parts[i];
    if part.len() == 0 {
        Some(PatternError::EmptyToken)
    } else if part == seq!['*'] {
        None
    } else if part == seq!['>'] {
        if i != parts.len() - 1 {
            Some(PatternError::MultiWildcardNotLast)
        } else {
            None
        }
    } else if part.contains('*') || part.contains('>') {
        Some(PatternError::CombinedWildcard)
    } else {
        None
    }
}

/// The error of the first erroneous token at or after position `i`.
pub open spec fn first_part_error(parts: Seq<Seq<char>>, i: int) -> Option<PatternError>
    decreases parts.len() - i,
{
    if i < 0 || i >= parts.len() {
        None
    } else if part_error(parts, i) is Some {
        part_error(parts, i)
    } else {
        first_part_error(parts, i + 1)
    }
}

/// The token that a (valid) pattern token stands for.
pub open spec fn part_token(part: Seq<char>) -> TokenView {
    if part == seq!['*'] {
        TokenView::SingleWild
    } else if part == seq!['>'] {
        TokenView::MultiWild
    } else {
        TokenView::Literal(part)
    }
}

/// The outcome of parsing the text `p` as a pattern.
pub open spec fn parse_pattern(p: Seq<char>) -> Result<PatternView, PatternError> {
    if p.len() == 0 {
        Err(PatternError::EmptyPattern)
    } else if p.contains('*') && p.contains('>') {
        Err(PatternError::MixedWildcards)
    } else if !p.contains('*') && !p.contains('>') {
        if text::has_double_dot(p) {
            Err(PatternError::EmptyToken)
        } else {
            Ok(PatternView::Exact(p))
        }
    } else {
        let parts = text::split_dots(p);
        match first_part_error(parts, 0) {
            Some(e) => Err(e),
            None => {
                let toks = parts.map_values(|x: Seq<char>| part_token(x));
                if p.contains('>') {
                    Ok(PatternView::MultiWildcard { pattern: p, prefix: toks.drop_last() })
                } else {
                    Ok(PatternView::SingleWildcard { pattern: p, tokens: toks })
                }
            },
        }
    }
}

/// The view of a parse result.
pub open spec fn parse_result_view(r: Result<NatsPattern, PatternError>) -> Result<
    PatternView,
    PatternError,
> {
    match r {
        Ok(p) => Ok(p@),
        Err(e) => Err(e),
    }
}

/// Whether the vector `v` holds exactly the one character `c`.
fn is_single_char(v: &Vec<char>, c: char) -> (r: bool)
    ensures
        r == (v@ == seq![c]),
{
    if v.len() == 1 && v[0] == c {
        assert(v@ =~= seq![c]);
        true
    } else {
        false
    }
}

impl NatsPattern {
    /// Parses a pattern from a string: `Ok` exactly when the pattern is
    /// non-empty, does not mix `*` and `>`, has no empty token, uses `>` only
    /// as its last token, and never combines a wildcard with text in one token.
    pub fn new(pattern: &str) -> (res: Result<Self, PatternError>)
        ensures
            parse_result_view(res) == parse_pattern(pattern@),
    {
        let chars = str_chars(pattern);
        if chars.len() == 0 {
            return Err(PatternError::EmptyPattern);
        }
        let has_single_wild = has_char(&chars, '*');
        let has_multi_wild = has_char(&chars, '>');
        if has_single_wild && has_multi_wild {
            return Err(PatternError::MixedWildcards);
        }
        if !has_single_wild && !has_multi_wild {
            if has_double_dot_exec(&chars) {
                return Err(PatternError::EmptyToken);
            }
            return Ok(NatsPattern::Exact(pattern.to_owned()));
        }
        let parts = split_on_dots(&chars);
        let ghost gparts = parts.deep_view();
        let mut tokens: Vec<Token> = Vec::new();
        let mut i: usize = 0;
        while i < parts.len()
            invariant
                i <= parts.len(),
                chars@ == pattern@,
                chars@.len() > 0,
                has_single_wild == chars@.contains('*'),
                has_multi_wild == chars@.contains('>'),
                has_single_wild || has_multi_wild,
                !(has_single_wild && has_multi_wild),
                gparts == parts.deep_view(),
                gparts == text::split_dots(chars@),
                first_part_error(gparts, 0) == first_part_error(gparts, i as int),
                tokens_view(tokens@) == gparts.take(i as int).map_values(
                    |x: Seq<char>| part_token(x),
                ),
            decreases parts.len() - i,
        {
            let part = &parts[i];
            proof {
                text::lemma_char_vec_deep_view(*part);
                assert(gparts[i as int] == part@);
            }
            let ghost old_tokens = tokens@;
            if part.len() == 0 {
                return Err(PatternError::EmptyToken);
            }
            let tok = if is_single_char(part, '*') {
                Token::SingleWild
            } else if is_single_char(part, '>') {
                if i != parts.len() - 1 {
                    return Err(PatternError::MultiWildcardNotLast);
                }
                Token::MultiWild
            } else {
                if has_char(part, '*') || has_char(part, '>') {
                    return Err(PatternError::CombinedWildcard);
                }
                Token::Literal(chars_to_string(part))
            };
            assert(tok@ == part_token(part@));
            tokens.push(tok);
            assert(tokens_view(tokens@) =~= tokens_view(old_tokens).push(tok@));
            assert(gparts.take(i + 1) =~= gparts.take(i as int).push(gparts[i as int]));
            i = i + 1;
        }
        assert(gparts.take(parts.len() as int) =~= gparts);
        if has_multi_wild {
            let ghost before = tokens@;
            tokens.pop();
            assert(tokens_view(tokens@) =~= tokens_view(before).drop_last());
            Ok(NatsPattern::MultiWildcard { pattern: pattern.to_owned(), prefix: tokens })
        } else {
            Ok(NatsPattern::SingleWildcard { pattern: pattern.to_owned(), tokens })
        }
    }

    /// Whether `topic` matches this pattern.
    pub fn matches(&self, topic: &str) -> (r: bool)
        ensures
            r == pattern_matches(self@, topic@),
    {
        match self {
            NatsPattern::Exact(exact) => {
                let t = topic.to_owned();
                *exact == t
            },
            NatsPattern::SingleWildcard { tokens, .. } => Self::matches_single_wildcard(
                tokens,
                topic,
            ),
            NatsPattern::MultiWildcard { prefix, .. } => Self::matches_multi_wildcard(
                prefix,
                topic,
            ),
        }
    }

    /// Whether this is a pattern (has wildcards) rather than an exact topic.
    pub open spec fn is_pattern_view(&self) -> bool {
        !(self@ is Exact)
    }

    /// Whether this is a pattern (has wildcards) rather than an exact topic.
    pub fn is_pattern(&self) -> (r: bool)
        ensures
            r == self.is_pattern_view(),
    {
        match self {
            NatsPattern::Exact(_) => false,
            _ => true,
        }
    }

    /// The text the pattern was parsed from.
    pub fn as_str(&self) -> (s: &str)
        ensures
            s@ == pattern_text(self@),
    {
        match self {
            NatsPattern::Exact(s) => s.as_str(),
            NatsPattern::SingleWildcard { pattern, .. } => pattern.as_str(),
            NatsPattern::MultiWildcard { pattern, .. } => pattern.as_str(),
        }
    }

    /// The text the pattern was parsed from, as an owned `String`.
    pub fn to_string(&self) -> (s: String)
        ensures
            s@ == pattern_text(self@),
    {
        self.as_str().to_owned()
    }

    /// Whether the first `toks.len()` topic tokens are accepted by `toks`.
    fn prefix_accepts(toks: &Vec<Token>, parts: &Vec<Vec<char>>) -> (r: bool)
        requires
            toks.len() <= parts.len(),
        ensures
            r == tokens_accept(tokens_view(toks@), parts.deep_view()),
    {
        let ghost tv = tokens_view(toks@);
        let ghost pv = parts.deep_view();
        let mut i: usize = 0;
        while i < toks.len()
            invariant
                toks.len() <= parts.len(),
                i <= toks.len(),
                tv == tokens_view(toks@),
                pv == parts.deep_view(),
                forall|j: int| 0 <= j < i ==> token_matches(#[trigger] tv[j], pv[j]),
            decreases toks.len() - i,
        {
            proof {
                text::lemma_char_vec_deep_view(parts@[i as int]);
            }
            let ok = match &toks[i] {
                Token::Literal(lit) => {
                    let lc = str_chars(lit.as_str());
                    chars_eq(&lc, &parts[i])
                },
                Token::SingleWild => true,
                Token::MultiWild => false,
            };
            assert(ok == token_matches(tv[i as int], pv[i as int]));
            if !ok {
                return false;
            }
            i = i + 1;
        }
        true
    }

    /// Matches `topic` against single-wildcard pattern tokens: same number of
    /// tokens, and each pattern token accepts the topic token at its position.
    pub fn matches_single_wildcard(tokens: &Vec<Token>, topic: &str) -> (r: bool)
        ensures
            r == (text::split_dots(topic@).len() == tokens@.len() && tokens_accept(
                tokens_view(tokens@),
                text::split_dots(topic@),
            )),
    {
        let chars = str_chars(topic);
        let parts = split_on_dots(&chars);
        if tokens.len() != parts.len() {
            return false;
        }
        Self::prefix_accepts(tokens, &parts)
    }

    /// Matches `topic` against the prefix of a multi-wildcard pattern: more
    /// tokens than the prefix, and each prefix token accepts the topic token
    /// at its position.
    pub fn matches_multi_wildcard(prefix: &Vec<Token>, topic: &str) -> (r: bool)
        ensures
            r == (text::split_dots(topic@).len() > prefix@.len() && tokens_accept(
                tokens_view(prefix@),
                text::split_dots(topic@),
            )),
    {
        let chars = str_chars(topic);
        let parts = split_on_dots(&chars);
        if parts.len() <= prefix.len() {
            return false;
        }
        Self::prefix_accepts(prefix, &parts)
    }
}

/// When no token at or after `i` is erroneous, no single token there is.
pub proof fn lemma_no_part_error(parts: Seq<Seq<char>>, i: int, j: int)
    requires
        0 <= i <= j < parts.len(),
        first_part_error(parts, i) is None,
    ensures
        part_error(parts, j) is None,
    decreases j - i,
{
    if i < j {
        lemma_no_part_error(parts, i + 1, j);
    }
}

/// A valid pattern remembers the text it was parsed from.
pub proof fn lemma_pattern_text_roundtrip(p: Seq<char>)
    requires
        parse_pattern(p) is Ok,
    ensures
        pattern_text(parse_pattern(p)->Ok_0) == p,
{
}

/// A pattern without wildcards matches exactly its own text and nothing else.
pub proof fn lemma_exact_matches_only_itself(p: Seq<char>, topic: Seq<char>)
    requires
        parse_pattern(p) is Ok,
        !p.contains('*'),
        !p.contains('>'),
    ensures
        parse_pattern(p)->Ok_0 is Exact,
        pattern_matches(parse_pattern(p)->Ok_0, topic) <==> topic == p,
{
}

/// Whether topic token `i` is accepted by pattern token `i`: the pattern
/// token is `*` or the same text.
pub open spec fn position_ok(pattern_parts: Seq<Seq<char>>, topic_parts: Seq<Seq<char>>, i: int) -> bool {
    pattern_parts[i] == seq!['*'] || pattern_parts[i] == topic_parts[i]
}

/// Matching token by token: a pattern ending in `>` matches a topic with at
/// least as many tokens whose tokens before the `>` are accepted position by
/// position; any other pattern matches a topic with exactly as many tokens,
/// all accepted position by position.
pub open spec fn matches_by_position(pattern: Seq<char>, topic: Seq<char>) -> bool {
    let pp = text::split_dots(pattern);
    let tp = text::split_dots(topic);
    if pp.last() == seq!['>'] {
        &&& tp.len() >= pp.len()
        &&& forall|i: int| 0 <= i < pp.len() - 1 ==> #[trigger] position_ok(pp, tp, i)
    } else {
        &&& tp.len() == pp.len()
        &&& forall|i: int| 0 <= i < pp.len() ==> #[trigger] position_ok(pp, tp, i)
    }
}

/// A token of `p` that is `*` or `>` puts that character in `p`.
proof fn lemma_wild_part_in_text(p: Seq<char>, k: int, c: char)
    requires
        0 <= k < text::split_dots(p).len(),
        text::split_dots(p)[k] == seq![c],
    ensures
        p.contains(c),
{
    text::lemma_split_dots_chars(p);
    assert(text::split_dots(p)[k][0] == c);
}

/// A valid pattern matches a topic exactly when it matches it token by
/// token: `*` takes any one token, `>` one or more trailing tokens, and
/// every other token only itself. In particular a pattern without
/// wildcards matches only its own text.
pub proof fn lemma_matches_by_position(p: Seq<char>, topic: Seq<char>)
    requires
        parse_pattern(p) is Ok,
    ensures
        pattern_matches(parse_pattern(p)->Ok_0, topic) == matches_by_position(p, topic),
{
    let pp = text::split_dots(p);
    let tp = text::split_dots(topic);
    text::lemma_split_dots_nonempty(p);
    text::lemma_split_dots_nonempty(topic);
    let v = parse_pattern(p)->Ok_0;
    if !p.contains('*') && !p.contains('>') {
        assert(pp.last() != seq!['>']) by {
            if pp.last() == seq!['>'] {
                lemma_wild_part_in_text(p, pp.len() - 1, '>');
            }
        }
        assert forall|i: int| 0 <= i < pp.len() implies #[trigger] position_ok(pp, tp, i) == (pp[i]
            == tp[i]) by {
            if pp[i] == seq!['*'] {
                lemma_wild_part_in_text(p, i, '*');
            }
        }
        if matches_by_position(p, topic) {
            assert(pp =~= tp) by {
                assert forall|i: int| 0 <= i < pp.len() implies pp[i] == tp[i] by {
                    assert(position_ok(pp, tp, i));
                }
            }
            text::lemma_split_dots_injective(p, topic);
        }
        if topic == p {
            assert forall|i: int| 0 <= i < pp.len() implies #[trigger] position_ok(pp, tp, i) by {}
        }
    } else {
        let toks = pp.map_values(|x: Seq<char>| part_token(x));
        assert(first_part_error(pp, 0) is None);
        if p.contains('>') {
            assert(!p.contains('*'));
            let w = choose|w: int| 0 <= w < p.len() && p[w] == '>';
            text::lemma_join_split(p);
            text::lemma_join_chars(pp, w);
            let (k, j) = choose|k: int, j: int|
                0 <= k < pp.len() && 0 <= j < pp[k].len() && #[trigger] pp[k][j] == text::join_dots(
                    pp,
                )[w];
            lemma_no_part_error(pp, 0, k);
            assert(pp[k].contains('>'));
            if pp[k] == seq!['*'] {
                assert(pp[k][0] == '*');
            }
            assert(pp[k] == seq!['>']);
            assert(k == pp.len() - 1);
            let prefix = toks.drop_last();
            assert forall|i: int| 0 <= i < pp.len() - 1 implies token_matches(
                #[trigger] prefix[i],
                tp[i],
            ) == position_ok(pp, tp, i) by {
                lemma_no_part_error(pp, 0, i);
                if pp[i] == seq!['*'] {
                    lemma_wild_part_in_text(p, i, '*');
                }
                assert(prefix[i] == part_token(pp[i]));
            }
            if pattern_matches(v, topic) {
                assert forall|i: int| 0 <= i < pp.len() - 1 implies #[trigger] position_ok(
                    pp,
                    tp,
                    i,
                ) by {
                    assert(token_matches(prefix[i], tp[i]));
                }
            }
            if matches_by_position(p, topic) {
                assert forall|i: int| 0 <= i < prefix.len() implies token_matches(
                    #[trigger] prefix[i],
                    tp[i],
                ) by {
                    assert(position_ok(pp, tp, i));
                }
            }
        } else {
            assert(pp.last() != seq!['>']) by {
                if pp.last() == seq!['>'] {
                    lemma_wild_part_in_text(p, pp.len() - 1, '>');
                }
            }
            assert forall|i: int| 0 <= i < pp.len() implies token_matches(
                #[trigger] toks[i],
                tp[i],
            ) == position_ok(pp, tp, i) by {
                if pp[i] == seq!['>'] {
                    lemma_wild_part_in_text(p, i, '>');
                }
            }
            if pattern_matches(v, topic) {
                assert forall|i: int| 0 <= i < pp.len() implies #[trigger] position_ok(pp, tp, i) by {
                    assert(token_matches(toks[i], tp[i]));
                }
            }
            if matches_by_position(p, topic) {
                assert forall|i: int| 0 <= i < toks.len() implies token_matches(
                    #[trigger] toks[i],
                    tp[i],
                ) by {
                    assert(position_ok(pp, tp, i));
                }
            }
        }
    }
}

/// Every valid pattern matches its own text, taken as a topic.
pub proof fn lemma_pattern_matches_own_text(p: Seq<char>)
    requires
        parse_pattern(p) is Ok,
    ensures
        pattern_matches(parse_pattern(p)->Ok_0, p),
{
    if p.contains('*') || p.contains('>') {
        let parts = text::split_dots(p);
        let toks = parts.map_values(|x: Seq<char>| part_token(x));
        text::lemma_split_dots_nonempty(p);
        text::lemma_split_dots_chars(p);
        assert forall|i: int| 0 <= i < parts.len() - 1 || (0 <= i < parts.len() && !p.contains('>'))
            implies token_matches(#[trigger] toks[i], parts[i]) by {
            lemma_no_part_error(parts, 0, i);
            if parts[i] == seq!['>'] {
                assert(parts[i][0] == '>');
                assert(p.contains('>'));
            }
        }
    }
}

/// `*` matches exactly one token: a topic matching a single-wildcard pattern
/// has as many tokens as the pattern.
pub proof fn lemma_single_wildcard_token_count(p: Seq<char>, topic: Seq<char>)
    requires
        parse_pattern(p) is Ok,
        parse_pattern(p)->Ok_0 is SingleWildcard,
        pattern_matches(parse_pattern(p)->Ok_0, topic),
    ensures
        text::split_dots(topic).len() == text::split_dots(p).len(),
{
}

/// `>` matches one or more tokens: a topic matching a multi-wildcard pattern
/// has at least as many tokens as the pattern (the `>` standing for one or more).
pub proof fn lemma_multi_wildcard_token_count(p: Seq<char>, topic: Seq<char>)
    requires
        parse_pattern(p) is Ok,
        parse_pattern(p)->Ok_0 is MultiWildcard,
        pattern_matches(parse_pattern(p)->Ok_0, topic),
    ensures
        text::split_dots(topic).len() >= text::split_dots(p).len(),
{
    text::lemma_split_dots_nonempty(p);
}

/// Appending tokens to a topic that matches a multi-wildcard pattern keeps it
/// matching: `>` covers any number of trailing tokens.
pub proof fn lemma_multi_wildcard_extension(p: Seq<char>, topic: Seq<char>, more: Seq<char>)
    requires
        parse_pattern(p) is Ok,
        parse_pattern(p)->Ok_0 is MultiWildcard,
        pattern_matches(parse_pattern(p)->Ok_0, topic),
    ensures
        pattern_matches(parse_pattern(p)->Ok_0, topic + seq!['.'] + more),
{
    text::lemma_split_dots_concat(topic, more);
    text::lemma_split_dots_nonempty(more);
    let v = parse_pattern(p)->Ok_0;
    let prefix = v->MultiWildcard_prefix;
    let a = text::split_dots(topic);
    let b = text::split_dots(more);
    assert forall|i: int| 0 <= i < prefix.len() implies token_matches(
        #[trigger] prefix[i],
        (a + b)[i],
    ) by {
        assert((a + b)[i] == a[i]);
    }
}

/// The pattern `>` is valid and matches every topic.
pub proof fn lemma_root_wildcard_matches_all(topic: Seq<char>)
    ensures
        parse_pattern(seq!['>']) is Ok,
        pattern_matches(parse_pattern(seq!['>'])->Ok_0, topic),
{
    let p = seq!['>'];
    assert(p.contains('>')) by {
        assert(p[0] == '>');
    }
    assert(!p.contains('*')) by {
        if p.contains('*') {
            let i = choose|i: int| 0 <= i < p.len() && p[i] == '*';
            assert(p[i] == '>');
        }
    }
    assert(!p.contains('.')) by {
        if p.contains('.') {
            let i = choose|i: int| 0 <= i < p.len() && p[i] == '.';
            assert(p[i] == '>');
        }
    }
    text::lemma_split_dots_no_dot(p);
    let parts = text::split_dots(p);
    assert(part_error(parts, 0) is None);
    assert(first_part_error(parts, 1) is None);
    assert(first_part_error(parts, 0) is None);
    text::lemma_split_dots_nonempty(topic);
}

} // verus!
