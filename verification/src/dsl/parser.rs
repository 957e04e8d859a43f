use std::ops::Range;
use vstd::prelude::*;

use crate::dsl::ast::{
    match_list_view, ActionModel, ConfigModel, DefinitionModel, FolderModel, MatcherModel, Node, NodeModel, ParserAction,
    ParserConfig, ParserFolder, ParserIdentifier, ParserMatchList, ParserMatcher, ParserRule,
    ParserRuleValue, ParserStringMatcher, RuleModel, RuleValueModel, StringMatcherModel,
};
use crate::dsl::lexer::{SpecToken, Token};

verus! {

// ---------------------------------------------------------------------------
// Spans and errors
// ---------------------------------------------------------------------------

/// A range of token positions: the tokens `start .. end` of the input.
#[derive(Debug, Clone, Copy, PartialEq, Eq)]
pub struct TokenSpan {
    pub start: usize,
    pub end: usize,
}

impl View for TokenSpan {
    type V = TokenSpan;

    open spec fn view(&self) -> TokenSpan {
        *self
    }
}

impl TokenSpan {
    /// The smallest span that covers both spans.
    pub fn union(self, other: TokenSpan) -> (r: TokenSpan)
        ensures
            r == span_union(self, other),
    {
        TokenSpan {
            start: if self.start <= other.start {
                self.start
            } else {
                other.start
            },
            end: if self.end >= other.end {
                self.end
            } else {
                other.end
            },
        }
    }
}

pub open spec fn span_union(a: TokenSpan, b: TokenSpan) -> TokenSpan {
    TokenSpan {
        start: if a.start <= b.start {
            a.start
        } else {
            b.start
        },
        end: if a.end >= b.end {
            a.end
        } else {
            b.end
        },
    }
}

/// What the parser expected where it failed.
#[derive(Debug, Clone, PartialEq)]
pub enum Expected {
    /// This token.
    Token(Token),
    /// Any token.
    Any,
    /// Something other than what was found.
    SomethingElse,
    /// The end of the input.
    EndOfInput,
}

pub enum ExpectedModel {
    Token(SpecToken),
    Any,
    SomethingElse,
    EndOfInput,
}

impl View for Expected {
    type V = ExpectedModel;

    open spec fn view(&self) -> ExpectedModel {
        match self {
            Expected::Token(t) => ExpectedModel::Token(t@),
            Expected::Any => ExpectedModel::Any,
            Expected::SomethingElse => ExpectedModel::SomethingElse,
            Expected::EndOfInput => ExpectedModel::EndOfInput,
        }
    }
}

/// Why a token sequence is no valid rule file. Each variant carries the
/// token span it is about.
#[derive(Debug, PartialEq)]
pub enum ParserError {
    TopLevelDefinition(TokenSpan),
    MissingClosingBrace(TokenSpan),
    RuleNotNamed(TokenSpan),
    FolderNotNamed(TokenSpan),
    NoMatcherInRule(TokenSpan),
    NoActionInRule(TokenSpan),
    DuplicateMatcherInRule(TokenSpan, TokenSpan),
    DuplicateActionInRule(TokenSpan, TokenSpan),
    ExpectedStringAfterStringMatcher(TokenSpan),
    ExpectedStringMatcherKeyword(TokenSpan),
    ExpectedStringMatcherAfterKeyword(TokenSpan),
    MatchListAfterLogicalOperator(TokenSpan),
    IdentifierMoveTo(TokenSpan),
    InvalidAction(TokenSpan),
    ArgumentsFollowAction(TokenSpan),
    CombinedError(Box<ParserError>, Box<ParserError>),
    ExpectedFound { span: TokenSpan, expected: Vec<Expected>, found: Option<Token> },
}

pub enum ParserErrorModel {
    TopLevelDefinition(TokenSpan),
    MissingClosingBrace(TokenSpan),
    RuleNotNamed(TokenSpan),
    FolderNotNamed(TokenSpan),
    NoMatcherInRule(TokenSpan),
    NoActionInRule(TokenSpan),
    DuplicateMatcherInRule(TokenSpan, TokenSpan),
    DuplicateActionInRule(TokenSpan, TokenSpan),
    ExpectedStringAfterStringMatcher(TokenSpan),
    ExpectedStringMatcherKeyword(TokenSpan),
    ExpectedStringMatcherAfterKeyword(TokenSpan),
    MatchListAfterLogicalOperator(TokenSpan),
    IdentifierMoveTo(TokenSpan),
    InvalidAction(TokenSpan),
    ArgumentsFollowAction(TokenSpan),
    CombinedError(Box<ParserErrorModel>, Box<ParserErrorModel>),
    ExpectedFound { span: TokenSpan, expected: Seq<ExpectedModel>, found: Option<SpecToken> },
}

pub open spec fn option_token_view(t: Option<Token>) -> Option<SpecToken> {
    match t {
        Some(t) => Some(t@),
        None => None,
    }
}

pub open spec fn error_view(e: ParserError) -> ParserErrorModel
    decreases e,
{
    match e {
        ParserError::TopLevelDefinition(s) => ParserErrorModel::TopLevelDefinition(s),
        ParserError::MissingClosingBrace(s) => ParserErrorModel::MissingClosingBrace(s),
        ParserError::RuleNotNamed(s) => ParserErrorModel::RuleNotNamed(s),
        ParserError::FolderNotNamed(s) => ParserErrorModel::FolderNotNamed(s),
        ParserError::NoMatcherInRule(s) => ParserErrorModel::NoMatcherInRule(s),
        ParserError::NoActionInRule(s) => ParserErrorModel::NoActionInRule(s),
        ParserError::DuplicateMatcherInRule(a, b) => ParserErrorModel::DuplicateMatcherInRule(a, b),
        ParserError::DuplicateActionInRule(a, b) => ParserErrorModel::DuplicateActionInRule(a, b),
        ParserError::ExpectedStringAfterStringMatcher(s) =>
            ParserErrorModel::ExpectedStringAfterStringMatcher(s),
        ParserError::ExpectedStringMatcherKeyword(s) =>
            ParserErrorModel::ExpectedStringMatcherKeyword(s),
        ParserError::ExpectedStringMatcherAfterKeyword(s) =>
            ParserErrorModel::ExpectedStringMatcherAfterKeyword(s),
        ParserError::MatchListAfterLogicalOperator(s) =>
            ParserErrorModel::MatchListAfterLogicalOperator(s),
        ParserError::IdentifierMoveTo(s) => ParserErrorModel::IdentifierMoveTo(s),
        ParserError::InvalidAction(s) => ParserErrorModel::InvalidAction(s),
        ParserError::ArgumentsFollowAction(s) => ParserErrorModel::ArgumentsFollowAction(s),
        ParserError::CombinedError(a, b) => ParserErrorModel::CombinedError(
            Box::new(error_view(*a)),
            Box::new(error_view(*b)),
        ),
        ParserError::ExpectedFound { span, expected, found } => ParserErrorModel::ExpectedFound {
            span,
            expected: expected@.map_values(|x: Expected| x@),
            found: option_token_view(found),
        },
    }
}

impl View for ParserError {
    type V = ParserErrorModel;

    open spec fn view(&self) -> ParserErrorModel {
        error_view(*self)
    }
}

/// The span of an error (for two errors, the span covering both).
pub open spec fn error_span(e: ParserErrorModel) -> TokenSpan
    decreases e,
{
    match e {
        ParserErrorModel::TopLevelDefinition(s) => s,
        ParserErrorModel::MissingClosingBrace(s) => s,
        ParserErrorModel::RuleNotNamed(s) => s,
        ParserErrorModel::FolderNotNamed(s) => s,
        ParserErrorModel::NoMatcherInRule(s) => s,
        ParserErrorModel::NoActionInRule(s) => s,
        ParserErrorModel::DuplicateMatcherInRule(a, b) => span_union(a, b),
        ParserErrorModel::DuplicateActionInRule(a, b) => span_union(a, b),
        ParserErrorModel::ExpectedStringAfterStringMatcher(s) => s,
        ParserErrorModel::ExpectedStringMatcherKeyword(s) => s,
        ParserErrorModel::ExpectedStringMatcherAfterKeyword(s) => s,
        ParserErrorModel::MatchListAfterLogicalOperator(s) => s,
        ParserErrorModel::IdentifierMoveTo(s) => s,
        ParserErrorModel::InvalidAction(s) => s,
        ParserErrorModel::ArgumentsFollowAction(s) => s,
        ParserErrorModel::CombinedError(a, b) => span_union(error_span(*a), error_span(*b)),
        ParserErrorModel::ExpectedFound { span, .. } => span,
    }
}

/// `new_err` in place of a generic "expected ..., found ..." error; any
/// other error is kept.
pub open spec fn replace_if_expected_found(
    e: ParserErrorModel,
    new_err: ParserErrorModel,
) -> ParserErrorModel {
    match e {
        ParserErrorModel::ExpectedFound { .. } => new_err,
        _ => e,
    }
}

/// The byte range, in the source text, of a token span, given the byte
/// ranges of the tokens. Positions past the last token map to the end of the
/// last token; without token ranges every span maps to `0..0`.
pub open spec fn lexer_span(span: TokenSpan, ls: Seq<Range<usize>>) -> Range<usize> {
    if ls.len() == 0 {
        Range { start: 0, end: 0 }
    } else {
        let last_end = ls.last().end;
        let start_byte = if span.start < ls.len() {
            ls[span.start as int].start
        } else {
            last_end
        };
        let end_byte = if span.start == span.end {
            start_byte
        } else {
            let i: int = if span.end == 0 {
                0
            } else {
                span.end - 1
            };
            if i < ls.len() {
                ls[i].end
            } else {
                last_end
            }
        };
        Range { start: start_byte, end: end_byte }
    }
}

/// Maps a token span to the byte range of the source text it covers.
pub fn span_to_lexer_span(span: TokenSpan, lexer_spans: &Vec<Range<usize>>) -> (r: Range<usize>)
    ensures
        r == lexer_span(span, lexer_spans@),
{
    let n = lexer_spans.len();
    if n == 0 {
        return Range { start: 0, end: 0 };
    }
    let last_end = lexer_spans[n - 1].end;
    let start_byte = if span.start < n {
        lexer_spans[span.start].start
    } else {
        last_end
    };
    let end_byte = if span.start == span.end {
        start_byte
    } else {
        let i = if span.end == 0 {
            0
        } else {
            span.end - 1
        };
        if i < n {
            lexer_spans[i].end
        } else {
            last_end
        }
    };
    Range { start: start_byte, end: end_byte }
}

// ---------------------------------------------------------------------------
// The grammar, as a function of the token sequence
// ---------------------------------------------------------------------------

/// The tokens' mathematical values.
pub open spec fn tokens_view(v: Seq<Token>) -> Seq<SpecToken> {
    v.map_values(|t: Token| t@)
}

pub open spec fn tok_at(t: Seq<SpecToken>, p: int) -> Option<SpecToken> {
    if 0 <= p < t.len() {
        Some(t[p])
    } else {
        None
    }
}

/// The span of the token found at `p` (empty at the end of the input).
pub open spec fn found_span(t: Seq<SpecToken>, p: int) -> TokenSpan {
    TokenSpan {
        start: p as usize,
        end: if p < t.len() {
            (p + 1) as usize
        } else {
            p as usize
        },
    }
}

pub open spec fn tspan(a: int, b: int) -> TokenSpan {
    TokenSpan { start: a as usize, end: b as usize }
}

/// "Expected one of `expected`, found the token at `p`".
pub open spec fn expected_found(
    t: Seq<SpecToken>,
    p: int,
    expected: Seq<ExpectedModel>,
) -> ParserErrorModel {
    ParserErrorModel::ExpectedFound { span: found_span(t, p), expected, found: tok_at(t, p) }
}

pub open spec fn exp(t: SpecToken) -> ExpectedModel {
    ExpectedModel::Token(t)
}

pub open spec fn string_matcher_keywords() -> Seq<ExpectedModel> {
    seq![
        exp(SpecToken::KwContains),
        exp(SpecToken::KwStartsWith),
        exp(SpecToken::KwEquals),
        exp(SpecToken::KwRegex),
    ]
}

pub open spec fn msg_matcher_starts() -> Seq<ExpectedModel> {
    seq![
        exp(SpecToken::KwSubject),
        exp(SpecToken::KwFrom),
        exp(SpecToken::KwTo),
        exp(SpecToken::KwBody),
        exp(SpecToken::LParen),
    ]
}

pub open spec fn matcher_starts() -> Seq<ExpectedModel> {
    seq![exp(SpecToken::KwAnd), exp(SpecToken::KwOr), exp(SpecToken::KwNot)]
        + msg_matcher_starts()
}

pub open spec fn is_string_matcher_keyword(t: SpecToken) -> bool {
    t is KwContains || t is KwStartsWith || t is KwEquals || t is KwRegex
}

pub open spec fn is_msg_keyword(t: SpecToken) -> bool {
    t is KwSubject || t is KwFrom || t is KwTo || t is KwBody
}

pub open spec fn is_msg_start(t: SpecToken) -> bool {
    is_msg_keyword(t) || t is LParen
}

pub open spec fn make_string_matcher(k: SpecToken, s: Seq<char>) -> StringMatcherModel {
    if k is KwContains {
        StringMatcherModel::Contains(s)
    } else if k is KwStartsWith {
        StringMatcherModel::StartsWith(s)
    } else if k is KwEquals {
        StringMatcherModel::Equals(s)
    } else {
        StringMatcherModel::Regex(s)
    }
}

pub open spec fn make_msg_matcher(k: SpecToken, n: NodeModel<StringMatcherModel>) -> MatcherModel {
    if k is KwSubject {
        MatcherModel::Subject(n)
    } else if k is KwFrom {
        MatcherModel::From(n)
    } else if k is KwTo {
        MatcherModel::To(n)
    } else {
        MatcherModel::Body(n)
    }
}

/// The result of parsing one construct from a position: the value and the
/// position after it, or the error.
pub type SpecResult<T> = Result<(T, int), ParserErrorModel>;

/// ```ebnf
/// string_matcher = ('contains' | 'startswith' | 'equals' | 'regex'), string ;
/// ```
pub open spec fn spec_string_matcher(t: Seq<SpecToken>, ls: Seq<Range<usize>>, p: int) -> SpecResult<
    NodeModel<StringMatcherModel>,
> {
    match tok_at(t, p) {
        Some(k) => if is_string_matcher_keyword(k) {
            match tok_at(t, p + 1) {
                Some(SpecToken::Str(s)) => Ok(
                    (
                        NodeModel {
                            value: make_string_matcher(k, s),
                            span: lexer_span(tspan(p, p + 2), ls),
                        },
                        p + 2,
                    ),
                ),
                Some(_) => Err(
                    ParserErrorModel::ExpectedStringAfterStringMatcher(tspan(p + 1, p + 2)),
                ),
                None => Err(expected_found(t, p + 1, seq![ExpectedModel::Any])),
            }
        } else {
            Err(expected_found(t, p, string_matcher_keywords()))
        },
        None => Err(expected_found(t, p, string_matcher_keywords())),
    }
}

/// The span from position `p` to the end of the error's span.
pub open spec fn span_from(p: int, e: ParserErrorModel) -> TokenSpan {
    span_union(error_span(e), tspan(p, p))
}

/// ```ebnf
/// matcher       = 'and', match_list | 'or', match_list | 'not', msg_matcher | msg_matcher ;
/// ```
pub open spec fn spec_matcher(t: Seq<SpecToken>, ls: Seq<Range<usize>>, p: int) -> SpecResult<
    NodeModel<MatcherModel>,
>
    decreases t.len() - p, 3int,
{
    match tok_at(t, p) {
        None => Err(expected_found(t, p, matcher_starts())),
        Some(k) => if k is KwAnd || k is KwOr {
            match spec_match_list(t, ls, p + 1) {
                Ok((l, q)) => Ok(
                    (
                        NodeModel {
                            value: if k is KwAnd {
                                MatcherModel::And(l)
                            } else {
                                MatcherModel::Or(l)
                            },
                            span: lexer_span(tspan(p, q), ls),
                        },
                        q,
                    ),
                ),
                Err(e) => Err(
                    replace_if_expected_found(
                        e,
                        ParserErrorModel::MatchListAfterLogicalOperator(span_from(p, e)),
                    ),
                ),
            }
        } else if k is KwNot {
            match spec_msg_matcher(t, ls, p + 1) {
                Ok((m, q)) => Ok(
                    (
                        NodeModel {
                            value: MatcherModel::Not(Box::new(m)),
                            span: lexer_span(tspan(p, q), ls),
                        },
                        q,
                    ),
                ),
                Err(e) => Err(e),
            }
        } else if is_msg_start(k) {
            spec_msg_matcher(t, ls, p)
        } else {
            Err(expected_found(t, p, matcher_starts()))
        },
    }
}

/// ```ebnf
/// msg_matcher   = ('subject' | 'from' | 'to' | 'body'), string_matcher | '(', matcher, ')' ;
/// ```
pub open spec fn spec_msg_matcher(t: Seq<SpecToken>, ls: Seq<Range<usize>>, p: int) -> SpecResult<
    NodeModel<MatcherModel>,
>
    decreases t.len() - p, 2int,
{
    match tok_at(t, p) {
        None => Err(expected_found(t, p, msg_matcher_starts())),
        Some(k) => if is_msg_keyword(k) {
            match spec_string_matcher(t, ls, p + 1) {
                Ok((sm, q)) => Ok(
                    (
                        NodeModel { value: make_msg_matcher(k, sm), span: lexer_span(tspan(p, q), ls) },
                        q,
                    ),
                ),
                Err(e) => Err(
                    replace_if_expected_found(
                        e,
                        ParserErrorModel::ExpectedStringMatcherAfterKeyword(span_from(p, e)),
                    ),
                ),
            }
        } else if k is LParen {
            match spec_matcher(t, ls, p + 1) {
                Ok((m, q)) => if tok_at(t, q) == Some(SpecToken::RParen) {
                    Ok((m, q + 1))
                } else {
                    Err(expected_found(t, q, seq![exp(SpecToken::RParen)]))
                },
                Err(e) => Err(e),
            }
        } else {
            Err(expected_found(t, p, msg_matcher_starts()))
        },
    }
}

/// ```ebnf
/// match_list    = '[', { matcher }, ']' ;
/// ```
pub open spec fn spec_match_list(t: Seq<SpecToken>, ls: Seq<Range<usize>>, p: int) -> SpecResult<
    NodeModel<Seq<NodeModel<MatcherModel>>>,
>
    decreases t.len() - p, 5int,
{
    if tok_at(t, p) == Some(SpecToken::LBracket) {
        match spec_match_items(t, ls, p + 1) {
            Ok((l, q)) => Ok((NodeModel { value: l, span: lexer_span(tspan(p, q + 1), ls) }, q + 1)),
            Err(e) => Err(e),
        }
    } else {
        Err(expected_found(t, p, seq![exp(SpecToken::LBracket)]))
    }
}

/// The matchers of a match list, up to (and not including) its closing bracket.
pub open spec fn spec_match_items(t: Seq<SpecToken>, ls: Seq<Range<usize>>, p: int) -> SpecResult<
    Seq<NodeModel<MatcherModel>>,
>
    decreases t.len() - p, 4int,
{
    if p < 0 || p > t.len() {
        arbitrary()
    } else {
        match tok_at(t, p) {
            Some(SpecToken::RBracket) => Ok((seq![], p)),
            None => Err(expected_found(t, p, matcher_starts().push(exp(SpecToken::RBracket)))),
            Some(_) => match spec_matcher(t, ls, p) {
                Err(e) => Err(e),
                Ok((m, q)) => if p < q <= t.len() {
                    match spec_match_items(t, ls, q) {
                        Ok((rest, r)) => Ok((seq![m] + rest, r)),
                        Err(e) => Err(e),
                    }
                } else {
                    arbitrary()
                },
            },
        }
    }
}

/// The arguments of `moveto`: `'[', any token, ']'`, where the token must be
/// an identifier.
pub open spec fn spec_action_args(t: Seq<SpecToken>, ls: Seq<Range<usize>>, p: int) -> SpecResult<
    NodeModel<Seq<char>>,
> {
    if tok_at(t, p) != Some(SpecToken::LBracket) {
        Err(ParserErrorModel::ArgumentsFollowAction(span_union(found_span(t, p), tspan(p, p))))
    } else if tok_at(t, p + 1) is None {
        Err(ParserErrorModel::ArgumentsFollowAction(span_union(found_span(t, p + 1), tspan(p, p))))
    } else if tok_at(t, p + 2) != Some(SpecToken::RBracket) {
        Err(ParserErrorModel::ArgumentsFollowAction(span_union(found_span(t, p + 2), tspan(p, p))))
    } else {
        match t[p + 1] {
            SpecToken::Ident(id) => Ok(
                (NodeModel { value: id, span: lexer_span(tspan(p, p + 3), ls) }, p + 3),
            ),
            _ => Err(ParserErrorModel::IdentifierMoveTo(tspan(p, p + 3))),
        }
    }
}

/// ```ebnf
/// action        = 'delete' | 'moveto', '[', identifier, ']' ;
/// ```
pub open spec fn spec_action(t: Seq<SpecToken>, ls: Seq<Range<usize>>, p: int) -> SpecResult<
    NodeModel<ActionModel>,
> {
    match tok_at(t, p) {
        Some(SpecToken::KwDelete) => Ok(
            (NodeModel { value: ActionModel::Delete, span: lexer_span(tspan(p, p + 1), ls) }, p + 1),
        ),
        Some(SpecToken::KwMoveTo) => match spec_action_args(t, ls, p + 1) {
            Ok((id, q)) => Ok(
                (NodeModel { value: ActionModel::MoveTo(id), span: lexer_span(tspan(p, q), ls) }, q),
            ),
            Err(e) => Err(e),
        },
        _ => Err(ParserErrorModel::InvalidAction(span_union(tspan(p, p), found_span(t, p)))),
    }
}

/// ```ebnf
/// rule_pair     = 'matcher', ':', matcher | 'action', ':', action ;
/// ```
/// The value is paired with the span of its key and colon.
pub open spec fn spec_rule_pair(t: Seq<SpecToken>, ls: Seq<Range<usize>>, p: int) -> SpecResult<
    NodeModel<(RuleValueModel, TokenSpan)>,
> {
    match tok_at(t, p) {
        Some(SpecToken::KwMatcher) => if tok_at(t, p + 1) == Some(SpecToken::Colon) {
            match spec_matcher(t, ls, p + 2) {
                Ok((m, q)) => Ok(
                    (
                        NodeModel {
                            value: (RuleValueModel::Matcher(m), tspan(p, p + 2)),
                            span: lexer_span(tspan(p, q), ls),
                        },
                        q,
                    ),
                ),
                Err(e) => Err(e),
            }
        } else {
            Err(expected_found(t, p + 1, seq![exp(SpecToken::Colon)]))
        },
        Some(SpecToken::KwAction) => if tok_at(t, p + 1) == Some(SpecToken::Colon) {
            match spec_action(t, ls, p + 2) {
                Ok((a, q)) => Ok(
                    (
                        NodeModel {
                            value: (RuleValueModel::Action(a), tspan(p, p + 2)),
                            span: lexer_span(tspan(p, q), ls),
                        },
                        q,
                    ),
                ),
                Err(e) => Err(e),
            }
        } else {
            Err(expected_found(t, p + 1, seq![exp(SpecToken::Colon)]))
        },
        _ => Err(expected_found(t, p, seq![exp(SpecToken::KwMatcher), exp(SpecToken::KwAction)])),
    }
}

/// The pairs of a rule body, up to (and not including) its closing brace.
pub open spec fn spec_rule_pairs(t: Seq<SpecToken>, ls: Seq<Range<usize>>, p: int) -> SpecResult<
    Seq<NodeModel<(RuleValueModel, TokenSpan)>>,
>
    decreases t.len() - p,
{
    if p < 0 || p > t.len() {
        arbitrary()
    } else {
        match tok_at(t, p) {
            Some(SpecToken::RBrace) => Ok((seq![], p)),
            Some(SpecToken::KwMatcher) | Some(SpecToken::KwAction) => match spec_rule_pair(
                t,
                ls,
                p,
            ) {
                Ok((n, q)) => if p < q <= t.len() {
                    match spec_rule_pairs(t, ls, q) {
                        Ok((rest, r)) => Ok((seq![n] + rest, r)),
                        Err(e) => Err(e),
                    }
                } else {
                    arbitrary()
                },
                Err(e) => Err(e),
            },
            _ => Err(ParserErrorModel::MissingClosingBrace(found_span(t, p))),
        }
    }
}

/// The matchers of a rule body, each with the span of its key, in order.
pub open spec fn rule_matchers(list: Seq<NodeModel<(RuleValueModel, TokenSpan)>>) -> Seq<
    (NodeModel<MatcherModel>, TokenSpan),
>
    decreases list.len(),
{
    if list.len() == 0 {
        seq![]
    } else {
        let prev = rule_matchers(list.drop_last());
        match list.last().value.0 {
            RuleValueModel::Matcher(m) => prev.push((m, list.last().value.1)),
            _ => prev,
        }
    }
}

/// The actions of a rule body, each with the span of its key, in order.
pub open spec fn rule_actions(list: Seq<NodeModel<(RuleValueModel, TokenSpan)>>) -> Seq<
    (NodeModel<ActionModel>, TokenSpan),
>
    decreases list.len(),
{
    if list.len() == 0 {
        seq![]
    } else {
        let prev = rule_actions(list.drop_last());
        match list.last().value.0 {
            RuleValueModel::Action(a) => prev.push((a, list.last().value.1)),
            _ => prev,
        }
    }
}

/// A rule body must hold exactly one matcher and exactly one action.
pub open spec fn check_rule_pairs(
    list: Seq<NodeModel<(RuleValueModel, TokenSpan)>>,
    span: TokenSpan,
) -> Result<(NodeModel<MatcherModel>, NodeModel<ActionModel>), ParserErrorModel> {
    let ms = rule_matchers(list);
    let acts = rule_actions(list);
    if ms.len() == 0 {
        Err(ParserErrorModel::NoMatcherInRule(span))
    } else if acts.len() == 0 {
        Err(ParserErrorModel::NoActionInRule(span))
    } else if ms.len() > 1 && acts.len() > 1 {
        Err(
            ParserErrorModel::CombinedError(
                Box::new(ParserErrorModel::DuplicateMatcherInRule(ms[0].1, ms[1].1)),
                Box::new(ParserErrorModel::DuplicateActionInRule(acts[0].1, acts[1].1)),
            ),
        )
    } else if ms.len() > 1 {
        Err(ParserErrorModel::DuplicateMatcherInRule(ms[0].1, ms[1].1))
    } else if acts.len() > 1 {
        Err(ParserErrorModel::DuplicateActionInRule(acts[0].1, acts[1].1))
    } else {
        Ok((ms[0].0, acts[0].0))
    }
}

/// Whether a pair of a rule body is a `matcher:` pair.
pub open spec fn is_matcher_pair() -> spec_fn(NodeModel<(RuleValueModel, TokenSpan)>) -> bool {
    |n: NodeModel<(RuleValueModel, TokenSpan)>| n.value.0 is Matcher
}

/// Whether a pair of a rule body is an `action:` pair.
pub open spec fn is_action_pair() -> spec_fn(NodeModel<(RuleValueModel, TokenSpan)>) -> bool {
    |n: NodeModel<(RuleValueModel, TokenSpan)>| n.value.0 is Action
}

proof fn lemma_rule_matchers_are_the_matcher_pairs(list: Seq<NodeModel<(RuleValueModel, TokenSpan)>>)
    ensures
        rule_matchers(list).len() == list.filter(is_matcher_pair()).len(),
        forall|k: int|
            0 <= k < rule_matchers(list).len() ==> list.filter(is_matcher_pair())[k].value == (
            RuleValueModel::Matcher((#[trigger] rule_matchers(list)[k]).0), rule_matchers(list)[k].1),
        rule_actions(list).len() == list.filter(is_action_pair()).len(),
        forall|k: int|
            0 <= k < rule_actions(list).len() ==> list.filter(is_action_pair())[k].value == (
            RuleValueModel::Action((#[trigger] rule_actions(list)[k]).0), rule_actions(list)[k].1),
    decreases list.len(),
{
    reveal_with_fuel(Seq::filter, 1);
    if list.len() > 0 {
        let init = list.drop_last();
        let last = list.last();
        lemma_rule_matchers_are_the_matcher_pairs(init);
        assert(init.push(last) =~= list);
        init.lemma_filter_push(last, is_matcher_pair());
        init.lemma_filter_push(last, is_action_pair());
        let fm = list.filter(is_matcher_pair());
        let fa = list.filter(is_action_pair());
        assert forall|k: int| 0 <= k < rule_matchers(list).len() implies fm[k].value == (
        RuleValueModel::Matcher((#[trigger] rule_matchers(list)[k]).0), rule_matchers(list)[k].1) by {
            if k < rule_matchers(init).len() {
                assert(rule_matchers(list)[k] == rule_matchers(init)[k]);
                assert(fm[k] == init.filter(is_matcher_pair())[k]);
            }
        }
        assert forall|k: int| 0 <= k < rule_actions(list).len() implies fa[k].value == (
        RuleValueModel::Action((#[trigger] rule_actions(list)[k]).0), rule_actions(list)[k].1) by {
            if k < rule_actions(init).len() {
                assert(rule_actions(list)[k] == rule_actions(init)[k]);
                assert(fa[k] == init.filter(is_action_pair())[k]);
            }
        }
    }
}

/// A rule body is accepted exactly when it holds one `matcher:` pair and
/// one `action:` pair, and then gives that matcher and that action. A body
/// without a matcher is refused as such, and one with two or more matchers
/// (and some action) is refused for a duplicate matcher, named first.
pub proof fn lemma_rule_pairs_exactly_one(
    list: Seq<NodeModel<(RuleValueModel, TokenSpan)>>,
    span: TokenSpan,
)
    ensures
        check_rule_pairs(list, span) is Ok <==> (list.filter(is_matcher_pair()).len() == 1
            && list.filter(is_action_pair()).len() == 1),
        check_rule_pairs(list, span) matches Ok((m, a)) ==> list.filter(is_matcher_pair())[0].value.0
            == RuleValueModel::Matcher(m) && list.filter(is_action_pair())[0].value.0
            == RuleValueModel::Action(a),
        list.filter(is_matcher_pair()).len() == 0 ==> check_rule_pairs(list, span) == Err::<
            (NodeModel<MatcherModel>, NodeModel<ActionModel>),
            ParserErrorModel,
        >(ParserErrorModel::NoMatcherInRule(span)),
        list.filter(is_matcher_pair()).len() > 1 && list.filter(is_action_pair()).len() >= 1
            ==> (check_rule_pairs(list, span) matches Err(e) && (e is DuplicateMatcherInRule || (
        e matches ParserErrorModel::CombinedError(first, _) && *first is DuplicateMatcherInRule))),
{
    lemma_rule_matchers_are_the_matcher_pairs(list);
    if rule_matchers(list).len() > 0 {
        assert(rule_matchers(list)[0] == rule_matchers(list)[0]);
    }
    if rule_actions(list).len() > 0 {
        assert(rule_actions(list)[0] == rule_actions(list)[0]);
    }
}

/// The first position at or after `q` that holds `{` (or the end).
pub open spec fn brace_pos(t: Seq<SpecToken>, q: int) -> int
    decreases t.len() - q,
{
    if 0 <= q < t.len() && t[q] != SpecToken::LBrace {
        brace_pos(t, q + 1)
    } else {
        q
    }
}

/// The name of a rule or folder at `p`: an identifier, or else the error
/// that the rule (or folder) is not named (or, at the end of the input, "expected any token"), after
/// which parsing goes on at the next `{` with an empty name. Gives the name,
/// the position after it and the errors that were recovered from.
pub open spec fn spec_definition_name(t: Seq<SpecToken>, p: int, is_rule: bool) -> (
    Seq<char>,
    int,
    Seq<ParserErrorModel>,
) {
    match tok_at(t, p) {
        Some(SpecToken::Ident(s)) => (s, p + 1, seq![]),
        Some(_) => (
            seq![],
            brace_pos(t, p),
            seq![
                if is_rule {
                    ParserErrorModel::RuleNotNamed(found_span(t, p))
                } else {
                    ParserErrorModel::FolderNotNamed(found_span(t, p))
                },
            ],
        ),
        None => (seq![], p, seq![expected_found(t, p, seq![ExpectedModel::Any])]),
    }
}

/// ```ebnf
/// rule          = 'rule', identifier, '{', { rule_pair }, '}' ;
/// ```
/// Gives the result and the errors recovered from on the way.
pub open spec fn spec_rule(t: Seq<SpecToken>, ls: Seq<Range<usize>>, p: int) -> (
    SpecResult<NodeModel<RuleModel>>,
    Seq<ParserErrorModel>,
) {
    if tok_at(t, p) != Some(SpecToken::KwRule) {
        (Err(expected_found(t, p, seq![exp(SpecToken::KwRule)])), seq![])
    } else {
        let (name, q, rec) = spec_definition_name(t, p + 1, true);
        if tok_at(t, q) != Some(SpecToken::LBrace) {
            (Err(expected_found(t, q, seq![exp(SpecToken::LBrace)])), rec)
        } else {
            match spec_rule_pairs(t, ls, q + 1) {
                Err(e) => (Err(e), rec),
                Ok((list, r)) => match check_rule_pairs(list, tspan(p + 1, r + 1)) {
                    Err(e) => (Err(e), rec),
                    Ok((m, a)) => (
                        Ok(
                            (
                                NodeModel {
                                    value: RuleModel { name, matcher: m, action: a },
                                    span: lexer_span(tspan(p, r + 1), ls),
                                },
                                r + 1,
                            ),
                        ),
                        rec,
                    ),
                },
            }
        }
    }
}

/// ```ebnf
/// folder        = 'folder', identifier, '{', 'name', ':', string, '}' ;
/// ```
/// Gives the result and the errors recovered from on the way.
pub open spec fn spec_folder(t: Seq<SpecToken>, ls: Seq<Range<usize>>, p: int) -> (
    SpecResult<NodeModel<FolderModel>>,
    Seq<ParserErrorModel>,
) {
    if tok_at(t, p) != Some(SpecToken::KwFolder) {
        (Err(expected_found(t, p, seq![exp(SpecToken::KwFolder)])), seq![])
    } else {
        let (identifier, q, rec) = spec_definition_name(t, p + 1, false);
        if tok_at(t, q) != Some(SpecToken::LBrace) {
            (Err(expected_found(t, q, seq![exp(SpecToken::LBrace)])), rec)
        } else if tok_at(t, q + 1) != Some(SpecToken::KwName) {
            (Err(expected_found(t, q + 1, seq![exp(SpecToken::KwName)])), rec)
        } else if tok_at(t, q + 2) != Some(SpecToken::Colon) {
            (Err(expected_found(t, q + 2, seq![exp(SpecToken::Colon)])), rec)
        } else {
            match tok_at(t, q + 3) {
                Some(SpecToken::Str(name)) => if tok_at(t, q + 4) == Some(SpecToken::RBrace) {
                    (
                        Ok(
                            (
                                NodeModel {
                                    value: FolderModel { identifier, name },
                                    span: lexer_span(tspan(p, q + 5), ls),
                                },
                                q + 5,
                            ),
                        ),
                        rec,
                    )
                } else {
                    (Err(ParserErrorModel::MissingClosingBrace(found_span(t, q + 4))), rec)
                },
                _ => (
                    Err(expected_found(t, q + 3, seq![exp(SpecToken::Str(Seq::empty()))])),
                    rec,
                ),
            }
        }
    }
}

/// The definitions from position `p` to the end of the input, and the errors
/// recovered from on the way.
pub open spec fn spec_definitions(t: Seq<SpecToken>, ls: Seq<Range<usize>>, p: int) -> (
    Result<Seq<DefinitionModel>, ParserErrorModel>,
    Seq<ParserErrorModel>,
)
    decreases t.len() - p,
{
    if p < 0 || p > t.len() {
        arbitrary()
    } else {
        match tok_at(t, p) {
            None => (Ok(seq![]), seq![]),
            Some(SpecToken::KwFolder) => {
                let (r, rec) = spec_folder(t, ls, p);
                match r {
                    Err(e) => (Err(e), rec),
                    Ok((f, q)) => if p < q <= t.len() {
                        let (rest, rec2) = spec_definitions(t, ls, q);
                        (
                            match rest {
                                Ok(ds) => Ok(seq![DefinitionModel::Folder(f)] + ds),
                                Err(e) => Err(e),
                            },
                            rec + rec2,
                        )
                    } else {
                        arbitrary()
                    },
                }
            },
            Some(SpecToken::KwRule) => {
                let (r, rec) = spec_rule(t, ls, p);
                match r {
                    Err(e) => (Err(e), rec),
                    Ok((f, q)) => if p < q <= t.len() {
                        let (rest, rec2) = spec_definitions(t, ls, q);
                        (
                            match rest {
                                Ok(ds) => Ok(seq![DefinitionModel::Rule(f)] + ds),
                                Err(e) => Err(e),
                            },
                            rec + rec2,
                        )
                    } else {
                        arbitrary()
                    },
                }
            },
            Some(_) => (Err(ParserErrorModel::TopLevelDefinition(found_span(t, p))), seq![]),
        }
    }
}

/// The folder definitions among `ds`, in order.
pub open spec fn folders_of(ds: Seq<DefinitionModel>) -> Seq<NodeModel<FolderModel>>
    decreases ds.len(),
{
    if ds.len() == 0 {
        seq![]
    } else {
        match ds.last() {
            DefinitionModel::Folder(f) => folders_of(ds.drop_last()).push(f),
            _ => folders_of(ds.drop_last()),
        }
    }
}

/// The rule definitions among `ds`, in order.
pub open spec fn rules_of(ds: Seq<DefinitionModel>) -> Seq<NodeModel<RuleModel>>
    decreases ds.len(),
{
    if ds.len() == 0 {
        seq![]
    } else {
        match ds.last() {
            DefinitionModel::Rule(r) => rules_of(ds.drop_last()).push(r),
            _ => rules_of(ds.drop_last()),
        }
    }
}

/// ```ebnf
/// config        = { rule | folder } ;
/// ```
/// The parsed file (if it parses) and the errors found: those recovered from,
/// then the one that stopped the parse.
pub open spec fn spec_config(t: Seq<SpecToken>, ls: Seq<Range<usize>>) -> (
    Option<ConfigModel>,
    Seq<ParserErrorModel>,
) {
    let (r, rec) = spec_definitions(t, ls, 0);
    match r {
        Ok(ds) => (Some(ConfigModel { folders: folders_of(ds), rules: rules_of(ds) }), rec),
        Err(e) => (None, rec.push(e)),
    }
}

// ---------------------------------------------------------------------------
// The parser
// ---------------------------------------------------------------------------

/// The mathematical value of an executable parse result.
pub open spec fn result_view<T: View>(r: Result<(T, usize), ParserError>) -> SpecResult<T::V> {
    match r {
        Ok((v, q)) => Ok((v@, q as int)),
        Err(e) => Err(e@),
    }
}

pub open spec fn expected_view(v: Seq<Expected>) -> Seq<ExpectedModel> {
    v.map_values(|x: Expected| x@)
}

impl ParserError {
    /// `new_err` if `self` is [`ParserError::ExpectedFound`], else `self`.
    pub fn replace_if_expected_found(self, new_err: Self) -> (r: Self)
        ensures
            r@ == replace_if_expected_found(self@, new_err@),
    {
        match self {
            ParserError::ExpectedFound { .. } => new_err,
            _ => self,
        }
    }

    /// The span of the error; for two errors, the span covering both.
    pub fn span(&self) -> (s: TokenSpan)
        ensures
            s == error_span(self@),
        decreases self,
    {
        match self {
            ParserError::ExpectedStringAfterStringMatcher(span) => *span,
            ParserError::ExpectedStringMatcherKeyword(span) => *span,
            ParserError::ExpectedStringMatcherAfterKeyword(span) => *span,
            ParserError::MatchListAfterLogicalOperator(span) => *span,
            ParserError::ExpectedFound { span, .. } => *span,
            ParserError::IdentifierMoveTo(span) => *span,
            ParserError::InvalidAction(span) => *span,
            ParserError::ArgumentsFollowAction(span) => *span,
            ParserError::NoMatcherInRule(span) => *span,
            ParserError::NoActionInRule(span) => *span,
            ParserError::DuplicateMatcherInRule(s1, s2) => s1.union(*s2),
            ParserError::DuplicateActionInRule(s1, s2) => s1.union(*s2),
            ParserError::RuleNotNamed(span) => *span,
            ParserError::FolderNotNamed(span) => *span,
            ParserError::CombinedError(e1, e2) => e1.span().union(e2.span()),
            ParserError::MissingClosingBrace(span) => *span,
            ParserError::TopLevelDefinition(span) => *span,
        }
    }
}

fn found_span_exec(tokens: &Vec<Token>, p: usize) -> (s: TokenSpan)
    requires
        p <= tokens@.len(),
    ensures
        s == found_span(tokens_view(tokens@), p as int),
{
    TokenSpan {
        start: p,
        end: if p < tokens.len() {
            p + 1
        } else {
            p
        },
    }
}

fn expected_found_exec(tokens: &Vec<Token>, p: usize, expected: Vec<Expected>) -> (e: ParserError)
    requires
        p <= tokens@.len(),
    ensures
        e@ == expected_found(tokens_view(tokens@), p as int, expected_view(expected@)),
{
    let found = if p < tokens.len() {
        Some(tokens[p].clone())
    } else {
        None
    };
    ParserError::ExpectedFound { span: found_span_exec(tokens, p), expected, found }
}

fn string_matcher_keywords_exec() -> (v: Vec<Expected>)
    ensures
        expected_view(v@) == string_matcher_keywords(),
{
    let v = vec![
        Expected::Token(Token::KwContains),
        Expected::Token(Token::KwStartsWith),
        Expected::Token(Token::KwEquals),
        Expected::Token(Token::KwRegex),
    ];
    assert(expected_view(v@) =~= string_matcher_keywords());
    v
}

fn msg_matcher_starts_exec() -> (v: Vec<Expected>)
    ensures
        expected_view(v@) == msg_matcher_starts(),
{
    let v = vec![
        Expected::Token(Token::KwSubject),
        Expected::Token(Token::KwFrom),
        Expected::Token(Token::KwTo),
        Expected::Token(Token::KwBody),
        Expected::Token(Token::LParen),
    ];
    assert(expected_view(v@) =~= msg_matcher_starts());
    v
}

fn matcher_starts_exec() -> (v: Vec<Expected>)
    ensures
        expected_view(v@) == matcher_starts(),
{
    let v = vec![
        Expected::Token(Token::KwAnd),
        Expected::Token(Token::KwOr),
        Expected::Token(Token::KwNot),
        Expected::Token(Token::KwSubject),
        Expected::Token(Token::KwFrom),
        Expected::Token(Token::KwTo),
        Expected::Token(Token::KwBody),
        Expected::Token(Token::LParen),
    ];
    assert(expected_view(v@) =~= matcher_starts());
    v
}

fn one_expected(t: Token) -> (v: Vec<Expected>)
    ensures
        expected_view(v@) == seq![exp(t@)],
{
    let v = vec![Expected::Token(t)];
    assert(expected_view(v@) =~= seq![exp(t@)]);
    v
}

fn parse_string_matcher(tokens: &Vec<Token>, ls: &Vec<Range<usize>>, p: usize) -> (r: Result<
    (Node<ParserStringMatcher>, usize),
    ParserError,
>)
    requires
        p <= tokens@.len(),
    ensures
        result_view(r) == spec_string_matcher(tokens_view(tokens@), ls@, p as int),
        r matches Ok((_, q)) ==> p < q <= tokens@.len(),
{
    let ghost t = tokens_view(tokens@);
    let n = tokens.len();
    if p < n {
        let kind: u8 = match &tokens[p] {
            Token::KwContains => 0,
            Token::KwStartsWith => 1,
            Token::KwEquals => 2,
            Token::KwRegex => 3,
            _ => 4,
        };
        if kind < 4 {
            if p + 1 < n {
                match &tokens[p + 1] {
                    Token::Str(s) => {
                        let s = s.clone();
                        let value = if kind == 0 {
                            ParserStringMatcher::Contains(s)
                        } else if kind == 1 {
                            ParserStringMatcher::StartsWith(s)
                        } else if kind == 2 {
                            ParserStringMatcher::Equals(s)
                        } else {
                            ParserStringMatcher::Regex(s)
                        };
                        let span = span_to_lexer_span(TokenSpan { start: p, end: p + 2 }, ls);
                        return Ok((Node { value, span }, p + 2));
                    },
                    _ => {
                        return Err(
                            ParserError::ExpectedStringAfterStringMatcher(
                                TokenSpan { start: p + 1, end: p + 2 },
                            ),
                        );
                    },
                }
            } else {
                let any = vec![Expected::Any];
                assert(expected_view(any@) =~= seq![ExpectedModel::Any]);
                return Err(expected_found_exec(tokens, p + 1, any));
            }
        }
    }
    Err(expected_found_exec(tokens, p, string_matcher_keywords_exec()))
}

fn parse_matcher(tokens: &Vec<Token>, ls: &Vec<Range<usize>>, p: usize) -> (r: Result<
    (Node<ParserMatcher>, usize),
    ParserError,
>)
    requires
        p <= tokens@.len(),
    ensures
        result_view(r) == spec_matcher(tokens_view(tokens@), ls@, p as int),
        r matches Ok((_, q)) ==> p < q <= tokens@.len(),
    decreases tokens@.len() - p, 3int,
{
    let n = tokens.len();
    if p >= n {
        return Err(expected_found_exec(tokens, p, matcher_starts_exec()));
    }
    let kind: u8 = match &tokens[p] {
        Token::KwAnd => 0,
        Token::KwOr => 1,
        Token::KwNot => 2,
        Token::KwSubject => 3,
        Token::KwFrom => 3,
        Token::KwTo => 3,
        Token::KwBody => 3,
        Token::LParen => 3,
        _ => 4,
    };
    if kind <= 1 {
        match parse_match_list(tokens, ls, p + 1) {
            Ok((l, q)) => {
                let span = span_to_lexer_span(TokenSpan { start: p, end: q }, ls);
                let value = if kind == 0 {
                    ParserMatcher::And(l)
                } else {
                    ParserMatcher::Or(l)
                };
                Ok((Node { value, span }, q))
            },
            Err(e) => {
                let sp = e.span().union(TokenSpan { start: p, end: p });
                Err(e.replace_if_expected_found(ParserError::MatchListAfterLogicalOperator(sp)))
            },
        }
    } else if kind == 2 {
        match parse_msg_matcher(tokens, ls, p + 1) {
            Ok((m, q)) => {
                let span = span_to_lexer_span(TokenSpan { start: p, end: q }, ls);
                Ok((Node { value: ParserMatcher::Not(Box::new(m)), span }, q))
            },
            Err(e) => Err(e),
        }
    } else if kind == 3 {
        parse_msg_matcher(tokens, ls, p)
    } else {
        Err(expected_found_exec(tokens, p, matcher_starts_exec()))
    }
}

fn parse_msg_matcher(tokens: &Vec<Token>, ls: &Vec<Range<usize>>, p: usize) -> (r: Result<
    (Node<ParserMatcher>, usize),
    ParserError,
>)
    requires
        p <= tokens@.len(),
    ensures
        result_view(r) == spec_msg_matcher(tokens_view(tokens@), ls@, p as int),
        r matches Ok((_, q)) ==> p < q <= tokens@.len(),
    decreases tokens@.len() - p, 2int,
{
    let n = tokens.len();
    if p >= n {
        return Err(expected_found_exec(tokens, p, msg_matcher_starts_exec()));
    }
    let kind: u8 = match &tokens[p] {
        Token::KwSubject => 0,
        Token::KwFrom => 1,
        Token::KwTo => 2,
        Token::KwBody => 3,
        Token::LParen => 4,
        _ => 5,
    };
    if kind <= 3 {
        match parse_string_matcher(tokens, ls, p + 1) {
            Ok((sm, q)) => {
                let span = span_to_lexer_span(TokenSpan { start: p, end: q }, ls);
                let value = if kind == 0 {
                    ParserMatcher::Subject(sm)
                } else if kind == 1 {
                    ParserMatcher::From(sm)
                } else if kind == 2 {
                    ParserMatcher::To(sm)
                } else {
                    ParserMatcher::Body(sm)
                };
                Ok((Node { value, span }, q))
            },
            Err(e) => {
                let sp = e.span().union(TokenSpan { start: p, end: p });
                Err(e.replace_if_expected_found(ParserError::ExpectedStringMatcherAfterKeyword(sp)))
            },
        }
    } else if kind == 4 {
        match parse_matcher(tokens, ls, p + 1) {
            Ok((m, q)) => {
                if q < n && matches!(tokens[q], Token::RParen) {
                    Ok((m, q + 1))
                } else {
                    Err(expected_found_exec(tokens, q, one_expected(Token::RParen)))
                }
            },
            Err(e) => Err(e),
        }
    } else {
        Err(expected_found_exec(tokens, p, msg_matcher_starts_exec()))
    }
}

fn parse_match_list(tokens: &Vec<Token>, ls: &Vec<Range<usize>>, p: usize) -> (r: Result<
    (Node<ParserMatchList>, usize),
    ParserError,
>)
    requires
        p <= tokens@.len(),
    ensures
        result_view(r) == spec_match_list(tokens_view(tokens@), ls@, p as int),
        r matches Ok((_, q)) ==> p < q <= tokens@.len(),
    decreases tokens@.len() - p, 5int,
{
    let n = tokens.len();
    if p < n && matches!(tokens[p], Token::LBracket) {
        match parse_match_items(tokens, ls, p + 1) {
            Ok((list, q)) => {
                let span = span_to_lexer_span(TokenSpan { start: p, end: q + 1 }, ls);
                let ghost lv = list@;
                let node = Node { value: ParserMatchList { list }, span };
                assert(match_list_view(node.value) =~= matcher_nodes_view(lv));
                Ok((node, q + 1))
            },
            Err(e) => Err(e),
        }
    } else {
        Err(expected_found_exec(tokens, p, one_expected(Token::LBracket)))
    }
}

pub open spec fn matcher_nodes_view(v: Seq<Node<ParserMatcher>>) -> Seq<NodeModel<MatcherModel>> {
    v.map_values(|n: Node<ParserMatcher>| n@)
}

/// The matchers of a match list; on success, the position of its closing
/// bracket.
fn parse_match_items(tokens: &Vec<Token>, ls: &Vec<Range<usize>>, p0: usize) -> (r: Result<
    (Vec<Node<ParserMatcher>>, usize),
    ParserError,
>)
    requires
        p0 <= tokens@.len(),
    ensures
        match (r, spec_match_items(tokens_view(tokens@), ls@, p0 as int)) {
            (Ok((v, q)), Ok((vs, qs))) => matcher_nodes_view(v@) == vs && q == qs && p0 <= q
                < tokens@.len(),
            (Err(e), Err(es)) => e@ == es,
            _ => false,
        },
    decreases tokens@.len() - p0, 4int,
{
    let ghost t = tokens_view(tokens@);
    let n = tokens.len();
    let mut acc: Vec<Node<ParserMatcher>> = Vec::new();
    let mut p = p0;
    loop
        invariant
            t == tokens_view(tokens@),
            n == tokens@.len(),
            p0 <= p <= n,
            match spec_match_items(t, ls@, p as int) {
                Ok((rest, r)) => spec_match_items(t, ls@, p0 as int) == Ok::<
                    (Seq<NodeModel<MatcherModel>>, int),
                    ParserErrorModel,
                >((matcher_nodes_view(acc@) + rest, r)),
                Err(e) => spec_match_items(t, ls@, p0 as int) == Err::<
                    (Seq<NodeModel<MatcherModel>>, int),
                    ParserErrorModel,
                >(e),
            },
        decreases n - p,
    {
        if p >= n {
            let mut ex = matcher_starts_exec();
            ex.push(Expected::Token(Token::RBracket));
            assert(expected_view(ex@) =~= matcher_starts().push(exp(SpecToken::RBracket)));
            return Err(expected_found_exec(tokens, p, ex));
        }
        if matches!(tokens[p], Token::RBracket) {
            assert(acc@ + seq![] =~= acc@) by {
                assert(matcher_nodes_view(acc@) + seq![] =~= matcher_nodes_view(acc@));
            }
            return Ok((acc, p));
        }
        match parse_matcher(tokens, ls, p) {
            Err(e) => {
                return Err(e);
            },
            Ok((m, q)) => {
                let ghost old_acc = acc@;
                let ghost mv = m@;
                acc.push(m);
                proof {
                    assert(matcher_nodes_view(acc@) =~= matcher_nodes_view(old_acc).push(mv));
                    match spec_match_items(t, ls@, q as int) {
                        Ok((rest, r)) => {
                            assert(matcher_nodes_view(old_acc) + (seq![mv] + rest) =~= matcher_nodes_view(
                                acc@,
                            ) + rest);
                        },
                        Err(e) => {},
                    }
                }
                p = q;
            },
        }
    }
}

fn parse_action_args(tokens: &Vec<Token>, ls: &Vec<Range<usize>>, p: usize) -> (r: Result<
    (Node<ParserIdentifier>, usize),
    ParserError,
>)
    requires
        p <= tokens@.len(),
    ensures
        result_view(r) == spec_action_args(tokens_view(tokens@), ls@, p as int),
        r matches Ok((_, q)) ==> p < q <= tokens@.len(),
{
    let n = tokens.len();
    let here = TokenSpan { start: p, end: p };
    if !(p < n && matches!(tokens[p], Token::LBracket)) {
        return Err(ParserError::ArgumentsFollowAction(found_span_exec(tokens, p).union(here)));
    }
    if p + 1 >= n {
        return Err(ParserError::ArgumentsFollowAction(found_span_exec(tokens, p + 1).union(here)));
    }
    if !(p + 2 < n && matches!(tokens[p + 2], Token::RBracket)) {
        return Err(ParserError::ArgumentsFollowAction(found_span_exec(tokens, p + 2).union(here)));
    }
    match &tokens[p + 1] {
        Token::Ident(id) => {
            let span = span_to_lexer_span(TokenSpan { start: p, end: p + 3 }, ls);
            Ok((Node { value: ParserIdentifier { identifier: id.clone() }, span }, p + 3))
        },
        _ => Err(ParserError::IdentifierMoveTo(TokenSpan { start: p, end: p + 3 })),
    }
}

fn parse_action(tokens: &Vec<Token>, ls: &Vec<Range<usize>>, p: usize) -> (r: Result<
    (Node<ParserAction>, usize),
    ParserError,
>)
    requires
        p <= tokens@.len(),
    ensures
        result_view(r) == spec_action(tokens_view(tokens@), ls@, p as int),
        r matches Ok((_, q)) ==> p < q <= tokens@.len(),
{
    let n = tokens.len();
    if p < n && matches!(tokens[p], Token::KwDelete) {
        let span = span_to_lexer_span(TokenSpan { start: p, end: p + 1 }, ls);
        Ok((Node { value: ParserAction::Delete, span }, p + 1))
    } else if p < n && matches!(tokens[p], Token::KwMoveTo) {
        match parse_action_args(tokens, ls, p + 1) {
            Ok((id, q)) => {
                let span = span_to_lexer_span(TokenSpan { start: p, end: q }, ls);
                Ok((Node { value: ParserAction::MoveTo(id), span }, q))
            },
            Err(e) => Err(e),
        }
    } else {
        Err(ParserError::InvalidAction(TokenSpan { start: p, end: p }.union(found_span_exec(tokens, p))))
    }
}

fn parse_rule_pair(tokens: &Vec<Token>, ls: &Vec<Range<usize>>, p: usize) -> (r: Result<
    (Node<(ParserRuleValue, TokenSpan)>, usize),
    ParserError,
>)
    requires
        p <= tokens@.len(),
    ensures
        result_view(r) == spec_rule_pair(tokens_view(tokens@), ls@, p as int),
        r matches Ok((_, q)) ==> p < q <= tokens@.len(),
{
    let n = tokens.len();
    let is_matcher = p < n && matches!(tokens[p], Token::KwMatcher);
    let is_action = p < n && matches!(tokens[p], Token::KwAction);
    if !is_matcher && !is_action {
        let ex = vec![Expected::Token(Token::KwMatcher), Expected::Token(Token::KwAction)];
        assert(expected_view(ex@) =~= seq![exp(SpecToken::KwMatcher), exp(SpecToken::KwAction)]);
        return Err(expected_found_exec(tokens, p, ex));
    }
    if !(p + 1 < n && matches!(tokens[p + 1], Token::Colon)) {
        return Err(expected_found_exec(tokens, p + 1, one_expected(Token::Colon)));
    }
    let kwspan = TokenSpan { start: p, end: p + 2 };
    if is_matcher {
        match parse_matcher(tokens, ls, p + 2) {
            Ok((m, q)) => {
                let span = span_to_lexer_span(TokenSpan { start: p, end: q }, ls);
                Ok((Node { value: (ParserRuleValue::Matcher(m), kwspan), span }, q))
            },
            Err(e) => Err(e),
        }
    } else {
        match parse_action(tokens, ls, p + 2) {
            Ok((a, q)) => {
                let span = span_to_lexer_span(TokenSpan { start: p, end: q }, ls);
                Ok((Node { value: (ParserRuleValue::Action(a), kwspan), span }, q))
            },
            Err(e) => Err(e),
        }
    }
}

pub open spec fn pairs_view(v: Seq<Node<(ParserRuleValue, TokenSpan)>>) -> Seq<
    NodeModel<(RuleValueModel, TokenSpan)>,
> {
    v.map_values(|n: Node<(ParserRuleValue, TokenSpan)>| n@)
}

/// The pairs of a rule body; on success, the position of its closing brace.
fn parse_rule_pairs(tokens: &Vec<Token>, ls: &Vec<Range<usize>>, p0: usize) -> (r: Result<
    (Vec<Node<(ParserRuleValue, TokenSpan)>>, usize),
    ParserError,
>)
    requires
        p0 <= tokens@.len(),
    ensures
        match (r, spec_rule_pairs(tokens_view(tokens@), ls@, p0 as int)) {
            (Ok((v, q)), Ok((vs, qs))) => pairs_view(v@) == vs && q == qs && p0 <= q
                < tokens@.len(),
            (Err(e), Err(es)) => e@ == es,
            _ => false,
        },
{
    let ghost t = tokens_view(tokens@);
    let n = tokens.len();
    let mut acc: Vec<Node<(ParserRuleValue, TokenSpan)>> = Vec::new();
    let mut p = p0;
    loop
        invariant
            t == tokens_view(tokens@),
            n == tokens@.len(),
            p0 <= p <= n,
            match spec_rule_pairs(t, ls@, p as int) {
                Ok((rest, r)) => spec_rule_pairs(t, ls@, p0 as int) == Ok::<
                    (Seq<NodeModel<(RuleValueModel, TokenSpan)>>, int),
                    ParserErrorModel,
                >((pairs_view(acc@) + rest, r)),
                Err(e) => spec_rule_pairs(t, ls@, p0 as int) == Err::<
                    (Seq<NodeModel<(RuleValueModel, TokenSpan)>>, int),
                    ParserErrorModel,
                >(e),
            },
        decreases n - p,
    {
        if p < n && matches!(tokens[p], Token::RBrace) {
            assert(pairs_view(acc@) + seq![] =~= pairs_view(acc@));
            return Ok((acc, p));
        }
        if !(p < n && (matches!(tokens[p], Token::KwMatcher) || matches!(tokens[p], Token::KwAction))) {
            return Err(ParserError::MissingClosingBrace(found_span_exec(tokens, p)));
        }
        match parse_rule_pair(tokens, ls, p) {
            Err(e) => {
                return Err(e);
            },
            Ok((m, q)) => {
                let ghost old_acc = acc@;
                let ghost mv = m@;
                acc.push(m);
                proof {
                    assert(pairs_view(acc@) =~= pairs_view(old_acc).push(mv));
                    match spec_rule_pairs(t, ls@, q as int) {
                        Ok((rest, r)) => {
                            assert(pairs_view(old_acc) + (seq![mv] + rest) =~= pairs_view(acc@)
                                + rest);
                        },
                        Err(e) => {},
                    }
                }
                p = q;
            },
        }
    }
}

fn check_rule_pairs_exec(list: Vec<Node<(ParserRuleValue, TokenSpan)>>, span: TokenSpan) -> (r:
    Result<(Node<ParserMatcher>, Node<ParserAction>), ParserError>)
    ensures
        match (r, check_rule_pairs(pairs_view(list@), span)) {
            (Ok((m, a)), Ok((ms, acts))) => m@ == ms && a@ == acts,
            (Err(e), Err(es)) => e@ == es,
            _ => false,
        },
{
    let ghost full = pairs_view(list@);
    let total = list.len();
    let mut rest = list;
    let mut m_count: usize = 0;
    let mut first_m: Option<Node<ParserMatcher>> = None;
    let mut m_span0 = TokenSpan { start: 0, end: 0 };
    let mut m_span1 = TokenSpan { start: 0, end: 0 };
    let mut a_count: usize = 0;
    let mut first_a: Option<Node<ParserAction>> = None;
    let mut a_span0 = TokenSpan { start: 0, end: 0 };
    let mut a_span1 = TokenSpan { start: 0, end: 0 };
    let ghost mut m_suffix: Seq<(NodeModel<MatcherModel>, TokenSpan)> = seq![];
    let ghost mut a_suffix: Seq<(NodeModel<ActionModel>, TokenSpan)> = seq![];
    assert(pairs_view(rest@) == full);
    while rest.len() > 0
        invariant
            rule_matchers(full) == rule_matchers(pairs_view(rest@)) + m_suffix,
            rule_actions(full) == rule_actions(pairs_view(rest@)) + a_suffix,
            m_count == m_suffix.len(),
            a_count == a_suffix.len(),
            m_count + a_count + rest@.len() <= total,
            m_count > 0 ==> (first_m matches Some(m) && m@ == m_suffix[0].0 && m_span0
                == m_suffix[0].1),
            m_count > 1 ==> m_span1 == m_suffix[1].1,
            a_count > 0 ==> (first_a matches Some(a) && a@ == a_suffix[0].0 && a_span0
                == a_suffix[0].1),
            a_count > 1 ==> a_span1 == a_suffix[1].1,
        decreases rest@.len(),
    {
        let ghost before = pairs_view(rest@);
        let node = rest.pop().unwrap();
        assert(pairs_view(rest@) =~= before.drop_last());
        let Node { value: (val, kwspan), span: _ } = node;
        match val {
            ParserRuleValue::Matcher(m) => {
                proof {
                    assert(rule_matchers(before) == rule_matchers(before.drop_last()).push(
                        (m@, kwspan),
                    ));
                    assert(rule_actions(before) == rule_actions(before.drop_last()));
                    let new_suffix = seq![(m@, kwspan)] + m_suffix;
                    assert(rule_matchers(before.drop_last()).push((m@, kwspan)) + m_suffix
                        =~= rule_matchers(before.drop_last()) + new_suffix);
                    m_suffix = new_suffix;
                }
                m_span1 = m_span0;
                m_span0 = kwspan;
                first_m = Some(m);
                m_count = m_count + 1;
            },
            ParserRuleValue::Action(a) => {
                proof {
                    assert(rule_actions(before) == rule_actions(before.drop_last()).push(
                        (a@, kwspan),
                    ));
                    assert(rule_matchers(before) == rule_matchers(before.drop_last()));
                    let new_suffix = seq![(a@, kwspan)] + a_suffix;
                    assert(rule_actions(before.drop_last()).push((a@, kwspan)) + a_suffix
                        =~= rule_actions(before.drop_last()) + new_suffix);
                    a_suffix = new_suffix;
                }
                a_span1 = a_span0;
                a_span0 = kwspan;
                first_a = Some(a);
                a_count = a_count + 1;
            },
        }
    }
    assert(rule_matchers(pairs_view(rest@)) =~= seq![]);
    assert(rule_actions(pairs_view(rest@)) =~= seq![]);
    assert(rule_matchers(full) =~= m_suffix);
    assert(rule_actions(full) =~= a_suffix);
    if m_count == 0 {
        return Err(ParserError::NoMatcherInRule(span));
    }
    if a_count == 0 {
        return Err(ParserError::NoActionInRule(span));
    }
    if m_count > 1 && a_count > 1 {
        let d1 = ParserError::DuplicateMatcherInRule(m_span0, m_span1);
        let d2 = ParserError::DuplicateActionInRule(a_span0, a_span1);
        let e = ParserError::CombinedError(Box::new(d1), Box::new(d2));
        proof {
            reveal_with_fuel(error_view, 2);
        }
        assert(e@ == ParserErrorModel::CombinedError(
            Box::new(ParserErrorModel::DuplicateMatcherInRule(m_span0, m_span1)),
            Box::new(ParserErrorModel::DuplicateActionInRule(a_span0, a_span1)),
        ));
        return Err(e);
    }
    if m_count > 1 {
        return Err(ParserError::DuplicateMatcherInRule(m_span0, m_span1));
    }
    if a_count > 1 {
        return Err(ParserError::DuplicateActionInRule(a_span0, a_span1));
    }
    match (first_m, first_a) {
        (Some(m), Some(a)) => Ok((m, a)),
        _ => {
            assert(false);
            Err(ParserError::NoMatcherInRule(span))
        },
    }
}

pub open spec fn errors_view(v: Seq<ParserError>) -> Seq<ParserErrorModel> {
    v.map_values(|e: ParserError| e@)
}

fn brace_pos_exec(tokens: &Vec<Token>, q0: usize) -> (q: usize)
    requires
        q0 <= tokens@.len(),
    ensures
        q == brace_pos(tokens_view(tokens@), q0 as int),
        q0 <= q <= tokens@.len(),
{
    let ghost t = tokens_view(tokens@);
    let mut q = q0;
    while q < tokens.len() && !matches!(tokens[q], Token::LBrace)
        invariant
            t == tokens_view(tokens@),
            q0 <= q <= tokens@.len(),
            brace_pos(t, q as int) == brace_pos(t, q0 as int),
        decreases tokens@.len() - q,
    {
        q = q + 1;
    }
    q
}

fn parse_definition_name(tokens: &Vec<Token>, p: usize, is_rule: bool) -> (r: (
    String,
    usize,
    Vec<ParserError>,
))
    requires
        p <= tokens@.len(),
    ensures
        ({
            let (name, q, rec) = spec_definition_name(tokens_view(tokens@), p as int, is_rule);
            &&& r.0@ == name
            &&& r.1 == q
            &&& errors_view(r.2@) == rec
            &&& p <= r.1 <= tokens@.len()
        }),
{
    let mut rec: Vec<ParserError> = Vec::new();
    if p < tokens.len() {
        match &tokens[p] {
            Token::Ident(s) => {
                assert(errors_view(rec@) =~= seq![]);
                return (s.clone(), p + 1, rec);
            },
            _ => {
                let sp = found_span_exec(tokens, p);
                let not_named = if is_rule {
                    ParserError::RuleNotNamed(sp)
                } else {
                    ParserError::FolderNotNamed(sp)
                };
                let ghost nv = not_named@;
                rec.push(not_named);
                assert(errors_view(rec@) =~= seq![nv]);
                return (String::new(), brace_pos_exec(tokens, p), rec);
            },
        }
    }
    let any = vec![Expected::Any];
    assert(expected_view(any@) =~= seq![ExpectedModel::Any]);
    let e = expected_found_exec(tokens, p, any);
    let ghost ev = e@;
    rec.push(e);
    assert(errors_view(rec@) =~= seq![ev]);
    (String::new(), p, rec)
}

fn parse_rule(tokens: &Vec<Token>, ls: &Vec<Range<usize>>, p: usize) -> (r: (
    Result<(Node<ParserRule>, usize), ParserError>,
    Vec<ParserError>,
))
    requires
        p <= tokens@.len(),
    ensures
        result_view(r.0) == spec_rule(tokens_view(tokens@), ls@, p as int).0,
        errors_view(r.1@) == spec_rule(tokens_view(tokens@), ls@, p as int).1,
        r.0 matches Ok((_, q)) ==> p < q <= tokens@.len(),
{
    let n = tokens.len();
    if !(p < n && matches!(tokens[p], Token::KwRule)) {
        let rec: Vec<ParserError> = Vec::new();
        assert(errors_view(rec@) =~= seq![]);
        return (Err(expected_found_exec(tokens, p, one_expected(Token::KwRule))), rec);
    }
    let (name, q, rec) = parse_definition_name(tokens, p + 1, true);
    if !(q < n && matches!(tokens[q], Token::LBrace)) {
        return (Err(expected_found_exec(tokens, q, one_expected(Token::LBrace))), rec);
    }
    match parse_rule_pairs(tokens, ls, q + 1) {
        Err(e) => (Err(e), rec),
        Ok((list, r)) => match check_rule_pairs_exec(list, TokenSpan { start: p + 1, end: r + 1 }) {
            Err(e) => (Err(e), rec),
            Ok((matcher, action)) => {
                let span = span_to_lexer_span(TokenSpan { start: p, end: r + 1 }, ls);
                (Ok((Node { value: ParserRule { name, matcher, action }, span }, r + 1)), rec)
            },
        },
    }
}

fn parse_folder(tokens: &Vec<Token>, ls: &Vec<Range<usize>>, p: usize) -> (r: (
    Result<(Node<ParserFolder>, usize), ParserError>,
    Vec<ParserError>,
))
    requires
        p <= tokens@.len(),
    ensures
        result_view(r.0) == spec_folder(tokens_view(tokens@), ls@, p as int).0,
        errors_view(r.1@) == spec_folder(tokens_view(tokens@), ls@, p as int).1,
        r.0 matches Ok((_, q)) ==> p < q <= tokens@.len(),
{
    let n = tokens.len();
    if !(p < n && matches!(tokens[p], Token::KwFolder)) {
        let rec: Vec<ParserError> = Vec::new();
        assert(errors_view(rec@) =~= seq![]);
        return (Err(expected_found_exec(tokens, p, one_expected(Token::KwFolder))), rec);
    }
    let (identifier, q, rec) = parse_definition_name(tokens, p + 1, false);
    if !(q < n && matches!(tokens[q], Token::LBrace)) {
        return (Err(expected_found_exec(tokens, q, one_expected(Token::LBrace))), rec);
    }
    if !(q + 1 < n && matches!(tokens[q + 1], Token::KwName)) {
        return (Err(expected_found_exec(tokens, q + 1, one_expected(Token::KwName))), rec);
    }
    if !(q + 2 < n && matches!(tokens[q + 2], Token::Colon)) {
        return (Err(expected_found_exec(tokens, q + 2, one_expected(Token::Colon))), rec);
    }
    if q + 3 < n {
        match &tokens[q + 3] {
            Token::Str(name) => {
                if q + 4 < n && matches!(tokens[q + 4], Token::RBrace) {
                    let span = span_to_lexer_span(TokenSpan { start: p, end: q + 5 }, ls);
                    let folder = ParserFolder { identifier, name: name.clone() };
                    return (Ok((Node { value: folder, span }, q + 5)), rec);
                } else {
                    return (
                        Err(ParserError::MissingClosingBrace(found_span_exec(tokens, q + 4))),
                        rec,
                    );
                }
            },
            _ => {},
        }
    }
    let ex = one_expected(Token::Str(String::new()));
    (Err(expected_found_exec(tokens, q + 3, ex)), rec)
}

pub open spec fn folder_nodes_view(v: Seq<Node<ParserFolder>>) -> Seq<NodeModel<FolderModel>> {
    v.map_values(|n: Node<ParserFolder>| n@)
}

pub open spec fn rule_nodes_view(v: Seq<Node<ParserRule>>) -> Seq<NodeModel<RuleModel>> {
    v.map_values(|n: Node<ParserRule>| n@)
}

/// Moving past one more definition `d` of the file keeps the account that
/// the definitions parsed so far, with the rest, make up the whole file.
proof fn lemma_definitions_advance(
    t: Seq<SpecToken>,
    ls: Seq<Range<usize>>,
    p: int,
    q: int,
    done: Seq<DefinitionModel>,
    d: DefinitionModel,
    before: Seq<ParserErrorModel>,
    step: Seq<ParserErrorModel>,
)
    requires
        ({
            let (r0, rec0) = spec_definitions(t, ls, 0);
            let (rp, recp) = spec_definitions(t, ls, p);
            &&& rec0 == before + recp
            &&& r0 == match rp {
                Ok(ds) => Ok(done + ds),
                Err(e) => Err::<Seq<DefinitionModel>, ParserErrorModel>(e),
            }
        }),
        ({
            let (rp, recp) = spec_definitions(t, ls, p);
            let (rq, recq) = spec_definitions(t, ls, q);
            &&& recp == step + recq
            &&& rp == match rq {
                Ok(ds) => Ok(seq![d] + ds),
                Err(e) => Err::<Seq<DefinitionModel>, ParserErrorModel>(e),
            }
        }),
    ensures
        ({
            let (r0, rec0) = spec_definitions(t, ls, 0);
            let (rq, recq) = spec_definitions(t, ls, q);
            &&& rec0 == (before + step) + recq
            &&& r0 == match rq {
                Ok(ds) => Ok(done.push(d) + ds),
                Err(e) => Err::<Seq<DefinitionModel>, ParserErrorModel>(e),
            }
        }),
{
    let (rq, recq) = spec_definitions(t, ls, q);
    assert(before + (step + recq) =~= (before + step) + recq);
    match rq {
        Ok(ds) => {
            assert(done + (seq![d] + ds) =~= done.push(d) + ds);
        },
        Err(_) => {},
    }
}

/// Parses the definitions of a whole file: the parsed file, if it parses,
/// and the errors recovered from along the way.
#[verifier::rlimit(60)]
fn parse_definitions(tokens: &Vec<Token>, ls: &Vec<Range<usize>>) -> (r: (
    Result<ParserConfig, ParserError>,
    Vec<ParserError>,
))
    ensures
        ({
            let (sr, srec) = spec_definitions(tokens_view(tokens@), ls@, 0);
            &&& errors_view(r.1@) == srec
            &&& match (r.0, sr) {
                (Ok(c), Ok(ds)) => c@ == ConfigModel {
                    folders: folders_of(ds),
                    rules: rules_of(ds),
                },
                (Err(e), Err(es)) => e@ == es,
                _ => false,
            }
        }),
{
    let ghost t = tokens_view(tokens@);
    let n = tokens.len();
    let mut folders: Vec<Node<ParserFolder>> = Vec::new();
    let mut rules: Vec<Node<ParserRule>> = Vec::new();
    let mut rec: Vec<ParserError> = Vec::new();
    let ghost mut done: Seq<DefinitionModel> = seq![];
    let mut p: usize = 0;
    loop
        invariant
            t == tokens_view(tokens@),
            n == tokens@.len(),
            p <= n,
            folder_nodes_view(folders@) == folders_of(done),
            rule_nodes_view(rules@) == rules_of(done),
            ({
                let (r0, rec0) = spec_definitions(t, ls@, 0);
                let (rp, recp) = spec_definitions(t, ls@, p as int);
                &&& rec0 == errors_view(rec@) + recp
                &&& r0 == match rp {
                    Ok(ds) => Ok(done + ds),
                    Err(e) => Err::<Seq<DefinitionModel>, ParserErrorModel>(e),
                }
            }),
        decreases n - p,
    {
        let ghost old_rec = rec@;
        if p >= n {
            proof {
                assert(errors_view(rec@) + seq![] =~= errors_view(rec@));
                assert(done + seq![] =~= done);
            }
            return (Ok(ParserConfig { folder_definitions: folders, rule_definitions: rules }), rec);
        }
        if matches!(tokens[p], Token::KwFolder) {
            let (res, mut frec) = parse_folder(tokens, ls, p);
            let ghost frec_v = errors_view(frec@);
            rec.append(&mut frec);
            assert(errors_view(rec@) =~= errors_view(old_rec) + frec_v);
            match res {
                Err(e) => {
                    return (Err(e), rec);
                },
                Ok((f, q)) => {
                    let ghost fv = f@;
                    let ghost old_folders = folders@;
                    folders.push(f);
                    proof {
                        let d = DefinitionModel::Folder(fv);
                        assert(done.push(d).drop_last() =~= done);
                        assert(folder_nodes_view(folders@) =~= folder_nodes_view(old_folders).push(fv));
                        lemma_definitions_advance(
                            t,
                            ls@,
                            p as int,
                            q as int,
                            done,
                            d,
                            errors_view(old_rec),
                            frec_v,
                        );
                        done = done.push(d);
                    }
                    p = q;
                },
            }
        } else if matches!(tokens[p], Token::KwRule) {
            let (res, mut rrec) = parse_rule(tokens, ls, p);
            let ghost rrec_v = errors_view(rrec@);
            rec.append(&mut rrec);
            assert(errors_view(rec@) =~= errors_view(old_rec) + rrec_v);
            match res {
                Err(e) => {
                    return (Err(e), rec);
                },
                Ok((rule, q)) => {
                    let ghost rv = rule@;
                    let ghost old_rules = rules@;
                    rules.push(rule);
                    proof {
                        let d = DefinitionModel::Rule(rv);
                        assert(done.push(d).drop_last() =~= done);
                        assert(rule_nodes_view(rules@) =~= rule_nodes_view(old_rules).push(rv));
                        lemma_definitions_advance(
                            t,
                            ls@,
                            p as int,
                            q as int,
                            done,
                            d,
                            errors_view(old_rec),
                            rrec_v,
                        );
                        done = done.push(d);
                    }
                    p = q;
                },
            }
        } else {
            assert(errors_view(rec@) + seq![] =~= errors_view(rec@));
            return (Err(ParserError::TopLevelDefinition(found_span_exec(tokens, p))), rec);
        }
    }
}

// ---------------------------------------------------------------------------
// Parsing whole token sequences
// ---------------------------------------------------------------------------

/// The outcome of parsing a whole token sequence: the value, if the tokens
/// parse, and every error found (also those recovered from, after which a
/// value can still be given).
pub struct ParseResult<T> {
    pub output: Option<T>,
    pub errors: Vec<ParserError>,
}

impl<T: View> View for ParseResult<T> {
    type V = (Option<T::V>, Seq<ParserErrorModel>);

    open spec fn view(&self) -> (Option<T::V>, Seq<ParserErrorModel>) {
        (
            match self.output {
                Some(v) => Some(v@),
                None => None,
            },
            errors_view(self.errors@),
        )
    }
}

impl<T> ParseResult<T> {
    /// Whether a value was parsed.
    pub fn has_output(&self) -> (b: bool)
        ensures
            b == self.output is Some,
    {
        self.output.is_some()
    }

    /// Whether any error was found.
    pub fn has_errors(&self) -> (b: bool)
        ensures
            b == (self.errors@.len() > 0),
    {
        self.errors.len() > 0
    }

    /// The parsed value, if any.
    pub fn into_output(self) -> (r: Option<T>)
        ensures
            r == self.output,
    {
        self.output
    }

    /// The errors found.
    pub fn errors(&self) -> (r: &Vec<ParserError>)
        ensures
            r == &self.errors,
    {
        &self.errors
    }
}

/// A parse of the whole input: the result of a construct parsed from the
/// first token, which must then reach the end of the input, together with
/// the errors recovered from.
pub open spec fn spec_whole<T>(
    t: Seq<SpecToken>,
    r: SpecResult<T>,
    rec: Seq<ParserErrorModel>,
) -> (Option<T>, Seq<ParserErrorModel>) {
    match r {
        Ok((v, q)) => if q == t.len() {
            (Some(v), rec)
        } else {
            (None, rec.push(expected_found(t, q, seq![ExpectedModel::EndOfInput])))
        },
        Err(e) => (None, rec.push(e)),
    }
}

fn finish<T: View>(tokens: &Vec<Token>, r: Result<(T, usize), ParserError>, rec: Vec<
    ParserError,
>) -> (out: ParseResult<T>)
    requires
        r matches Ok((_, q)) ==> q <= tokens@.len(),
    ensures
        out@ == spec_whole(tokens_view(tokens@), result_view(r), errors_view(rec@)),
{
    let mut errors = rec;
    let ghost before = errors_view(errors@);
    match r {
        Ok((v, q)) => {
            if q == tokens.len() {
                ParseResult { output: Some(v), errors }
            } else {
                let ex = vec![Expected::EndOfInput];
                assert(expected_view(ex@) =~= seq![ExpectedModel::EndOfInput]);
                let e = expected_found_exec(tokens, q, ex);
                let ghost ev = e@;
                errors.push(e);
                assert(errors_view(errors@) =~= before.push(ev));
                ParseResult { output: None, errors }
            }
        },
        Err(e) => {
            let ghost ev = e@;
            errors.push(e);
            assert(errors_view(errors@) =~= before.push(ev));
            ParseResult { output: None, errors }
        },
    }
}

fn no_errors() -> (v: Vec<ParserError>)
    ensures
        errors_view(v@) == Seq::<ParserErrorModel>::empty(),
{
    let v: Vec<ParserError> = Vec::new();
    assert(errors_view(v@) =~= Seq::<ParserErrorModel>::empty());
    v
}

/// The parser of string matchers; see [`spec_string_matcher`].
pub struct StringMatcherParser;

/// The parser of matchers; see [`spec_matcher`].
pub struct MatcherParser;

/// The parser of actions; see [`spec_action`].
pub struct ActionParser;

/// The parser of rules; see [`spec_rule`].
pub struct RuleParser;

/// The parser of folder definitions; see [`spec_folder`].
pub struct FolderParser;

/// The parser of whole rule files; see [`spec_config`].
pub struct ConfigParser;

pub fn string_matcher() -> StringMatcherParser {
    StringMatcherParser
}

pub fn matcher() -> MatcherParser {
    MatcherParser
}

pub fn action() -> ActionParser {
    ActionParser
}

pub fn rule() -> RuleParser {
    RuleParser
}

pub fn folder() -> FolderParser {
    FolderParser
}

pub fn config() -> ConfigParser {
    ConfigParser
}

impl StringMatcherParser {
    /// Parses all of `tokens` as one string matcher, mapping spans to byte
    /// ranges with `lexer_spans`.
    pub fn parse_with_spans(&self, tokens: &Vec<Token>, lexer_spans: &Vec<Range<usize>>) -> (r:
        ParseResult<Node<ParserStringMatcher>>)
        ensures
            r@ == spec_whole(
                tokens_view(tokens@),
                spec_string_matcher(tokens_view(tokens@), lexer_spans@, 0),
                seq![],
            ),
    {
        finish(tokens, parse_string_matcher(tokens, lexer_spans, 0), no_errors())
    }

    /// Parses all of `tokens` as one string matcher, without byte ranges
    /// (every span is `0..0`).
    pub fn parse(&self, tokens: &Vec<Token>) -> (r: ParseResult<Node<ParserStringMatcher>>)
        ensures
            r@ == spec_whole(
                tokens_view(tokens@),
                spec_string_matcher(tokens_view(tokens@), seq![], 0),
                seq![],
            ),
    {
        let ls: Vec<Range<usize>> = Vec::new();
        self.parse_with_spans(tokens, &ls)
    }
}

impl MatcherParser {
    /// Parses all of `tokens` as one matcher, mapping spans to byte ranges
    /// with `lexer_spans`.
    pub fn parse_with_spans(&self, tokens: &Vec<Token>, lexer_spans: &Vec<Range<usize>>) -> (r:
        ParseResult<Node<ParserMatcher>>)
        ensures
            r@ == spec_whole(
                tokens_view(tokens@),
                spec_matcher(tokens_view(tokens@), lexer_spans@, 0),
                seq![],
            ),
    {
        finish(tokens, parse_matcher(tokens, lexer_spans, 0), no_errors())
    }

    /// Parses all of `tokens` as one matcher, without byte ranges (every
    /// span is `0..0`).
    pub fn parse(&self, tokens: &Vec<Token>) -> (r: ParseResult<Node<ParserMatcher>>)
        ensures
            r@ == spec_whole(
                tokens_view(tokens@),
                spec_matcher(tokens_view(tokens@), seq![], 0),
                seq![],
            ),
    {
        let ls: Vec<Range<usize>> = Vec::new();
        self.parse_with_spans(tokens, &ls)
    }
}

impl ActionParser {
    /// Parses all of `tokens` as one action, mapping spans to byte ranges
    /// with `lexer_spans`.
    pub fn parse_with_spans(&self, tokens: &Vec<Token>, lexer_spans: &Vec<Range<usize>>) -> (r:
        ParseResult<Node<ParserAction>>)
        ensures
            r@ == spec_whole(
                tokens_view(tokens@),
                spec_action(tokens_view(tokens@), lexer_spans@, 0),
                seq![],
            ),
    {
        finish(tokens, parse_action(tokens, lexer_spans, 0), no_errors())
    }

    /// Parses all of `tokens` as one action, without byte ranges (every
    /// span is `0..0`).
    pub fn parse(&self, tokens: &Vec<Token>) -> (r: ParseResult<Node<ParserAction>>)
        ensures
            r@ == spec_whole(
                tokens_view(tokens@),
                spec_action(tokens_view(tokens@), seq![], 0),
                seq![],
            ),
    {
        let ls: Vec<Range<usize>> = Vec::new();
        self.parse_with_spans(tokens, &ls)
    }
}

impl RuleParser {
    /// Parses all of `tokens` as one rule, mapping spans to byte ranges with
    /// `lexer_spans`.
    pub fn parse_with_spans(&self, tokens: &Vec<Token>, lexer_spans: &Vec<Range<usize>>) -> (r:
        ParseResult<Node<ParserRule>>)
        ensures
            r@ == spec_whole(
                tokens_view(tokens@),
                spec_rule(tokens_view(tokens@), lexer_spans@, 0).0,
                spec_rule(tokens_view(tokens@), lexer_spans@, 0).1,
            ),
    {
        let (res, rec) = parse_rule(tokens, lexer_spans, 0);
        finish(tokens, res, rec)
    }

    /// Parses all of `tokens` as one rule, without byte ranges (every span
    /// is `0..0`).
    pub fn parse(&self, tokens: &Vec<Token>) -> (r: ParseResult<Node<ParserRule>>)
        ensures
            r@ == spec_whole(
                tokens_view(tokens@),
                spec_rule(tokens_view(tokens@), seq![], 0).0,
                spec_rule(tokens_view(tokens@), seq![], 0).1,
            ),
    {
        let ls: Vec<Range<usize>> = Vec::new();
        self.parse_with_spans(tokens, &ls)
    }
}

impl FolderParser {
    /// Parses all of `tokens` as one folder definition, mapping spans to
    /// byte ranges with `lexer_spans`.
    pub fn parse_with_spans(&self, tokens: &Vec<Token>, lexer_spans: &Vec<Range<usize>>) -> (r:
        ParseResult<Node<ParserFolder>>)
        ensures
            r@ == spec_whole(
                tokens_view(tokens@),
                spec_folder(tokens_view(tokens@), lexer_spans@, 0).0,
                spec_folder(tokens_view(tokens@), lexer_spans@, 0).1,
            ),
    {
        let (res, rec) = parse_folder(tokens, lexer_spans, 0);
        finish(tokens, res, rec)
    }

    /// Parses all of `tokens` as one folder definition, without byte ranges
    /// (every span is `0..0`).
    pub fn parse(&self, tokens: &Vec<Token>) -> (r: ParseResult<Node<ParserFolder>>)
        ensures
            r@ == spec_whole(
                tokens_view(tokens@),
                spec_folder(tokens_view(tokens@), seq![], 0).0,
                spec_folder(tokens_view(tokens@), seq![], 0).1,
            ),
    {
        let ls: Vec<Range<usize>> = Vec::new();
        self.parse_with_spans(tokens, &ls)
    }
}

impl ConfigParser {
    /// Parses all of `tokens` as a rule file, mapping spans to byte ranges
    /// with `lexer_spans`.
    pub fn parse_with_spans(&self, tokens: &Vec<Token>, lexer_spans: &Vec<Range<usize>>) -> (r:
        ParseResult<ParserConfig>)
        ensures
            r@ == spec_config(tokens_view(tokens@), lexer_spans@),
    {
        let (res, rec) = parse_definitions(tokens, lexer_spans);
        let mut errors = rec;
        let ghost before = errors_view(errors@);
        match res {
            Ok(c) => ParseResult { output: Some(c), errors },
            Err(e) => {
                let ghost ev = e@;
                errors.push(e);
                assert(errors_view(errors@) =~= before.push(ev));
                ParseResult { output: None, errors }
            },
        }
    }

    /// Parses all of `tokens` as a rule file, without byte ranges (every
    /// span is `0..0`).
    pub fn parse(&self, tokens: &Vec<Token>) -> (r: ParseResult<ParserConfig>)
        ensures
            r@ == spec_config(tokens_view(tokens@), seq![]),
    {
        let ls: Vec<Range<usize>> = Vec::new();
        self.parse_with_spans(tokens, &ls)
    }
}

} // verus!
