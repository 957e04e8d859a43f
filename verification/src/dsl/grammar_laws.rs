use std::ops::Range;
use vstd::prelude::*;

use crate::dsl::ast::{ConfigModel, DefinitionModel, MatcherModel, NodeModel, RuleValueModel};
use crate::dsl::lexer::SpecToken;
use crate::dsl::parser::{
    check_rule_pairs, folders_of, rule_actions, rule_matchers, rules_of, spec_action,
    spec_action_args, spec_config, spec_definition_name, spec_definitions, spec_folder,
    spec_match_items, spec_match_list, spec_matcher, spec_msg_matcher, spec_rule, spec_rule_pair,
    spec_rule_pairs, spec_string_matcher, spec_whole, tok_at, SpecResult, TokenSpan,
};

verus! {

// Parses are run here without byte ranges of the tokens, as the parsers'
// `parse` functions run them, so every node's span is `0..0`.
/// No byte ranges for the tokens.
pub open spec fn no_spans() -> Seq<Range<usize>> {
    Seq::empty()
}

/// A successful parse moved `o` tokens on.
pub open spec fn shifted<T>(r: SpecResult<T>, o: int) -> SpecResult<T> {
    match r {
        Ok((v, q)) => Ok((v, q + o)),
        Err(e) => Err(e),
    }
}

proof fn lemma_tok_framed(u: Seq<SpecToken>, t: Seq<SpecToken>, w: Seq<SpecToken>, p: int)
    requires
        0 <= p < t.len(),
    ensures
        tok_at(u + t + w, u.len() + p) == tok_at(t, p),
{
    assert((u + t + w)[u.len() + p] == t[p]);
}

proof fn lemma_string_matcher_frame(u: Seq<SpecToken>, t: Seq<SpecToken>, w: Seq<SpecToken>, p: int)
    requires
        0 <= p <= t.len(),
        spec_string_matcher(t, no_spans(), p) is Ok,
    ensures
        spec_string_matcher(u + t + w, no_spans(), u.len() + p) == shifted(
            spec_string_matcher(t, no_spans(), p),
            u.len() as int,
        ),
{
    lemma_tok_framed(u, t, w, p);
    lemma_tok_framed(u, t, w, p + 1);
}

proof fn lemma_matcher_frame(u: Seq<SpecToken>, t: Seq<SpecToken>, w: Seq<SpecToken>, p: int)
    requires
        0 <= p <= t.len(),
        spec_matcher(t, no_spans(), p) is Ok,
    ensures
        spec_matcher(u + t + w, no_spans(), u.len() + p) == shifted(
            spec_matcher(t, no_spans(), p),
            u.len() as int,
        ),
    decreases t.len() - p, 3int,
{
    let x = u + t + w;
    let o = u.len() as int;
    lemma_tok_framed(u, t, w, p);
    let k = t[p];
    if k is KwAnd || k is KwOr {
        lemma_match_list_frame(u, t, w, p + 1);
    } else if k is KwNot {
        lemma_msg_matcher_frame(u, t, w, p + 1);
    } else {
        lemma_msg_matcher_frame(u, t, w, p);
    }
}

proof fn lemma_msg_matcher_frame(u: Seq<SpecToken>, t: Seq<SpecToken>, w: Seq<SpecToken>, p: int)
    requires
        0 <= p <= t.len(),
        spec_msg_matcher(t, no_spans(), p) is Ok,
    ensures
        spec_msg_matcher(u + t + w, no_spans(), u.len() + p) == shifted(
            spec_msg_matcher(t, no_spans(), p),
            u.len() as int,
        ),
    decreases t.len() - p, 2int,
{
    lemma_tok_framed(u, t, w, p);
    let k = t[p];
    if k is LParen {
        lemma_matcher_frame(u, t, w, p + 1);
        let q = spec_matcher(t, no_spans(), p + 1)->Ok_0.1;
        lemma_matcher_bounds(t, p + 1);
        lemma_tok_framed(u, t, w, q);
    } else {
        lemma_string_matcher_frame(u, t, w, p + 1);
    }
}

proof fn lemma_match_list_frame(u: Seq<SpecToken>, t: Seq<SpecToken>, w: Seq<SpecToken>, p: int)
    requires
        0 <= p <= t.len(),
        spec_match_list(t, no_spans(), p) is Ok,
    ensures
        spec_match_list(u + t + w, no_spans(), u.len() + p) == shifted(
            spec_match_list(t, no_spans(), p),
            u.len() as int,
        ),
    decreases t.len() - p, 5int,
{
    lemma_tok_framed(u, t, w, p);
    lemma_match_items_frame(u, t, w, p + 1);
    lemma_match_items_bounds(t, p + 1);
}

proof fn lemma_match_items_frame(u: Seq<SpecToken>, t: Seq<SpecToken>, w: Seq<SpecToken>, p: int)
    requires
        0 <= p <= t.len(),
        spec_match_items(t, no_spans(), p) is Ok,
    ensures
        spec_match_items(u + t + w, no_spans(), u.len() + p) == shifted(
            spec_match_items(t, no_spans(), p),
            u.len() as int,
        ),
    decreases t.len() - p, 4int,
{
    lemma_tok_framed(u, t, w, p);
    if t[p] != SpecToken::RBracket {
        lemma_matcher_frame(u, t, w, p);
        lemma_matcher_bounds(t, p);
        let q = spec_matcher(t, no_spans(), p)->Ok_0.1;
        lemma_match_items_frame(u, t, w, q);
    }
}

/// A successful matcher parse ends within the input, after where it began.
proof fn lemma_matcher_bounds(t: Seq<SpecToken>, p: int)
    requires
        0 <= p <= t.len(),
        spec_matcher(t, no_spans(), p) is Ok,
    ensures
        p < spec_matcher(t, no_spans(), p)->Ok_0.1 <= t.len(),
    decreases t.len() - p, 3int,
{
    let k = t[p];
    if k is KwAnd || k is KwOr {
        lemma_match_list_bounds(t, p + 1);
    } else if k is KwNot {
        lemma_msg_matcher_bounds(t, p + 1);
    } else {
        lemma_msg_matcher_bounds(t, p);
    }
}

proof fn lemma_msg_matcher_bounds(t: Seq<SpecToken>, p: int)
    requires
        0 <= p <= t.len(),
        spec_msg_matcher(t, no_spans(), p) is Ok,
    ensures
        p < spec_msg_matcher(t, no_spans(), p)->Ok_0.1 <= t.len(),
    decreases t.len() - p, 2int,
{
    if t[p] is LParen {
        lemma_matcher_bounds(t, p + 1);
    }
}

proof fn lemma_match_list_bounds(t: Seq<SpecToken>, p: int)
    requires
        0 <= p <= t.len(),
        spec_match_list(t, no_spans(), p) is Ok,
    ensures
        p < spec_match_list(t, no_spans(), p)->Ok_0.1 <= t.len(),
    decreases t.len() - p, 5int,
{
    lemma_match_items_bounds(t, p + 1);
}

proof fn lemma_match_items_bounds(t: Seq<SpecToken>, p: int)
    requires
        0 <= p <= t.len(),
        spec_match_items(t, no_spans(), p) is Ok,
    ensures
        p <= spec_match_items(t, no_spans(), p)->Ok_0.1 < t.len(),
        tok_at(t, spec_match_items(t, no_spans(), p)->Ok_0.1) == Some(SpecToken::RBracket),
    decreases t.len() - p, 4int,
{
    if t[p] != SpecToken::RBracket {
        lemma_matcher_bounds(t, p);
        let q = spec_matcher(t, no_spans(), p)->Ok_0.1;
        lemma_match_items_bounds(t, q);
    }
}

/// A matcher parsed in the middle of other tokens gives what it gives
/// alone, ending as many tokens later as it begins.
pub proof fn lemma_matcher_in_context(u: Seq<SpecToken>, t: Seq<SpecToken>, w: Seq<SpecToken>)
    requires
        spec_matcher(t, no_spans(), 0) is Ok,
    ensures
        spec_matcher(u + t + w, no_spans(), u.len() as int) == shifted(
            spec_matcher(t, no_spans(), 0),
            u.len() as int,
        ),
{
    lemma_matcher_frame(u, t, w, 0);
}

/// Parentheses around a matcher add no node: if the tokens parse as the
/// matcher `m` with no error, the same tokens in parentheses parse as `m`
/// with no error. Applied again, this holds at any depth of parentheses.
pub proof fn lemma_parentheses(t: Seq<SpecToken>, m: NodeModel<MatcherModel>)
    requires
        spec_whole(t, spec_matcher(t, no_spans(), 0), seq![]) == (
            Some(m),
            Seq::<crate::dsl::parser::ParserErrorModel>::empty(),
        ),
    ensures
        ({
            let wrapped = seq![SpecToken::LParen] + t + seq![SpecToken::RParen];
            spec_whole(wrapped, spec_matcher(wrapped, no_spans(), 0), seq![]) == (
                Some(m),
                Seq::<crate::dsl::parser::ParserErrorModel>::empty(),
            )
        }),
{
    let u = seq![SpecToken::LParen];
    let w = seq![SpecToken::RParen];
    let wrapped = u + t + w;
    assert(spec_matcher(t, no_spans(), 0) == Ok::<(NodeModel<MatcherModel>, int), crate::dsl::parser::ParserErrorModel>((m, t.len() as int)));
    lemma_matcher_frame(u, t, w, 0);
    assert(wrapped[0] == SpecToken::LParen);
    assert(wrapped[t.len() + 1int] == SpecToken::RParen);
    assert(tok_at(wrapped, t.len() + 1int) == Some(SpecToken::RParen));
    assert(spec_msg_matcher(wrapped, no_spans(), 0) == Ok::<(NodeModel<MatcherModel>, int), crate::dsl::parser::ParserErrorModel>((m, t.len() + 2int)));
}

// ---------------------------------------------------------------------------
// Rules and folders in context
// ---------------------------------------------------------------------------

/// The values of rule-body pairs, without the spans of their keys.
pub open spec fn pair_values(l: Seq<NodeModel<(RuleValueModel, TokenSpan)>>) -> Seq<RuleValueModel> {
    l.map_values(|n: NodeModel<(RuleValueModel, TokenSpan)>| n.value.0)
}

proof fn lemma_pair_lists(
    l1: Seq<NodeModel<(RuleValueModel, TokenSpan)>>,
    l2: Seq<NodeModel<(RuleValueModel, TokenSpan)>>,
)
    requires
        pair_values(l1) == pair_values(l2),
    ensures
        rule_matchers(l1).len() == rule_matchers(l2).len(),
        forall|i: int|
            0 <= i < rule_matchers(l1).len() ==> (#[trigger] rule_matchers(l1)[i]).0
                == rule_matchers(l2)[i].0,
        rule_actions(l1).len() == rule_actions(l2).len(),
        forall|i: int|
            0 <= i < rule_actions(l1).len() ==> (#[trigger] rule_actions(l1)[i]).0
                == rule_actions(l2)[i].0,
    decreases l1.len(),
{
    assert(l1.len() == pair_values(l1).len());
    assert(l2.len() == pair_values(l2).len());
    if l1.len() > 0 {
        let a = l1.drop_last();
        let b = l2.drop_last();
        assert forall|i: int| 0 <= i < a.len() implies #[trigger] pair_values(a)[i] == pair_values(
            b,
        )[i] by {
            assert(pair_values(a)[i] == pair_values(l1)[i]);
            assert(pair_values(b)[i] == pair_values(l2)[i]);
        }
        assert(pair_values(a) =~= pair_values(b));
        lemma_pair_lists(a, b);
        assert(pair_values(l1)[l1.len() - 1] == pair_values(l2)[l1.len() - 1]);
        assert(pair_values(l1)[l1.len() - 1] == l1.last().value.0);
        assert(pair_values(l2)[l1.len() - 1] == l2.last().value.0);
        assert(l1.last().value.0 == l2.last().value.0);
    }
}

proof fn lemma_check_rule_pairs_values(
    l1: Seq<NodeModel<(RuleValueModel, TokenSpan)>>,
    l2: Seq<NodeModel<(RuleValueModel, TokenSpan)>>,
    s1: TokenSpan,
    s2: TokenSpan,
)
    requires
        pair_values(l1) == pair_values(l2),
        check_rule_pairs(l1, s1) is Ok,
    ensures
        check_rule_pairs(l2, s2) == check_rule_pairs(l1, s1),
{
    lemma_pair_lists(l1, l2);
    assert(rule_matchers(l1)[0].0 == rule_matchers(l2)[0].0);
    assert(rule_actions(l1)[0].0 == rule_actions(l2)[0].0);
}

proof fn lemma_action_frame(u: Seq<SpecToken>, t: Seq<SpecToken>, w: Seq<SpecToken>, p: int)
    requires
        0 <= p <= t.len(),
        spec_action(t, no_spans(), p) is Ok,
    ensures
        spec_action(u + t + w, no_spans(), u.len() + p) == shifted(
            spec_action(t, no_spans(), p),
            u.len() as int,
        ),
        p < spec_action(t, no_spans(), p)->Ok_0.1 <= t.len(),
{
    lemma_tok_framed(u, t, w, p);
    if t[p] is KwMoveTo {
        lemma_tok_framed(u, t, w, p + 1);
        lemma_tok_framed(u, t, w, p + 2);
        lemma_tok_framed(u, t, w, p + 3);
        assert((u + t + w)[u.len() + p + 2] == t[p + 2]);
    }
}

proof fn lemma_rule_pair_frame(u: Seq<SpecToken>, t: Seq<SpecToken>, w: Seq<SpecToken>, p: int)
    requires
        0 <= p <= t.len(),
        spec_rule_pair(t, no_spans(), p) is Ok,
    ensures
        ({
            let r1 = spec_rule_pair(t, no_spans(), p)->Ok_0;
            let r2 = spec_rule_pair(u + t + w, no_spans(), u.len() + p);
            &&& r2 is Ok
            &&& r2->Ok_0.1 == r1.1 + u.len()
            &&& r2->Ok_0.0.value.0 == r1.0.value.0
            &&& r2->Ok_0.0.span == r1.0.span
            &&& p < r1.1 <= t.len()
        }),
{
    lemma_tok_framed(u, t, w, p);
    lemma_tok_framed(u, t, w, p + 1);
    if t[p] is KwMatcher {
        lemma_matcher_frame(u, t, w, p + 2);
        lemma_matcher_bounds(t, p + 2);
    } else {
        lemma_action_frame(u, t, w, p + 2);
    }
}

proof fn lemma_rule_pairs_frame(u: Seq<SpecToken>, t: Seq<SpecToken>, w: Seq<SpecToken>, p: int)
    requires
        0 <= p <= t.len(),
        spec_rule_pairs(t, no_spans(), p) is Ok,
    ensures
        ({
            let r1 = spec_rule_pairs(t, no_spans(), p)->Ok_0;
            let r2 = spec_rule_pairs(u + t + w, no_spans(), u.len() + p);
            &&& r2 is Ok
            &&& r2->Ok_0.1 == r1.1 + u.len()
            &&& pair_values(r2->Ok_0.0) == pair_values(r1.0)
            &&& p <= r1.1 < t.len()
            &&& tok_at(t, r1.1) == Some(SpecToken::RBrace)
        }),
    decreases t.len() - p,
{
    lemma_tok_framed(u, t, w, p);
    if t[p] != SpecToken::RBrace {
        lemma_rule_pair_frame(u, t, w, p);
        let (n1, q) = spec_rule_pair(t, no_spans(), p)->Ok_0;
        lemma_rule_pairs_frame(u, t, w, q);
        let n2 = spec_rule_pair(u + t + w, no_spans(), u.len() + p)->Ok_0.0;
        let rest1 = spec_rule_pairs(t, no_spans(), q)->Ok_0.0;
        let rest2 = spec_rule_pairs(u + t + w, no_spans(), u.len() + q)->Ok_0.0;
        assert(pair_values(seq![n2] + rest2) =~= seq![n2.value.0] + pair_values(rest2));
        assert(pair_values(seq![n1] + rest1) =~= seq![n1.value.0] + pair_values(rest1));
    } else {
        assert(pair_values(Seq::<NodeModel<(RuleValueModel, TokenSpan)>>::empty()) =~= Seq::<
            RuleValueModel,
        >::empty());
    }
}

proof fn lemma_rule_frame(u: Seq<SpecToken>, t: Seq<SpecToken>, w: Seq<SpecToken>, p: int)
    requires
        0 <= p <= t.len(),
        spec_rule(t, no_spans(), p).0 is Ok,
        spec_rule(t, no_spans(), p).1 == Seq::<crate::dsl::parser::ParserErrorModel>::empty(),
    ensures
        spec_rule(u + t + w, no_spans(), u.len() + p) == (
            shifted(spec_rule(t, no_spans(), p).0, u.len() as int),
            Seq::<crate::dsl::parser::ParserErrorModel>::empty(),
        ),
        p < spec_rule(t, no_spans(), p).0->Ok_0.1 <= t.len(),
{
    let x = u + t + w;
    let o = u.len() as int;
    lemma_tok_framed(u, t, w, p);
    lemma_tok_framed(u, t, w, p + 1);
    assert(tok_at(t, p) == Some(SpecToken::KwRule));
    let dn = spec_definition_name(t, p + 1, true);
    assert(spec_rule(t, no_spans(), p).1 == dn.2);
    assert(dn.2.len() == 0);
    assert(t[p + 1] is Ident);
    lemma_tok_framed(u, t, w, p + 2);
    lemma_rule_pairs_frame(u, t, w, p + 3);
    let (l1, r) = spec_rule_pairs(t, no_spans(), p + 3)->Ok_0;
    let l2 = spec_rule_pairs(x, no_spans(), o + p + 3)->Ok_0.0;
    lemma_check_rule_pairs_values(
        l1,
        l2,
        crate::dsl::parser::tspan(p + 1, r + 1),
        crate::dsl::parser::tspan(o + p + 1, o + r + 1),
    );
    assert(spec_definition_name(x, o + p + 1, true) == (
        spec_definition_name(t, p + 1, true).0,
        o + p + 2,
        Seq::<crate::dsl::parser::ParserErrorModel>::empty(),
    )) by {
        assert(x[o + p + 1] == t[p + 1]);
    }
}

proof fn lemma_folder_frame(u: Seq<SpecToken>, t: Seq<SpecToken>, w: Seq<SpecToken>, p: int)
    requires
        0 <= p <= t.len(),
        spec_folder(t, no_spans(), p).0 is Ok,
        spec_folder(t, no_spans(), p).1 == Seq::<crate::dsl::parser::ParserErrorModel>::empty(),
    ensures
        spec_folder(u + t + w, no_spans(), u.len() + p) == (
            shifted(spec_folder(t, no_spans(), p).0, u.len() as int),
            Seq::<crate::dsl::parser::ParserErrorModel>::empty(),
        ),
        p < spec_folder(t, no_spans(), p).0->Ok_0.1 <= t.len(),
{
    let x = u + t + w;
    lemma_tok_framed(u, t, w, p);
    lemma_tok_framed(u, t, w, p + 1);
    assert(tok_at(t, p) == Some(SpecToken::KwFolder));
    let dn = spec_definition_name(t, p + 1, false);
    assert(spec_folder(t, no_spans(), p).1 == dn.2);
    assert(dn.2.len() == 0);
    assert(t[p + 1] is Ident);
    assert(x[u.len() + p + 1] == t[p + 1]);
    lemma_tok_framed(u, t, w, p + 2);
    lemma_tok_framed(u, t, w, p + 3);
    lemma_tok_framed(u, t, w, p + 4);
    lemma_tok_framed(u, t, w, p + 5);
    lemma_tok_framed(u, t, w, p + 6);
}

// ---------------------------------------------------------------------------
// Whole rule files
// ---------------------------------------------------------------------------

pub open spec fn no_errors() -> Seq<crate::dsl::parser::ParserErrorModel> {
    Seq::empty()
}

proof fn lemma_brace_pos(t: Seq<SpecToken>, q: int)
    requires
        0 <= q,
    ensures
        q <= crate::dsl::parser::brace_pos(t, q),
    decreases t.len() - q,
{
    if q < t.len() && t[q] != SpecToken::LBrace {
        lemma_brace_pos(t, q + 1);
    }
}

proof fn lemma_rule_bounds(t: Seq<SpecToken>, p: int)
    requires
        0 <= p <= t.len(),
        spec_rule(t, no_spans(), p).0 is Ok,
    ensures
        p < spec_rule(t, no_spans(), p).0->Ok_0.1 <= t.len(),
{
    let e = Seq::<SpecToken>::empty();
    lemma_brace_pos(t, p + 1);
    let q = spec_definition_name(t, p + 1, true).1;
    assert(p + 1 <= q);
    assert(tok_at(t, q) == Some(SpecToken::LBrace));
    assert(e + t + e =~= t);
    lemma_rule_pairs_frame(e, t, e, q + 1);
}

proof fn lemma_folder_bounds(t: Seq<SpecToken>, p: int)
    requires
        0 <= p <= t.len(),
        spec_folder(t, no_spans(), p).0 is Ok,
    ensures
        p < spec_folder(t, no_spans(), p).0->Ok_0.1 <= t.len(),
{
    lemma_brace_pos(t, p + 1);
    let q = spec_definition_name(t, p + 1, false).1;
    assert(p + 1 <= q);
    assert(tok_at(t, q + 4) == Some(SpecToken::RBrace));
}

/// One definition taken off the front of a parse of definitions that
/// succeeded without errors.
proof fn lemma_defs_unfold(t: Seq<SpecToken>, p: int) -> (r: (DefinitionModel, int))
    requires
        0 <= p < t.len(),
        spec_definitions(t, no_spans(), p).0 is Ok,
        spec_definitions(t, no_spans(), p).1 == no_errors(),
    ensures
        p < r.1 <= t.len(),
        t[p] is KwFolder || t[p] is KwRule,
        t[p] is KwFolder ==> r.0 is Folder && spec_folder(t, no_spans(), p) == (
            Ok::<(NodeModel<crate::dsl::ast::FolderModel>, int), crate::dsl::parser::ParserErrorModel>((r.0->Folder_0, r.1)),
            no_errors(),
        ),
        t[p] is KwRule ==> r.0 is Rule && spec_rule(t, no_spans(), p) == (
            Ok::<(NodeModel<crate::dsl::ast::RuleModel>, int), crate::dsl::parser::ParserErrorModel>((r.0->Rule_0, r.1)),
            no_errors(),
        ),
        spec_definitions(t, no_spans(), r.1).0 is Ok,
        spec_definitions(t, no_spans(), r.1).1 == no_errors(),
        spec_definitions(t, no_spans(), p).0->Ok_0 == seq![r.0] + spec_definitions(
            t,
            no_spans(),
            r.1,
        ).0->Ok_0,
{
    let e = Seq::<SpecToken>::empty();
    if t[p] is KwFolder {
        let (res, rec) = spec_folder(t, no_spans(), p);
        lemma_folder_bounds(t, p);
        let (f, q) = res->Ok_0;
        let (rest, rec2) = spec_definitions(t, no_spans(), q);
        assert(spec_definitions(t, no_spans(), p).1 == rec + rec2);
        assert(rec =~= no_errors());
        assert(rec2 =~= no_errors());
        (DefinitionModel::Folder(f), q)
    } else {
        let (res, rec) = spec_rule(t, no_spans(), p);
        lemma_rule_bounds(t, p);
        let (f, q) = res->Ok_0;
        let (rest, rec2) = spec_definitions(t, no_spans(), q);
        assert(spec_definitions(t, no_spans(), p).1 == rec + rec2);
        assert(rec =~= no_errors());
        assert(rec2 =~= no_errors());
        (DefinitionModel::Rule(f), q)
    }
}

/// One definition put back on the front of a parse of definitions.
proof fn lemma_defs_fold(x: Seq<SpecToken>, p: int, d: DefinitionModel, q: int)
    requires
        0 <= p < q <= x.len(),
        (x[p] is KwFolder && d is Folder && spec_folder(x, no_spans(), p) == (
            Ok::<(NodeModel<crate::dsl::ast::FolderModel>, int), crate::dsl::parser::ParserErrorModel>((d->Folder_0, q)),
            no_errors(),
        )) || (x[p] is KwRule && d is Rule && spec_rule(x, no_spans(), p) == (
            Ok::<(NodeModel<crate::dsl::ast::RuleModel>, int), crate::dsl::parser::ParserErrorModel>((d->Rule_0, q)),
            no_errors(),
        )),
        spec_definitions(x, no_spans(), q).0 is Ok,
        spec_definitions(x, no_spans(), q).1 == no_errors(),
    ensures
        spec_definitions(x, no_spans(), p) == (
            Ok::<Seq<DefinitionModel>, crate::dsl::parser::ParserErrorModel>(
                seq![d] + spec_definitions(x, no_spans(), q).0->Ok_0,
            ),
            no_errors(),
        ),
{
    assert(no_errors() + no_errors() =~= no_errors());
}

proof fn lemma_defs_prefix(u: Seq<SpecToken>, t: Seq<SpecToken>, p: int)
    requires
        0 <= p <= t.len(),
        spec_definitions(t, no_spans(), p).0 is Ok,
        spec_definitions(t, no_spans(), p).1 == no_errors(),
    ensures
        spec_definitions(u + t, no_spans(), u.len() + p) == spec_definitions(t, no_spans(), p),
    decreases t.len() - p,
{
    let e = Seq::<SpecToken>::empty();
    let x = u + t;
    let o = u.len() as int;
    assert(u + t + e =~= x);
    if p < t.len() {
        lemma_tok_framed(u, t, e, p);
        assert(x[o + p] == t[p]);
        let (d, q) = lemma_defs_unfold(t, p);
        if t[p] is KwFolder {
            lemma_folder_frame(u, t, e, p);
        } else {
            lemma_rule_frame(u, t, e, p);
        }
        lemma_defs_prefix(u, t, q);
        lemma_defs_fold(x, o + p, d, o + q);
    }
}

proof fn lemma_defs_concat(t1: Seq<SpecToken>, t2: Seq<SpecToken>, p: int)
    requires
        0 <= p <= t1.len(),
        spec_definitions(t1, no_spans(), p).0 is Ok,
        spec_definitions(t1, no_spans(), p).1 == no_errors(),
        spec_definitions(t2, no_spans(), 0).0 is Ok,
        spec_definitions(t2, no_spans(), 0).1 == no_errors(),
    ensures
        spec_definitions(t1 + t2, no_spans(), p) == (
            Ok::<Seq<DefinitionModel>, crate::dsl::parser::ParserErrorModel>(
                spec_definitions(t1, no_spans(), p).0->Ok_0 + spec_definitions(
                    t2,
                    no_spans(),
                    0,
                ).0->Ok_0,
            ),
            no_errors(),
        ),
    decreases t1.len() - p,
{
    let e = Seq::<SpecToken>::empty();
    let x = t1 + t2;
    assert(e + t1 + t2 =~= x);
    let d2 = spec_definitions(t2, no_spans(), 0).0->Ok_0;
    if p == t1.len() {
        lemma_defs_prefix(t1, t2, 0);
        assert(Seq::<DefinitionModel>::empty() + d2 =~= d2);
    } else {
        lemma_tok_framed(e, t1, t2, p);
        assert(x[p] == t1[p]);
        let (d, q) = lemma_defs_unfold(t1, p);
        if t1[p] is KwFolder {
            lemma_folder_frame(e, t1, t2, p);
        } else {
            lemma_rule_frame(e, t1, t2, p);
        }
        lemma_defs_concat(t1, t2, q);
        lemma_defs_fold(x, p, d, q);
        let rest = spec_definitions(t1, no_spans(), q).0->Ok_0;
        assert(seq![d] + (rest + d2) =~= (seq![d] + rest) + d2);
    }
}

/// The folders and rules of two lists of definitions, one after the other,
/// are those of the first followed by those of the second.
pub proof fn lemma_split_concat(a: Seq<DefinitionModel>, b: Seq<DefinitionModel>)
    ensures
        folders_of(a + b) == folders_of(a) + folders_of(b),
        rules_of(a + b) == rules_of(a) + rules_of(b),
    decreases b.len(),
{
    if b.len() == 0 {
        assert(a + b =~= a);
        assert(folders_of(a) + folders_of(b) =~= folders_of(a));
        assert(rules_of(a) + rules_of(b) =~= rules_of(a));
    } else {
        lemma_split_concat(a, b.drop_last());
        assert((a + b).drop_last() =~= a + b.drop_last());
        assert((a + b).last() == b.last());
        assert(folders_of(a) + folders_of(b.drop_last()).push(b.last()->Folder_0) =~= (folders_of(a)
            + folders_of(b.drop_last())).push(b.last()->Folder_0));
        assert(rules_of(a) + rules_of(b.drop_last()).push(b.last()->Rule_0) =~= (rules_of(a)
            + rules_of(b.drop_last())).push(b.last()->Rule_0));
    }
}

proof fn lemma_config_parts(t: Seq<SpecToken>, c: ConfigModel)
    requires
        spec_config(t, no_spans()) == (Some(c), no_errors()),
    ensures
        spec_definitions(t, no_spans(), 0).0 is Ok,
        spec_definitions(t, no_spans(), 0).1 == no_errors(),
        c.folders == folders_of(spec_definitions(t, no_spans(), 0).0->Ok_0),
        c.rules == rules_of(spec_definitions(t, no_spans(), 0).0->Ok_0),
{
}

/// A rule file made of two rule files, one after the other, parses with no
/// error when each part does, into the folders of the first part followed
/// by those of the second, and likewise the rules: no definition is lost,
/// repeated or moved.
pub proof fn lemma_config_concat(
    t1: Seq<SpecToken>,
    t2: Seq<SpecToken>,
    c1: ConfigModel,
    c2: ConfigModel,
)
    requires
        spec_config(t1, no_spans()) == (Some(c1), no_errors()),
        spec_config(t2, no_spans()) == (Some(c2), no_errors()),
    ensures
        spec_config(t1 + t2, no_spans()) == (
            Some(ConfigModel { folders: c1.folders + c2.folders, rules: c1.rules + c2.rules }),
            no_errors(),
        ),
{
    lemma_config_parts(t1, c1);
    lemma_config_parts(t2, c2);
    lemma_defs_concat(t1, t2, 0);
    lemma_split_concat(
        spec_definitions(t1, no_spans(), 0).0->Ok_0,
        spec_definitions(t2, no_spans(), 0).0->Ok_0,
    );
}

/// The tokens of one rule, which parse alone as the rule `r` with no error,
/// form a rule file with that rule and no folder.
pub proof fn lemma_config_of_rule(t: Seq<SpecToken>, r: NodeModel<crate::dsl::ast::RuleModel>)
    requires
        spec_whole(t, spec_rule(t, no_spans(), 0).0, spec_rule(t, no_spans(), 0).1) == (
            Some(r),
            no_errors(),
        ),
    ensures
        spec_config(t, no_spans()) == (
            Some(ConfigModel { folders: seq![], rules: seq![r] }),
            no_errors(),
        ),
{
    assert(spec_rule(t, no_spans(), 0).0 is Ok);
    assert(tok_at(t, 0) == Some(SpecToken::KwRule));
    let ds = seq![DefinitionModel::Rule(r)];
    assert(spec_definitions(t, no_spans(), t.len() as int) == (
        Ok::<Seq<DefinitionModel>, crate::dsl::parser::ParserErrorModel>(Seq::empty()),
        no_errors(),
    ));
    lemma_defs_fold(t, 0, DefinitionModel::Rule(r), t.len() as int);
    assert(seq![DefinitionModel::Rule(r)] + Seq::<DefinitionModel>::empty() =~= ds);
    assert(ds.drop_last() =~= Seq::<DefinitionModel>::empty());
    assert(folders_of(ds.drop_last()) =~= seq![]);
    assert(rules_of(ds.drop_last()) =~= seq![]);
    assert(folders_of(ds) =~= seq![]);
    assert(rules_of(ds) =~= seq![r]);
}

/// The tokens of one folder definition, which parse alone as the folder `f`
/// with no error, form a rule file with that folder and no rule.
pub proof fn lemma_config_of_folder(t: Seq<SpecToken>, f: NodeModel<crate::dsl::ast::FolderModel>)
    requires
        spec_whole(t, spec_folder(t, no_spans(), 0).0, spec_folder(t, no_spans(), 0).1) == (
            Some(f),
            no_errors(),
        ),
    ensures
        spec_config(t, no_spans()) == (
            Some(ConfigModel { folders: seq![f], rules: seq![] }),
            no_errors(),
        ),
{
    assert(spec_folder(t, no_spans(), 0).0 is Ok);
    assert(tok_at(t, 0) == Some(SpecToken::KwFolder));
    let ds = seq![DefinitionModel::Folder(f)];
    assert(spec_definitions(t, no_spans(), t.len() as int) == (
        Ok::<Seq<DefinitionModel>, crate::dsl::parser::ParserErrorModel>(Seq::empty()),
        no_errors(),
    ));
    lemma_defs_fold(t, 0, DefinitionModel::Folder(f), t.len() as int);
    assert(seq![DefinitionModel::Folder(f)] + Seq::<DefinitionModel>::empty() =~= ds);
    assert(ds.drop_last() =~= Seq::<DefinitionModel>::empty());
    assert(rules_of(ds.drop_last()) =~= seq![]);
    assert(folders_of(ds.drop_last()) =~= seq![]);
    assert(folders_of(ds) =~= seq![f]);
    assert(rules_of(ds) =~= seq![]);
}

} // verus!
