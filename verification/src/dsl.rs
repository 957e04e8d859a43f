use std::ops::Range;
use vstd::prelude::*;

use crate::dsl::lexer::{
    all_ok, error_spans, lex_from, process_tokens, step_span, text_fits, LexError, SpecToken,
    Token,
};
use crate::dsl::parser::{config, errors_view, spec_config, tokens_view, ParserError, ParserErrorModel};
use crate::dsl::resolver::{config_rules_spec, rules_view, ResolutionError, ResolutionErrorModel};
use crate::process::{Rule, RuleSpec};

/// The syntax tree of rule files.
pub mod ast;
/// Parsing token sequences into syntax trees.
pub mod parser;
/// Tokens of the rule language and the lexer that produces them.
pub mod lexer;
/// Turning a parsed configuration into rules.
pub mod resolver;
/// How errors of the rule language are shown.
pub mod error;
/// Laws of the grammar: parsing in context, parentheses, concatenation.
pub mod grammar_laws;

verus! {

/// A rule file: a name that helps the user identify it, and its text.
pub struct File {
    /// The file name. Does not have to be a full path.
    pub file_name: String,
    /// The text of the file.
    pub contents: String,
    /// The byte ranges of the file's tokens, once it has been lexed. Parser
    /// errors refer to token positions, which these ranges map to text.
    pub lexer_spans: Option<Vec<Range<usize>>>,
}

/// Why a rule file could not be turned into rules.
#[derive(Debug)]
pub enum RulesError {
    /// Some text is no token; the errors give where, in order.
    Lex(Vec<LexError>),
    /// The tokens do not form a rule file; every error found.
    Parse(Vec<ParserError>),
    /// The parsed file does not resolve.
    Resolve(ResolutionError),
}

pub enum RulesErrorModel {
    Lex(Seq<Range<usize>>),
    Parse(Seq<ParserErrorModel>),
    Resolve(ResolutionErrorModel),
}

impl View for RulesError {
    type V = RulesErrorModel;

    open spec fn view(&self) -> RulesErrorModel {
        match self {
            RulesError::Lex(v) => RulesErrorModel::Lex(v@.map_values(|e: LexError| e.span)),
            RulesError::Parse(v) => RulesErrorModel::Parse(errors_view(v@)),
            RulesError::Resolve(e) => RulesErrorModel::Resolve(e@),
        }
    }
}

/// The tokens that lexing the text gives (when all of it lexes).
pub open spec fn lexed_tokens(s: Seq<char>) -> Seq<SpecToken> {
    lex_from(s, 0).map_values(|st: (Result<SpecToken, ()>, int, int)| st.0->Ok_0)
}

/// The byte ranges of the tokens that lexing the text gives.
pub open spec fn lexed_spans(s: Seq<char>) -> Seq<Range<usize>> {
    lex_from(s, 0).map_values(|st: (Result<SpecToken, ()>, int, int)| step_span(s, st))
}

/// The rules of a rule file's text: it is lexed, parsed and resolved, and
/// the first stage that fails gives the error.
pub open spec fn file_rules_spec(s: Seq<char>) -> Result<Seq<RuleSpec>, RulesErrorModel> {
    let steps = lex_from(s, 0);
    if !all_ok(steps) {
        Err(RulesErrorModel::Lex(error_spans(s, steps)))
    } else {
        let (out, errs) = spec_config(lexed_tokens(s), lexed_spans(s));
        if errs.len() > 0 {
            Err(RulesErrorModel::Parse(errs))
        } else {
            match out {
                Some(c) => match config_rules_spec(c) {
                    Ok(v) => Ok(v),
                    Err(e) => Err(RulesErrorModel::Resolve(e)),
                },
                None => Err(RulesErrorModel::Parse(errs)),
            }
        }
    }
}

fn copy_range(r: &Range<usize>) -> (c: Range<usize>)
    ensures
        c == *r,
{
    Range { start: r.start, end: r.end }
}

impl File {
    /// Lexes, parses and resolves the file into rules. Once the text has
    /// been lexed, the byte ranges of its tokens are kept in `lexer_spans`,
    /// so that parser errors can be shown against the text.
    pub fn parse_to_rules(&mut self) -> (r: Result<Vec<Rule>, RulesError>)
        ensures
            final(self).file_name == old(self).file_name,
            final(self).contents == old(self).contents,
            all_ok(lex_from(old(self).contents@, 0)) ==> (final(self).lexer_spans matches Some(v)
                && v@ == lexed_spans(old(self).contents@)),
            !all_ok(lex_from(old(self).contents@, 0)) ==> final(self).lexer_spans == old(
                self,
            ).lexer_spans,
            match file_rules_spec(old(self).contents@) {
                Ok(v) => r matches Ok(rules) && rules_view(rules@) == v,
                Err(e) => r matches Err(x) && x@ == e,
            },
    {
        let ghost s = self.contents@;
        text_fits(self.contents.as_str());
        let toks = match process_tokens(self) {
            Ok(v) => v,
            Err(e) => {
                proof {
                    assert(e@.map_values(|x: LexError| x.span) =~= error_spans(s, lex_from(s, 0)));
                }
                return Err(RulesError::Lex(e));
            },
        };
        let ghost steps = lex_from(s, 0);
        let mut tokens: Vec<Token> = Vec::new();
        let mut spans: Vec<Range<usize>> = Vec::new();
        let mut i: usize = 0;
        while i < toks.len()
            invariant
                steps == lex_from(s, 0),
                toks@.len() == steps.len(),
                forall|k: int|
                    0 <= k < toks@.len() ==> {
                        &&& steps[k].0 matches Ok(t) && (#[trigger] toks@[k]).0@ == t
                        &&& toks@[k].1 == step_span(s, steps[k])
                    },
                i <= toks@.len(),
                tokens@.len() == i,
                spans@.len() == i,
                forall|k: int| 0 <= k < i ==> #[trigger] tokens@[k]@ == steps[k].0->Ok_0,
                forall|k: int| 0 <= k < i ==> #[trigger] spans@[k] == step_span(s, steps[k]),
            decreases toks@.len() - i,
        {
            tokens.push(toks[i].0.clone());
            spans.push(copy_range(&toks[i].1));
            i = i + 1;
        }
        proof {
            assert(tokens_view(tokens@) =~= lexed_tokens(s));
            assert(spans@ =~= lexed_spans(s));
        }
        let parsed = config().parse_with_spans(&tokens, &spans);
        self.lexer_spans = Some(spans);
        if parsed.has_errors() {
            return Err(RulesError::Parse(parsed.errors));
        }
        match parsed.output {
            Some(c) => match c.to_rules() {
                Ok(rules) => Ok(rules),
                Err(e) => Err(RulesError::Resolve(e)),
            },
            None => Err(RulesError::Parse(parsed.errors)),
        }
    }
}

} // verus!
