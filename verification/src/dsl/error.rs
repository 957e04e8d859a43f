use std::ops::Range;
use vstd::prelude::*;

use crate::dsl::lexer::{token_description, LexError, Token};
use crate::dsl::parser::{
    error_span, lexer_span, span_to_lexer_span, Expected, ExpectedModel, ParserError,
    ParserErrorModel,
};

verus! {

broadcast use vstd::string::group_string_axioms;

/// The text shown for an error: a message and an optional note.
#[derive(Debug, Clone)]
pub struct DiagnosticInfo {
    pub message: String,
    pub note: Option<String>,
}

/// The mathematical value of a [`DiagnosticInfo`].
pub struct DiagnosticModel {
    pub message: Seq<char>,
    pub note: Option<Seq<char>>,
}

impl View for DiagnosticInfo {
    type V = DiagnosticModel;

    open spec fn view(&self) -> DiagnosticModel {
        DiagnosticModel { message: self.message@, note: crate::inbox::opt_string_view(self.note) }
    }
}

/// The colour of a label in a report.
#[derive(Debug, Clone, Copy, PartialEq, Eq)]
pub enum LabelColor {
    Red,
    Blue,
}

/// A message attached to a byte range of the source text.
#[derive(Debug, Clone)]
pub struct ReportLabel {
    pub span: Range<usize>,
    pub message: String,
    pub color: LabelColor,
}

/// What is shown of one error: the byte range it is about, an optional
/// headline, the labels and an optional note.
#[derive(Debug, Clone)]
pub struct ErrorReport {
    pub span: Range<usize>,
    pub message: Option<String>,
    pub labels: Vec<ReportLabel>,
    pub note: Option<String>,
}

pub struct ReportLabelModel {
    pub span: Range<usize>,
    pub message: Seq<char>,
    pub color: LabelColor,
}

pub struct ErrorReportModel {
    pub span: Range<usize>,
    pub message: Option<Seq<char>>,
    pub labels: Seq<ReportLabelModel>,
    pub note: Option<Seq<char>>,
}

impl View for ReportLabel {
    type V = ReportLabelModel;

    open spec fn view(&self) -> ReportLabelModel {
        ReportLabelModel { span: self.span, message: self.message@, color: self.color }
    }
}

pub open spec fn labels_view(v: Seq<ReportLabel>) -> Seq<ReportLabelModel> {
    v.map_values(|l: ReportLabel| l@)
}

impl View for ErrorReport {
    type V = ErrorReportModel;

    open spec fn view(&self) -> ErrorReportModel {
        ErrorReportModel {
            span: self.span,
            message: crate::inbox::opt_string_view(self.message),
            labels: labels_view(self.labels@),
            note: crate::inbox::opt_string_view(self.note),
        }
    }
}

pub open spec fn reports_view(v: Seq<ErrorReport>) -> Seq<ErrorReportModel> {
    v.map_values(|r: ErrorReport| r@)
}

/// An error of the rule language that can be shown against the source text.
/// `lexer_spans` are the byte ranges of the file's tokens, which token
/// positions map to.
pub trait DslError {
    /// The reports that show the error.
    fn reports(&self, lexer_spans: &Vec<Range<usize>>) -> Vec<ErrorReport>;
}

// ---------------------------------------------------------------------------
// Messages of parser errors
// ---------------------------------------------------------------------------

/// How an error message names an expected item.
pub open spec fn expected_description(e: ExpectedModel) -> Seq<char> {
    match e {
        ExpectedModel::Token(t) => token_description(t),
        ExpectedModel::Any => "any token"@,
        ExpectedModel::SomethingElse => "something else"@,
        ExpectedModel::EndOfInput => "EOF"@,
    }
}

pub open spec fn expected_descriptions(es: Seq<ExpectedModel>) -> Seq<Seq<char>> {
    es.map_values(|e: ExpectedModel| expected_description(e))
}

/// The texts joined by ` or `.
pub open spec fn join_with_or(v: Seq<Seq<char>>) -> Seq<char>
    decreases v.len(),
{
    if v.len() == 0 {
        seq![]
    } else if v.len() == 1 {
        v[0]
    } else {
        join_with_or(v.drop_last()) + " or "@ + v.last()
    }
}

/// The message and note shown for a parser error.
pub open spec fn diagnostic(e: ParserErrorModel) -> DiagnosticModel {
    match e {
        ParserErrorModel::TopLevelDefinition(_) => DiagnosticModel {
            message: "Expected a definition"@,
            note: Some(
                "The top level of the configuration can only contain folder and rule definitions"@,
            ),
        },
        ParserErrorModel::MissingClosingBrace(_) => DiagnosticModel {
            message: "Missing closing brace"@,
            note: None,
        },
        ParserErrorModel::RuleNotNamed(_) => DiagnosticModel {
            message: "A rule should have a name. Name is missing."@,
            note: None,
        },
        ParserErrorModel::FolderNotNamed(_) => DiagnosticModel {
            message: "A folder should have a name. Name is missing."@,
            note: None,
        },
        ParserErrorModel::NoMatcherInRule(_) => DiagnosticModel {
            message: "Missing matcher"@,
            note: Some(
                "A rule should have exactly one matcher. Define it like so: 'matcher: subject contains ...'"@,
            ),
        },
        ParserErrorModel::NoActionInRule(_) => DiagnosticModel {
            message: "Missing action"@,
            note: Some(
                "A rule should have exactly one action. Define it like so: 'action: delete'"@,
            ),
        },
        ParserErrorModel::ExpectedStringAfterStringMatcher(_) => DiagnosticModel {
            message: "Expected string after string matcher"@,
            note: Some("String matchers require a string argument, e.g., 'contains \"hello\"'"@),
        },
        ParserErrorModel::ExpectedStringMatcherKeyword(_) => DiagnosticModel {
            message: "Expected string matcher keyword"@,
            note: Some("Valid string matchers are: contains, startswith, equals, regex"@),
        },
        ParserErrorModel::ExpectedStringMatcherAfterKeyword(_) => DiagnosticModel {
            message: "Expected string matcher after keyword"@,
            note: Some(
                "Keywords like 'subject', 'from', 'to', 'body' must be followed by a string matcher"@,
            ),
        },
        ParserErrorModel::MatchListAfterLogicalOperator(_) => DiagnosticModel {
            message: "Expected match list after logical operator"@,
            note: Some(
                "Logical operators 'and'/'or' must be followed by a match list in brackets, e.g., 'and [subject contains \"test\"]'"@,
            ),
        },
        ParserErrorModel::IdentifierMoveTo(_) => DiagnosticModel {
            message: "The argument for the moveto action should be an identifier."@,
            note: None,
        },
        ParserErrorModel::InvalidAction(_) => DiagnosticModel {
            message: "Invalid action"@,
            note: Some("Valid actions are: moveto, delete"@),
        },
        ParserErrorModel::ArgumentsFollowAction(_) => DiagnosticModel {
            message: "Arguments should follow this action"@,
            note: Some("Some actions require arguments, for example: `moveto [ ident ]`"@),
        },
        ParserErrorModel::DuplicateMatcherInRule(_, _) => DiagnosticModel {
            message: "Duplicate elements detected"@,
            note: None,
        },
        ParserErrorModel::DuplicateActionInRule(_, _) => DiagnosticModel {
            message: "Duplicate elements detected"@,
            note: None,
        },
        ParserErrorModel::CombinedError(_, _) => DiagnosticModel {
            message: "Multiple parsing errors occurred"@,
            note: None,
        },
        ParserErrorModel::ExpectedFound { expected, found, .. } => DiagnosticModel {
            message: "Expected "@ + join_with_or(expected_descriptions(expected)) + ", found "@
                + match found {
                Some(t) => token_description(t),
                None => "EOF"@,
            },
            note: None,
        },
    }
}

fn expected_to_string(e: &Expected) -> (s: String)
    ensures
        s@ == expected_description(e@),
{
    match e {
        Expected::Token(t) => t.to_err_string(),
        Expected::Any => "any token".to_owned(),
        Expected::SomethingElse => "something else".to_owned(),
        Expected::EndOfInput => "EOF".to_owned(),
    }
}

fn note(s: &str) -> (r: Option<String>)
    ensures
        r matches Some(t) && t@ == s@,
{
    Some(s.to_owned())
}

fn info(message: &str, note: Option<String>) -> (d: DiagnosticInfo)
    ensures
        d.message@ == message@,
        d.note == note,
{
    DiagnosticInfo { message: message.to_owned(), note }
}

/// "Expected a, b or c, found d" for the expected items and the found token.
fn expected_found_message(expected: &Vec<Expected>, found: &Option<Token>) -> (s: String)
    ensures
        s@ == "Expected "@ + join_with_or(
            expected_descriptions(expected@.map_values(|x: Expected| x@)),
        ) + ", found "@ + match found {
            Some(t) => token_description(t@),
            None => "EOF"@,
        },
{
    let ghost descs = expected_descriptions(expected@.map_values(|x: Expected| x@));
    let mut s = "Expected ".to_owned();
    let ghost prefix = s@;
    let mut i: usize = 0;
    proof {
        assert(descs.take(0) =~= Seq::<Seq<char>>::empty());
        assert(s@ =~= prefix + join_with_or(descs.take(0)));
    }
    while i < expected.len()
        invariant
            descs == expected_descriptions(expected@.map_values(|x: Expected| x@)),
            descs.len() == expected@.len(),
            prefix == "Expected "@,
            i <= expected@.len(),
            s@ == prefix + join_with_or(descs.take(i as int)),
        decreases expected@.len() - i,
    {
        let d = expected_to_string(&expected[i]);
        proof {
            assert(descs[i as int] == d@);
            assert(descs.take(i + 1).drop_last() =~= descs.take(i as int));
            if i == 0 {
                assert(descs.take(1) =~= seq![d@]);
            }
        }
        if i > 0 {
            s.append(" or ");
        }
        s.append(d.as_str());
        proof {
            if i == 0 {
                assert(join_with_or(descs.take(0)) =~= Seq::<char>::empty());
            }
        }
        i = i + 1;
    }
    proof {
        assert(descs.take(expected@.len() as int) =~= descs);
    }
    s.append(", found ");
    match found {
        Some(t) => {
            let f = t.to_err_string();
            s.append(f.as_str());
        },
        None => {
            s.append("EOF");
        },
    }
    s
}

impl ParserError {
    /// The message and note shown for this error.
    pub fn get_diagnostic_messages(&self) -> (d: DiagnosticInfo)
        ensures
            d@ == diagnostic(self@),
    {
        match self {
            ParserError::TopLevelDefinition(_) => info(
                "Expected a definition",
                note(
                    "The top level of the configuration can only contain folder and rule definitions",
                ),
            ),
            ParserError::MissingClosingBrace(_) => info("Missing closing brace", None),
            ParserError::RuleNotNamed(_) => info("A rule should have a name. Name is missing.", None),
            ParserError::FolderNotNamed(_) => info(
                "A folder should have a name. Name is missing.",
                None,
            ),
            ParserError::NoMatcherInRule(_) => info(
                "Missing matcher",
                note(
                    "A rule should have exactly one matcher. Define it like so: 'matcher: subject contains ...'",
                ),
            ),
            ParserError::NoActionInRule(_) => info(
                "Missing action",
                note("A rule should have exactly one action. Define it like so: 'action: delete'"),
            ),
            ParserError::ExpectedStringAfterStringMatcher(_) => info(
                "Expected string after string matcher",
                note("String matchers require a string argument, e.g., 'contains \"hello\"'"),
            ),
            ParserError::ExpectedStringMatcherKeyword(_) => info(
                "Expected string matcher keyword",
                note("Valid string matchers are: contains, startswith, equals, regex"),
            ),
            ParserError::ExpectedStringMatcherAfterKeyword(_) => info(
                "Expected string matcher after keyword",
                note(
                    "Keywords like 'subject', 'from', 'to', 'body' must be followed by a string matcher",
                ),
            ),
            ParserError::MatchListAfterLogicalOperator(_) => info(
                "Expected match list after logical operator",
                note(
                    "Logical operators 'and'/'or' must be followed by a match list in brackets, e.g., 'and [subject contains \"test\"]'",
                ),
            ),
            ParserError::IdentifierMoveTo(_) => info(
                "The argument for the moveto action should be an identifier.",
                None,
            ),
            ParserError::InvalidAction(_) => info(
                "Invalid action",
                note("Valid actions are: moveto, delete"),
            ),
            ParserError::ArgumentsFollowAction(_) => info(
                "Arguments should follow this action",
                note("Some actions require arguments, for example: `moveto [ ident ]`"),
            ),
            ParserError::DuplicateMatcherInRule(_, _) => info("Duplicate elements detected", None),
            ParserError::DuplicateActionInRule(_, _) => info("Duplicate elements detected", None),
            ParserError::CombinedError(_, _) => info("Multiple parsing errors occurred", None),
            ParserError::ExpectedFound { expected, found, .. } => DiagnosticInfo {
                message: expected_found_message(expected, found),
                note: None,
            },
        }
    }

    /// The byte range of the source text that the error is about.
    pub fn to_lexer_span(&self, lexer_spans: &Vec<Range<usize>>) -> (r: Range<usize>)
        ensures
            r == lexer_span(error_span(self@), lexer_spans@),
    {
        span_to_lexer_span(self.span(), lexer_spans)
    }

    /// Two errors found at the same place: a generic "expected ..., found
    /// ..." error gives way to the other one.
    pub fn merge(self, other: Self) -> (r: Self)
        ensures
            r@ == crate::dsl::parser::replace_if_expected_found(self@, other@),
    {
        self.replace_if_expected_found(other)
    }

    /// The message shown under the error.
    pub fn message(&self) -> (s: String)
        ensures
            s@ == diagnostic(self@).message,
    {
        self.get_diagnostic_messages().message
    }
}

// ---------------------------------------------------------------------------
// Reports
// ---------------------------------------------------------------------------

pub open spec fn label(span: Range<usize>, message: Seq<char>, color: LabelColor) -> ReportLabelModel {
    ReportLabelModel { span, message, color }
}

/// The report of a duplicate matcher or action: a headline over the whole
/// rule, the first occurrence labelled in red and the second in blue.
pub open spec fn duplicate_report(
    whole: Range<usize>,
    first: Range<usize>,
    second: Range<usize>,
    what: Seq<char>,
) -> ErrorReportModel {
    ErrorReportModel {
        span: whole,
        message: Some("A rule should have exactly one "@ + what + ". Duplicates detected"@),
        labels: seq![
            label(first, "First "@ + what + " found here"@, LabelColor::Red),
            label(second, "Second "@ + what + " found here"@, LabelColor::Blue),
        ],
        note: None,
    }
}

/// The reports of a parser error, given the byte ranges of the tokens: two
/// combined errors are reported one after the other; a duplicate gets its
/// own layout; any other error is its message in red at its place, with its
/// note.
pub open spec fn parser_error_reports(e: ParserErrorModel, ls: Seq<Range<usize>>) -> Seq<
    ErrorReportModel,
>
    decreases e,
{
    let whole = lexer_span(error_span(e), ls);
    match e {
        ParserErrorModel::CombinedError(a, b) => parser_error_reports(*a, ls) + parser_error_reports(
            *b,
            ls,
        ),
        ParserErrorModel::DuplicateMatcherInRule(s1, s2) => seq![
            duplicate_report(whole, lexer_span(s1, ls), lexer_span(s2, ls), "matcher"@),
        ],
        ParserErrorModel::DuplicateActionInRule(s1, s2) => seq![
            duplicate_report(whole, lexer_span(s1, ls), lexer_span(s2, ls), "action"@),
        ],
        _ => seq![
            ErrorReportModel {
                span: whole,
                message: None,
                labels: seq![label(whole, diagnostic(e).message, LabelColor::Red)],
                note: diagnostic(e).note,
            },
        ],
    }
}

/// The report of text that is no token.
pub open spec fn lex_error_report(span: Range<usize>) -> ErrorReportModel {
    ErrorReportModel {
        span,
        message: Some("Syntax error."@),
        labels: seq![label(span, "Error detected here"@, LabelColor::Red)],
        note: None,
    }
}

fn concat(a: &str, b: &str, c: &str) -> (s: String)
    ensures
        s@ == a@ + b@ + c@,
{
    let mut s = a.to_owned();
    s.append(b);
    s.append(c);
    s
}

fn duplicate_report_exec(
    whole: Range<usize>,
    first: Range<usize>,
    second: Range<usize>,
    what: &str,
) -> (r: ErrorReport)
    ensures
        r@ == duplicate_report(whole, first, second, what@),
{
    let labels = vec![
        ReportLabel {
            span: first,
            message: concat("First ", what, " found here"),
            color: LabelColor::Red,
        },
        ReportLabel {
            span: second,
            message: concat("Second ", what, " found here"),
            color: LabelColor::Blue,
        },
    ];
    let r = ErrorReport {
        span: whole,
        message: Some(concat("A rule should have exactly one ", what, ". Duplicates detected")),
        labels,
        note: None,
    };
    assert(labels_view(r.labels@) =~= duplicate_report(whole, first, second, what@).labels);
    r
}

impl ParserError {
    /// The reports of this error, given the byte ranges of the tokens.
    pub fn error_reports(&self, lexer_spans: &Vec<Range<usize>>) -> (r: Vec<ErrorReport>)
        ensures
            reports_view(r@) == parser_error_reports(self@, lexer_spans@),
        decreases self,
    {
        let whole = span_to_lexer_span(self.span(), lexer_spans);
        match self {
            ParserError::CombinedError(a, b) => {
                let mut ra = a.error_reports(lexer_spans);
                let mut rb = b.error_reports(lexer_spans);
                let ghost va = ra@;
                let ghost vb = rb@;
                ra.append(&mut rb);
                assert(reports_view(ra@) =~= reports_view(va) + reports_view(vb));
                ra
            },
            ParserError::DuplicateMatcherInRule(s1, s2) => {
                let rep = duplicate_report_exec(
                    whole,
                    span_to_lexer_span(*s1, lexer_spans),
                    span_to_lexer_span(*s2, lexer_spans),
                    "matcher",
                );
                let v = vec![rep];
                assert(reports_view(v@) =~= parser_error_reports(self@, lexer_spans@));
                v
            },
            ParserError::DuplicateActionInRule(s1, s2) => {
                let rep = duplicate_report_exec(
                    whole,
                    span_to_lexer_span(*s1, lexer_spans),
                    span_to_lexer_span(*s2, lexer_spans),
                    "action",
                );
                let v = vec![rep];
                assert(reports_view(v@) =~= parser_error_reports(self@, lexer_spans@));
                v
            },
            _ => {
                let d = self.get_diagnostic_messages();
                let labels = vec![
                    ReportLabel {
                        span: Range { start: whole.start, end: whole.end },
                        message: d.message,
                        color: LabelColor::Red,
                    },
                ];
                let rep = ErrorReport { span: whole, message: None, labels, note: d.note };
                assert(labels_view(rep.labels@) =~= seq![
                    label(lexer_span(error_span(self@), lexer_spans@), diagnostic(self@).message, LabelColor::Red),
                ]);
                let v = vec![rep];
                assert(reports_view(v@) =~= parser_error_reports(self@, lexer_spans@));
                v
            },
        }
    }
}

impl DslError for ParserError {
    fn reports(&self, lexer_spans: &Vec<Range<usize>>) -> (r: Vec<ErrorReport>)
        ensures
            reports_view(r@) == parser_error_reports(self@, lexer_spans@),
    {
        self.error_reports(lexer_spans)
    }
}

impl DslError for LexError {
    fn reports(&self, lexer_spans: &Vec<Range<usize>>) -> (r: Vec<ErrorReport>)
        ensures
            reports_view(r@) == seq![lex_error_report(self.span)],
    {
        let labels = vec![
            ReportLabel {
                span: Range { start: self.span.start, end: self.span.end },
                message: "Error detected here".to_owned(),
                color: LabelColor::Red,
            },
        ];
        let rep = ErrorReport {
            span: Range { start: self.span.start, end: self.span.end },
            message: Some("Syntax error.".to_owned()),
            labels,
            note: None,
        };
        assert(labels_view(rep.labels@) =~= lex_error_report(self.span).labels);
        let v = vec![rep];
        assert(reports_view(v@) =~= seq![lex_error_report(self.span)]);
        v
    }
}

} // verus!
