use postar::cli::{dry_run_counts, Args, DryRunCounts, Log};
use postar::config::{
    has_single_default, select_server, default_default, default_incoming_folder, default_self_signed_cert, Config, IMAPConfig,
    PostarConfig,
};
use postar::dsl::ast::{Node, ParserConfig, ParserFolder};
use postar::dsl::error::{DslError, LabelColor};
use postar::dsl::lexer::{process_tokens, LexError, Token};
use postar::dsl::parser::{config, folder, matcher, rule, Expected, ParserError, TokenSpan};
use postar::dsl::resolver::{ResolutionError, Resolver};
use postar::dsl::{File, RulesError};
use postar::inbox::{decimal_string, Folder, MailAddress, Message, MessageError, ParsedMail};
use postar::process::{Action, CompiledRegex, Matcher, Rule, StringMatcher};

fn message(raw: &str) -> Message {
    Message::new(Folder::new("INBOX".to_string()), 7, raw.as_bytes().to_vec()).unwrap()
}

fn simple_message(subject: &str) -> Message {
    message(&format!(
        "From: Alice <alice@example.com>\r\nTo: bob@example.com\r\nSubject: {}\r\n\r\nHello Bob.",
        subject
    ))
}

fn rule_file(text: &str) -> File {
    File { file_name: "rules.ptar".to_string(), contents: text.to_string(), lexer_spans: None }
}

fn folder_node(identifier: &str, name: &str, start: usize) -> Node<ParserFolder> {
    Node {
        value: ParserFolder { identifier: identifier.to_string(), name: name.to_string() },
        span: start..start + 10,
    }
}

// ---------------------------------------------------------------------------
// Messages
// ---------------------------------------------------------------------------

#[test]
fn message_fields_are_read_from_the_raw_text() {
    let m = simple_message("Greetings");
    assert_eq!(m.subject.as_deref(), Some("Greetings"));
    assert_eq!(m.from.as_deref(), Some("Alice <alice@example.com>"));
    assert_eq!(m.to.as_deref(), Some(" <bob@example.com>"));
    assert_eq!(m.body, "Hello Bob.");
    assert_eq!(m.uid, 7);
    assert!(m.valid);
    assert_eq!(m.containing_folder.name, "INBOX");
}

#[test]
fn message_addresses_are_joined_with_commas() {
    let m = message(
        "From: a@example.com\r\nTo: Carol <carol@example.com>, dave@example.com\r\nSubject: x\r\n\r\nbody",
    );
    assert_eq!(m.to.as_deref(), Some("Carol <carol@example.com>,  <dave@example.com>"));
}

#[test]
fn message_without_headers_has_no_fields() {
    let m = message("Subject: only a subject\r\n\r\ntext");
    assert_eq!(m.from, None);
    assert_eq!(m.to, None);
    assert_eq!(m.subject.as_deref(), Some("only a subject"));
}

#[test]
fn message_text_parts_are_concatenated_in_order() {
    let raw = "From: a@example.com\r\nSubject: parts\r\nMIME-Version: 1.0\r\nContent-Type: multipart/alternative; boundary=\"XX\"\r\n\r\n--XX\r\nContent-Type: text/plain\r\n\r\nfirst\r\n--XX\r\nContent-Type: text/html\r\n\r\n<p>second</p>\r\n--XX--\r\n";
    let m = message(raw);
    assert_eq!(m.body, "first<p>second</p>");
}

#[test]
fn message_that_does_not_parse_is_an_error() {
    let r = Message::new(Folder::new("INBOX".to_string()), 42, Vec::new());
    assert_eq!(r.err(), Some(MessageError::ParseFailed(42)));
}

#[test]
fn invalid_message_gives_no_uid_or_folder() {
    let mut m = simple_message("x");
    assert_eq!(m.uid(), Some(7));
    assert_eq!(m.uid_set().as_deref(), Some("7"));
    assert_eq!(m.containing_folder().map(|f| f.name.clone()), Some("INBOX".to_string()));
    m.set_invalid();
    assert_eq!(m.uid(), None);
    assert_eq!(m.uid_set(), None);
    assert!(m.containing_folder().is_none());
    assert_eq!(m.subject.as_deref(), Some("x"));
}

#[test]
fn decimal_strings() {
    assert_eq!(decimal_string(0), "0");
    assert_eq!(decimal_string(9), "9");
    assert_eq!(decimal_string(10), "10");
    assert_eq!(decimal_string(4294967295), "4294967295");
}

// ---------------------------------------------------------------------------
// Matching
// ---------------------------------------------------------------------------

#[test]
fn not_negates_a_matcher() {
    let m = simple_message("Invoice");
    let inner = Matcher::Subject(StringMatcher::Contains("invoice".to_string()));
    assert!(inner.matches(&m));
    assert!(!Matcher::Not(Box::new(inner)).matches(&m));
}

#[test]
fn empty_and_matches_and_empty_or_does_not() {
    let m = simple_message("anything");
    assert!(Matcher::And(vec![]).matches(&m));
    assert!(!Matcher::Or(vec![]).matches(&m));
}

#[test]
fn equals_implies_starts_with_implies_contains() {
    let input = "Monthly REPORT";
    assert!(StringMatcher::Equals("monthly report".to_string()).matches(input));
    assert!(StringMatcher::StartsWith("monthly report".to_string()).matches(input));
    assert!(StringMatcher::Contains("monthly report".to_string()).matches(input));
    assert!(StringMatcher::StartsWith("MONTHLY".to_string()).matches(input));
    assert!(!StringMatcher::Equals("MONTHLY".to_string()).matches(input));
    assert!(StringMatcher::Contains("report".to_string()).matches(input));
    assert!(!StringMatcher::StartsWith("report".to_string()).matches(input));
}

#[test]
fn matching_ignores_case_except_for_regex() {
    assert!(StringMatcher::Contains("ÄRGER".to_string()).matches("kein ärger"));
    assert!(StringMatcher::Equals("Straße".to_string()).matches("STRAßE"));
    let re = StringMatcher::Regex(CompiledRegex::new("ärger").unwrap());
    assert!(!re.matches("ÄRGER"));
    assert!(re.matches("ärger"));
}

#[test]
fn longer_pattern_than_value_does_not_match() {
    assert!(!StringMatcher::StartsWith("abcdef".to_string()).matches("abc"));
    assert!(!StringMatcher::Contains("abcdef".to_string()).matches("abc"));
}

#[test]
fn missing_header_does_not_match() {
    let m = message("Subject: s\r\n\r\nbody");
    assert!(!Matcher::From(StringMatcher::Contains("".to_string())).matches(&m));
    assert!(!Matcher::To(StringMatcher::Contains("".to_string())).matches(&m));
    assert!(Matcher::Body(StringMatcher::Contains("".to_string())).matches(&m));
}

#[test]
fn regex_that_does_not_compile_is_an_error() {
    assert!(CompiledRegex::new("(unclosed").is_err());
    let ok = CompiledRegex::new("a+b").unwrap();
    assert_eq!(ok.as_str(), "a+b");
}

#[test]
fn rule_action_is_offered_only_on_a_match() {
    let rule = Rule::new(
        "bills".to_string(),
        Matcher::Subject(StringMatcher::Contains("bill".to_string())),
        Action::Move(Folder::new("Bills".to_string())),
    );
    let hit = simple_message("Your BILL");
    let miss = simple_message("Hello");
    match rule.action_for(&hit) {
        Some(Action::Move(f)) => assert_eq!(f.name, "Bills"),
        other => panic!("unexpected {:?}", other),
    }
    assert!(rule.action_for(&miss).is_none());
    assert_eq!(rule.name, "bills");
}

// ---------------------------------------------------------------------------
// Resolving
// ---------------------------------------------------------------------------

#[test]
fn duplicate_folder_names_both_definitions() {
    let cfg = ParserConfig {
        folder_definitions: vec![
            folder_node("a", "A", 0),
            folder_node("b", "B", 20),
            folder_node("a", "C", 40),
        ],
        rule_definitions: vec![],
    };
    match Resolver::build(&cfg) {
        Err(ResolutionError::DuplicateFolder(id, second, first)) => {
            assert_eq!(id, "a");
            assert_eq!(second, 40..50);
            assert_eq!(first, 0..10);
        }
        _ => panic!("expected a duplicate folder"),
    }
}

#[test]
fn rules_resolve_folder_references_to_names() {
    let mut file = rule_file(
        "folder news { name: \"INBOX.News\" }\nrule r1 { matcher: subject contains \"x\" action: moveto [news] }\nrule r2 { matcher: body regex \"a+\" action: delete }",
    );
    let rules = file.parse_to_rules().unwrap();
    assert_eq!(rules.len(), 2);
    assert_eq!(rules[0].name, "r1");
    assert_eq!(rules[1].name, "r2");
    let m = message("Subject: X marks\r\n\r\naaa");
    match rules[0].action_for(&m) {
        Some(Action::Move(f)) => assert_eq!(f.name, "INBOX.News"),
        other => panic!("unexpected {:?}", other),
    }
    assert!(matches!(rules[1].action_for(&m), Some(Action::Delete)));
    assert!(file.lexer_spans.is_some());
}

#[test]
fn unknown_folder_is_reported_with_its_span() {
    let mut file = rule_file("rule r { matcher: subject contains \"x\" action: moveto [nowhere] }");
    match file.parse_to_rules() {
        Err(RulesError::Resolve(ResolutionError::FolderNotFound(id, span))) => {
            assert_eq!(id, "nowhere");
            assert_eq!(&file.contents[span], "[nowhere]");
        }
        other => panic!("unexpected {:?}", other.map(|r| r.len())),
    }
}

#[test]
fn invalid_regex_is_reported_with_its_span() {
    let mut file = rule_file("rule r { matcher: subject regex \"(\" action: delete }");
    match file.parse_to_rules() {
        Err(RulesError::Resolve(ResolutionError::InvalidRegex(_, span))) => {
            assert_eq!(&file.contents[span], "regex \"(\"");
        }
        other => panic!("unexpected {:?}", other.map(|r| r.len())),
    }
}

#[test]
fn lexing_errors_stop_before_parsing() {
    let mut file = rule_file("rule r { matcher: subject contains \"x\" action: delete } %");
    match file.parse_to_rules() {
        Err(RulesError::Lex(errors)) => {
            assert_eq!(errors.len(), 1);
            assert_eq!(errors[0].span, 56..57);
        }
        other => panic!("unexpected {:?}", other.map(|r| r.len())),
    }
    assert!(file.lexer_spans.is_none());
}

#[test]
fn parse_errors_are_all_returned() {
    let mut file = rule_file("rule { matcher: subject contains \"x\" action: delete }");
    match file.parse_to_rules() {
        Err(RulesError::Parse(errors)) => {
            assert_eq!(errors.len(), 1);
            assert!(matches!(errors[0], ParserError::RuleNotNamed(_)));
        }
        other => panic!("unexpected {:?}", other.map(|r| r.len())),
    }
    assert!(file.lexer_spans.is_some());
}

// ---------------------------------------------------------------------------
// Diagnostics
// ---------------------------------------------------------------------------

#[test]
fn tokens_are_described_for_messages() {
    assert_eq!(Token::KwMoveTo.to_err_string(), "keyword 'moveto'");
    assert_eq!(Token::Ident("x".to_string()).to_err_string(), "an identifier");
    assert_eq!(Token::Str("x".to_string()).to_err_string(), "a string");
    assert_eq!(Token::Colon.to_err_string(), "':'");
}

#[test]
fn expected_found_message_lists_the_alternatives() {
    let err = ParserError::ExpectedFound {
        span: TokenSpan { start: 0, end: 1 },
        expected: vec![
            Expected::Token(Token::KwRule),
            Expected::Token(Token::KwFolder),
            Expected::EndOfInput,
        ],
        found: Some(Token::Colon),
    };
    let d = err.get_diagnostic_messages();
    assert_eq!(d.message, "Expected keyword 'rule' or keyword 'folder' or EOF, found ':'");
    assert_eq!(d.note, None);
    let none = ParserError::ExpectedFound {
        span: TokenSpan { start: 0, end: 1 },
        expected: vec![],
        found: None,
    };
    assert_eq!(none.message(), "Expected , found EOF");
}

#[test]
fn diagnostic_notes() {
    let d = ParserError::InvalidAction(TokenSpan { start: 0, end: 1 }).get_diagnostic_messages();
    assert_eq!(d.message, "Invalid action");
    assert_eq!(d.note.as_deref(), Some("Valid actions are: moveto, delete"));
}

#[test]
fn duplicate_matcher_report_labels_both_occurrences() {
    let spans = vec![0..4, 5..12, 13..20, 21..28];
    let err = ParserError::DuplicateMatcherInRule(
        TokenSpan { start: 1, end: 2 },
        TokenSpan { start: 3, end: 4 },
    );
    let reports = err.reports(&spans);
    assert_eq!(reports.len(), 1);
    let r = &reports[0];
    assert_eq!(r.span, 5..28);
    assert_eq!(r.message.as_deref(), Some("A rule should have exactly one matcher. Duplicates detected"));
    assert_eq!(r.labels.len(), 2);
    assert_eq!(r.labels[0].span, 5..12);
    assert_eq!(r.labels[0].message, "First matcher found here");
    assert_eq!(r.labels[0].color, LabelColor::Red);
    assert_eq!(r.labels[1].span, 21..28);
    assert_eq!(r.labels[1].message, "Second matcher found here");
    assert_eq!(r.labels[1].color, LabelColor::Blue);
}

#[test]
fn combined_errors_are_reported_one_after_the_other() {
    let spans = vec![0..4, 5..9];
    let err = ParserError::CombinedError(
        Box::new(ParserError::NoMatcherInRule(TokenSpan { start: 0, end: 1 })),
        Box::new(ParserError::NoActionInRule(TokenSpan { start: 1, end: 2 })),
    );
    let reports = err.reports(&spans);
    assert_eq!(reports.len(), 2);
    assert_eq!(reports[0].labels[0].message, "Missing matcher");
    assert_eq!(reports[0].span, 0..4);
    assert_eq!(reports[1].labels[0].message, "Missing action");
    assert_eq!(reports[1].span, 5..9);
    assert_eq!(
        reports[1].note.as_deref(),
        Some("A rule should have exactly one action. Define it like so: 'action: delete'")
    );
}

#[test]
fn error_spans_past_the_input_map_to_its_end() {
    let spans = vec![0..4, 5..9];
    let err = ParserError::MissingClosingBrace(TokenSpan { start: 2, end: 2 });
    assert_eq!(err.to_lexer_span(&spans), 9..9);
    assert_eq!(err.to_lexer_span(&vec![]), 0..0);
}

#[test]
fn lexing_error_report() {
    let file = rule_file("rule @");
    let errors = process_tokens(&file).unwrap_err();
    let reports = errors[0].reports(&vec![]);
    assert_eq!(reports.len(), 1);
    assert_eq!(reports[0].span, 5..6);
    assert_eq!(reports[0].message.as_deref(), Some("Syntax error."));
    assert_eq!(reports[0].labels[0].message, "Error detected here");
    let e = LexError { span: 1..2 };
    assert_eq!(e.reports(&vec![])[0].labels[0].span, 1..2);
}

#[test]
fn merge_prefers_the_specific_error() {
    let generic = ParserError::ExpectedFound {
        span: TokenSpan { start: 0, end: 1 },
        expected: vec![Expected::Any],
        found: None,
    };
    let specific = ParserError::InvalidAction(TokenSpan { start: 0, end: 1 });
    assert_eq!(generic.merge(specific), ParserError::InvalidAction(TokenSpan { start: 0, end: 1 }));
    let kept = ParserError::NoActionInRule(TokenSpan { start: 2, end: 3 });
    let other = ParserError::InvalidAction(TokenSpan { start: 0, end: 1 });
    assert_eq!(kept.merge(other), ParserError::NoActionInRule(TokenSpan { start: 2, end: 3 }));
}

#[test]
fn config_parser_reports_unknown_top_level() {
    let file = rule_file("name");
    let tokens: Vec<Token> = process_tokens(&file).unwrap().into_iter().map(|(t, _)| t).collect();
    let result = config().parse(&tokens);
    assert!(result.has_errors());
}

// ---------------------------------------------------------------------------
// Configuration and dry runs
// ---------------------------------------------------------------------------

fn args(polling_delay: Option<u32>) -> Args {
    Args {
        config: None,
        rules: None,
        log: Log::Info,
        server: None,
        db: None,
        polling_delay,
        check: false,
        dry_run: false,
        subcommands: None,
    }
}

fn sample_config() -> Config {
    Config {
        imap: vec![IMAPConfig {
            name: "home".to_string(),
            server: "imap.example.com".to_string(),
            port: 993,
            self_signed_cert: default_self_signed_cert(),
            username: "me".to_string(),
            password: "SECRET-REDACTED".to_string(),
            default: default_default(),
            incoming_folder: default_incoming_folder(),
        }],
        postar: PostarConfig::default(),
    }
}

#[test]
fn configuration_defaults() {
    let c = sample_config();
    assert_eq!(c.postar.polling_delay, 3);
    assert_eq!(c.imap[0].incoming_folder, "INBOX");
    assert!(!c.imap[0].self_signed_cert);
    assert!(!c.imap[0].default);
}

#[test]
fn command_line_polling_delay_wins() {
    let merged = sample_config().merge_with_args(&args(Some(30)));
    assert_eq!(merged.postar.polling_delay, 30);
    let kept = sample_config().merge_with_args(&args(None));
    assert_eq!(kept.postar.polling_delay, 3);
    assert_eq!(kept.imap.len(), 1);
}

#[test]
fn dry_run_counts_every_match() {
    let rules = vec![
        Rule::new(
            "del".to_string(),
            Matcher::Subject(StringMatcher::Contains("spam".to_string())),
            Action::Delete,
        ),
        Rule::new(
            "mv".to_string(),
            Matcher::Subject(StringMatcher::Contains("s".to_string())),
            Action::Move(Folder::new("S".to_string())),
        ),
    ];
    let messages = vec![simple_message("spam"), simple_message("sun"), simple_message("hello")];
    assert_eq!(
        dry_run_counts(&messages, &rules),
        DryRunCounts { deleted: 1, moved: 2, unmatched: 1 }
    );
    assert_eq!(
        dry_run_counts(&vec![], &rules),
        DryRunCounts { deleted: 0, moved: 0, unmatched: 0 }
    );
}

// ---------------------------------------------------------------------------
// Lexing
// ---------------------------------------------------------------------------

#[test]
fn identifiers_are_not_keywords_and_spans_are_ordered() {
    let file = rule_file("folder_x folder  x9_ \"s\"");
    let tokens = process_tokens(&file).unwrap();
    assert_eq!(tokens.len(), 4);
    assert_eq!(tokens[0].0, Token::Ident("folder_x".to_string()));
    assert_eq!(tokens[1].0, Token::KwFolder);
    assert_eq!(tokens[2].0, Token::Ident("x9_".to_string()));
    assert_eq!(tokens[3].0, Token::Str("s".to_string()));
    for w in tokens.windows(2) {
        assert!(w[0].1.start < w[0].1.end);
        assert!(w[0].1.end <= w[1].1.start);
    }
}

// ---------------------------------------------------------------------------
// IMAP requests
// ---------------------------------------------------------------------------

use postar::inbox::imap_inbox::{
    any_after, highest_uid, messages_after, needs_select, top_n_uids, uid_list, uid_range,
    uid_validity_action, uids_after, InboxState, UidValidityAction,
};
use postar::inbox::UIDRange;

#[test]
fn uid_ranges_are_written_like_imap() {
    assert_eq!(uid_range(UIDRange::UID(3), UIDRange::Any), "3:*");
    assert_eq!(uid_range(UIDRange::Any, UIDRange::UID(12)), "*:12");
    assert_eq!(uids_after(0), "1:*");
    assert_eq!(uids_after(41), "42:*");
    assert_eq!(uid_list(&vec![3, 10, 200]), "3,10,200");
    assert_eq!(uid_list(&vec![]), "");
}

#[test]
fn top_uids_are_the_highest_in_ascending_order() {
    let uids = vec![5, 1, 9, 3, 7, 2];
    assert_eq!(top_n_uids(&uids, 3), vec![5, 7, 9]);
    assert_eq!(top_n_uids(&uids, 10), vec![1, 2, 3, 5, 7, 9]);
    assert_eq!(top_n_uids(&uids, 0), Vec::<u32>::new());
    assert_eq!(top_n_uids(&vec![], 4), Vec::<u32>::new());
}

#[test]
fn highest_uid_counts_invalid_messages_as_the_default() {
    let mut a = simple_message("a");
    a.uid = 12;
    let mut b = simple_message("b");
    b.uid = 30;
    b.set_invalid();
    assert_eq!(highest_uid(&vec![a, b], 20), Some(20));
    assert_eq!(highest_uid(&vec![], 20), None);
}

#[test]
fn selecting_and_uid_validity() {
    let inbox = Some(Folder::new("INBOX".to_string()));
    assert!(!needs_select(InboxState::Selected, &inbox, &Folder::new("INBOX".to_string())));
    assert!(needs_select(InboxState::Selected, &inbox, &Folder::new("Spam".to_string())));
    assert!(needs_select(InboxState::Authenticated, &None, &Folder::new("INBOX".to_string())));
    assert_eq!(uid_validity_action(None, 5), UidValidityAction::Insert);
    assert_eq!(uid_validity_action(Some(5), 5), UidValidityAction::Keep);
    assert_eq!(uid_validity_action(Some(4), 5), UidValidityAction::Reset);
}

#[test]
fn notes_name_the_keywords_and_definitions() {
    let span = TokenSpan { start: 0, end: 1 };
    let d = ParserError::ExpectedStringMatcherKeyword(span).get_diagnostic_messages();
    assert_eq!(d.message, "Expected string matcher keyword");
    assert_eq!(d.note.as_deref(), Some("Valid string matchers are: contains, startswith, equals, regex"));
    let d = ParserError::TopLevelDefinition(span).get_diagnostic_messages();
    assert_eq!(d.message, "Expected a definition");
    assert_eq!(
        d.note.as_deref(),
        Some("The top level of the configuration can only contain folder and rule definitions")
    );
}

fn server(name: &str, default: bool) -> IMAPConfig {
    IMAPConfig {
        name: name.to_string(),
        server: "imap.example.com".to_string(),
        port: 993,
        self_signed_cert: false,
        username: "me".to_string(),
        password: "SECRET-REDACTED".to_string(),
        default,
        incoming_folder: "INBOX".to_string(),
    }
}

#[test]
fn server_is_chosen_by_name_or_default() {
    let servers = vec![server("work", false), server("home", true), server("other", true)];
    assert_eq!(select_server(&servers, &Some("other".to_string())), Some(2));
    assert_eq!(select_server(&servers, &None), Some(1));
    assert_eq!(select_server(&servers, &Some("nowhere".to_string())), None);
    assert_eq!(select_server(&vec![server("work", false)], &None), None);
}

fn tokens_of(text: &str) -> Vec<Token> {
    process_tokens(&rule_file(text)).unwrap().into_iter().map(|(t, _)| t).collect()
}

#[test]
fn parentheses_add_no_node() {
    let plain = matcher().parse(&tokens_of("not subject contains \"x\""));
    let once = matcher().parse(&tokens_of("(not subject contains \"x\")"));
    let twice = matcher().parse(&tokens_of("((not subject contains \"x\"))"));
    assert!(!plain.has_errors() && !once.has_errors() && !twice.has_errors());
    let again = matcher().parse(&tokens_of("not subject contains \"x\""));
    assert_eq!(once.into_output(), plain.into_output());
    assert_eq!(twice.into_output(), again.into_output());
}

#[test]
fn concatenated_definitions_keep_their_order() {
    let f1 = "folder a { name: \"A\" }";
    let r1 = "rule r1 { matcher: subject contains \"x\" action: delete }";
    let f2 = "folder b { name: \"B\" }";
    let r2 = "rule r2 { action: moveto [a] matcher: body equals \"y\" }";
    let whole = config().parse(&tokens_of(&format!("{} {} {} {}", f1, r1, f2, r2)));
    assert!(!whole.has_errors());
    let c = whole.into_output().unwrap();
    let fa = folder().parse(&tokens_of(f1)).into_output().unwrap();
    let fb = folder().parse(&tokens_of(f2)).into_output().unwrap();
    let ra = rule().parse(&tokens_of(r1)).into_output().unwrap();
    let rb = rule().parse(&tokens_of(r2)).into_output().unwrap();
    assert_eq!(c.folder_definitions, vec![fa, fb]);
    assert_eq!(c.rule_definitions, vec![ra, rb]);
}

#[test]
fn at_most_one_server_is_the_default() {
    assert!(has_single_default(&vec![]));
    assert!(has_single_default(&vec![server("work", false), server("home", true)]));
    assert!(has_single_default(&vec![server("work", false), server("home", false)]));
    assert!(!has_single_default(&vec![server("work", true), server("x", false), server("home", true)]));
}

fn message_with_uid(uid: u32) -> Message {
    let mut m = simple_message("poll");
    m.uid = uid;
    m
}

#[test]
fn only_messages_after_the_last_seen_uid_are_kept() {
    let fetched = vec![message_with_uid(5), message_with_uid(7), message_with_uid(6), message_with_uid(9)];
    let kept: Vec<u32> = messages_after(fetched, 6).iter().map(|m| m.uid).collect();
    assert_eq!(kept, vec![7, 9]);
    // `6:*` names the highest UID 5 when nothing newer exists.
    let kept = messages_after(vec![message_with_uid(5)], 5);
    assert!(kept.is_empty());
    assert!(!any_after(&vec![5], 5));
    assert!(any_after(&vec![3, 8], 5));
    assert!(!any_after(&vec![], 0));
}

#[test]
fn a_parsed_message_is_formatted() {
    let parsed = ParsedMail {
        subject: Some("Hi".to_string()),
        from: Some(vec![
            MailAddress { name: Some("Alice".to_string()), address: Some("alice@example.com".to_string()) },
            MailAddress { name: None, address: Some("carol@example.com".to_string()) },
        ]),
        to: None,
        parts: vec![Some("one ".to_string()), None, Some("two".to_string())],
    };
    let m = Message::from_parsed(Folder::new("Work".to_string()), 42, parsed);
    assert_eq!(m.containing_folder.name, "Work");
    assert_eq!(m.uid, 42);
    assert_eq!(m.subject.as_deref(), Some("Hi"));
    assert_eq!(m.from.as_deref(), Some("Alice <alice@example.com>,  <carol@example.com>"));
    assert_eq!(m.to, None);
    assert_eq!(m.body, "one two");
    assert!(m.valid);
}

#[test]
fn successive_polls_do_not_repeat_messages() {
    let first = messages_after(vec![message_with_uid(5), message_with_uid(7)], 4);
    let next_seen = highest_uid(&first, 4).unwrap();
    assert_eq!(next_seen, 7);
    // `8:*` names UID 7 again when nothing newer arrived.
    let second = messages_after(vec![message_with_uid(7)], next_seen);
    assert!(second.is_empty());
    let third = messages_after(vec![message_with_uid(7), message_with_uid(8)], next_seen);
    let uids: Vec<u32> = third.iter().map(|m| m.uid).collect();
    assert_eq!(uids, vec![8]);
}
