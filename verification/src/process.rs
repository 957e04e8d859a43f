use vstd::prelude::*;

use crate::dsl::ast::StringMatcherModel;
use crate::inbox::{
    answer_view, invalidated, Folder, Inbox, InboxError, InboxRequest, Message, MessageModel,
};
use crate::text::chars_of;

verus! {

broadcast use vstd::string::group_string_axioms;

// ---------------------------------------------------------------------------
// Regular expressions and case folding
// ---------------------------------------------------------------------------

/// `regex::Regex`, carried through opaquely.
#[verifier::external_type_specification]
#[verifier::external_body]
pub struct ExRegex(regex::Regex);

/// `regex::Error`, the reason a pattern did not compile.
#[verifier::external_type_specification]
#[verifier::external_body]
pub struct ExRegexError(regex::Error);

/// Whether `regex::Regex::new` accepts this pattern.
pub uninterp spec fn regex_compiles(pattern: Seq<char>) -> bool;

/// Whether `regex::Regex::is_match`, for the regex compiled from `pattern`,
/// finds a match anywhere in `haystack`.
pub uninterp spec fn regex_matches(pattern: Seq<char>, haystack: Seq<char>) -> bool;

/// The result of std's `str::to_lowercase` on these characters.
pub uninterp spec fn lowercase(s: Seq<char>) -> Seq<char>;

/// Compiles a pattern with `regex::Regex::new`.
///
/// Trusted: the contract only says that compiling succeeds exactly when
/// `regex_compiles` holds of the pattern; what the regex is stays opaque.
#[verifier::external_body]
fn compile_regex(pattern: &str) -> (r: Result<regex::Regex, regex::Error>)
    ensures
        r is Ok <==> regex_compiles(pattern@),
{
    regex::Regex::new(pattern)
}

/// Every character is ASCII.
pub open spec fn is_ascii_text(s: Seq<char>) -> bool {
    forall|i: int| 0 <= i < s.len() ==> (#[trigger] s[i] as u32) < 128
}

/// `A`-`Z` to `a`-`z`; every other character stays.
pub open spec fn ascii_lower_char(c: char) -> char {
    if 'A' <= c && c <= 'Z' {
        ((c as u32) + 32) as char
    } else {
        c
    }
}

/// The text with `A`-`Z` turned into `a`-`z`.
pub open spec fn ascii_lowercase(s: Seq<char>) -> Seq<char> {
    s.map_values(|c: char| ascii_lower_char(c))
}

/// std's `str::to_lowercase`.
///
/// Trusted: the result is named `lowercase` of the input; the empty string
/// stays empty (std maps each character to its lowercase form, so nothing
/// comes of nothing); and an ASCII text has `A`-`Z` mapped to `a`-`z` and
/// every other character kept, one for one (std: the Unicode lowercase of
/// an ASCII letter is its ASCII lowercase, and other ASCII characters have
/// no case).
#[verifier::external_body]
fn to_lowercase(s: &str) -> (r: String)
    ensures
        r@ == lowercase(s@),
        s@.len() == 0 ==> r@.len() == 0,
        is_ascii_text(s@) ==> r@ == ascii_lowercase(s@),
{
    s.to_lowercase()
}

/// A compiled regular expression together with the pattern it was compiled
/// from. The only way to make one is [`CompiledRegex::new`], so the regex
/// always belongs to the pattern.
#[derive(Debug)]
pub struct CompiledRegex {
    pattern: String,
    regex: regex::Regex,
}

impl View for CompiledRegex {
    type V = Seq<char>;

    closed spec fn view(&self) -> Seq<char> {
        self.pattern@
    }
}

/// Runs `regex::Regex::is_match` of the compiled regex on a haystack.
///
/// Trusted: the result is named `regex_matches` of the regex's pattern and
/// the haystack. This holds because a `CompiledRegex` is only built by
/// compiling its own pattern.
#[verifier::external_body]
fn regex_is_match(re: &CompiledRegex, haystack: &str) -> (b: bool)
    ensures
        b == regex_matches(re@, haystack@),
{
    re.regex.is_match(haystack)
}

impl CompiledRegex {
    /// Compiles `pattern`. Fails, with the regex crate's error, exactly when
    /// the regex crate rejects the pattern.
    pub fn new(pattern: &str) -> (r: Result<CompiledRegex, regex::Error>)
        ensures
            r is Ok <==> regex_compiles(pattern@),
            r matches Ok(c) ==> c@ == pattern@,
    {
        match compile_regex(pattern) {
            Ok(regex) => Ok(CompiledRegex { pattern: pattern.to_owned(), regex }),
            Err(e) => Err(e),
        }
    }

    /// The pattern the regex was compiled from.
    pub fn as_str(&self) -> (s: &str)
        ensures
            s@ == self@,
    {
        self.pattern.as_str()
    }
}

// ---------------------------------------------------------------------------
// Searching in character sequences
// ---------------------------------------------------------------------------

/// `needle` occurs somewhere in `hay`.
pub open spec fn seq_contains(hay: Seq<char>, needle: Seq<char>) -> bool {
    exists|i: int|
        0 <= i && i + needle.len() <= hay.len() && #[trigger] hay.subrange(i, i + needle.len())
            == needle
}

/// `hay` begins with `needle`.
pub open spec fn seq_starts_with(hay: Seq<char>, needle: Seq<char>) -> bool {
    needle.len() <= hay.len() && hay.subrange(0, needle.len() as int) == needle
}

/// Whether `needle` occurs in `hay` at position `at`.
fn occurs_at(hay: &Vec<char>, needle: &Vec<char>, at: usize) -> (b: bool)
    requires
        at + needle@.len() <= hay@.len(),
    ensures
        b == (hay@.subrange(at as int, at + needle@.len()) == needle@),
{
    let n = needle.len();
    let hl = hay.len();
    let mut j: usize = 0;
    while j < n
        invariant
            n == needle@.len(),
            hl == hay@.len(),
            at + n <= hay@.len(),
            j <= n,
            forall|k: int| 0 <= k < j ==> hay@[at + k] == needle@[k],
        decreases n - j,
    {
        if hay[at + j] != needle[j] {
            assert(hay@.subrange(at as int, at + n)[j as int] != needle@[j as int]);
            return false;
        }
        j = j + 1;
    }
    assert(hay@.subrange(at as int, at + n) =~= needle@);
    true
}

/// Whether `needle` occurs somewhere in `hay`.
fn contains_chars(hay: &Vec<char>, needle: &Vec<char>) -> (b: bool)
    ensures
        b == seq_contains(hay@, needle@),
{
    if needle.len() > hay.len() {
        return false;
    }
    let last = hay.len() - needle.len();
    let mut i: usize = 0;
    loop
        invariant
            last == hay@.len() - needle@.len(),
            needle@.len() <= hay@.len(),
            i <= last,
            forall|k: int|
                0 <= k < i ==> #[trigger] hay@.subrange(k, k + needle@.len()) != needle@,
        decreases last - i,
    {
        if occurs_at(hay, needle, i) {
            return true;
        }
        if i == last {
            return false;
        }
        i = i + 1;
    }
}

// ---------------------------------------------------------------------------
// Matchers
// ---------------------------------------------------------------------------

/// Matches a string value.
#[derive(Debug)]
pub enum StringMatcher {
    /// Matches if the value contains the string. Case-insensitive.
    Contains(String),
    /// Matches if the value starts with the string. Case-insensitive.
    StartsWith(String),
    /// Matches if the value equals the string. Case-insensitive.
    Equals(String),
    /// Matches if the regex matches anywhere in the value.
    Regex(CompiledRegex),
}

impl View for StringMatcher {
    type V = StringMatcherModel;

    open spec fn view(&self) -> StringMatcherModel {
        match self {
            StringMatcher::Contains(s) => StringMatcherModel::Contains(s@),
            StringMatcher::StartsWith(s) => StringMatcherModel::StartsWith(s@),
            StringMatcher::Equals(s) => StringMatcherModel::Equals(s@),
            StringMatcher::Regex(r) => StringMatcherModel::Regex(r@),
        }
    }
}

/// Whether a string matcher matches `input`: the three string comparisons
/// compare the lowercase forms, a regex is run on the input as it is.
pub open spec fn string_matches(sm: StringMatcherModel, input: Seq<char>) -> bool {
    match sm {
        StringMatcherModel::Contains(p) => seq_contains(lowercase(input), lowercase(p)),
        StringMatcherModel::StartsWith(p) => seq_starts_with(lowercase(input), lowercase(p)),
        StringMatcherModel::Equals(p) => lowercase(input) == lowercase(p),
        StringMatcherModel::Regex(p) => regex_matches(p, input),
    }
}

/// The pattern of a string matcher.
pub open spec fn matcher_pattern(sm: StringMatcherModel) -> Seq<char> {
    match sm {
        StringMatcherModel::Contains(p) => p,
        StringMatcherModel::StartsWith(p) => p,
        StringMatcherModel::Equals(p) => p,
        StringMatcherModel::Regex(p) => p,
    }
}

/// [`string_matches`] for ASCII values and patterns, where lowercasing is
/// turning `A`-`Z` into `a`-`z`.
pub open spec fn ascii_string_matches(sm: StringMatcherModel, input: Seq<char>) -> bool {
    match sm {
        StringMatcherModel::Contains(p) => seq_contains(ascii_lowercase(input), ascii_lowercase(p)),
        StringMatcherModel::StartsWith(p) => seq_starts_with(
            ascii_lowercase(input),
            ascii_lowercase(p),
        ),
        StringMatcherModel::Equals(p) => ascii_lowercase(input) == ascii_lowercase(p),
        StringMatcherModel::Regex(p) => regex_matches(p, input),
    }
}

impl StringMatcher {
    /// Whether the matcher matches `input`.
    ///
    /// An empty `Contains` or `StartsWith` pattern matches every input, and
    /// an empty `Equals` pattern matches the empty input.
    pub fn matches(&self, input: &str) -> (b: bool)
        ensures
            b == string_matches(self@, input@),
            self@ matches StringMatcherModel::Contains(p) && p.len() == 0 ==> b,
            self@ matches StringMatcherModel::StartsWith(p) && p.len() == 0 ==> b,
            self@ matches StringMatcherModel::Equals(p) && p.len() == 0 && input@.len() == 0 ==> b,
            is_ascii_text(input@) && is_ascii_text(matcher_pattern(self@)) ==> b
                == ascii_string_matches(self@, input@),
    {
        match self {
            StringMatcher::Contains(pattern) => {
                let hay = chars_of(to_lowercase(input).as_str());
                let needle = chars_of(to_lowercase(pattern.as_str()).as_str());
                let b = contains_chars(&hay, &needle);
                proof {
                    if needle@.len() == 0 {
                        assert(hay@.subrange(0int, 0int + needle@.len()) =~= needle@);
                    }
                }
                b
            },
            StringMatcher::StartsWith(pattern) => {
                let hay = chars_of(to_lowercase(input).as_str());
                let needle = chars_of(to_lowercase(pattern.as_str()).as_str());
                if needle.len() > hay.len() {
                    false
                } else {
                    let b = occurs_at(&hay, &needle, 0);
                    proof {
                        if needle@.len() == 0 {
                            assert(hay@.subrange(0, 0) =~= needle@);
                        }
                    }
                    b
                }
            },
            StringMatcher::Equals(pattern) => {
                let a = to_lowercase(input);
                let b = to_lowercase(pattern.as_str());
                let r = a == b;
                proof {
                    if a@.len() == 0 && b@.len() == 0 {
                        assert(a@ =~= b@);
                    }
                }
                r
            },
            StringMatcher::Regex(re) => regex_is_match(re, input),
        }
    }
}

/// A condition on a message.
#[derive(Debug)]
pub enum Matcher {
    /// All of the matchers match.
    And(Vec<Matcher>),
    /// At least one of the matchers matches.
    Or(Vec<Matcher>),
    /// The matcher does not match.
    Not(Box<Matcher>),
    /// The subject matches; a message without a subject does not match.
    Subject(StringMatcher),
    /// The From field matches; a message without one does not match.
    From(StringMatcher),
    /// The To field matches; a message without one does not match.
    To(StringMatcher),
    /// The body matches.
    Body(StringMatcher),
}

/// The mathematical value of a [`Matcher`].
pub enum MatcherSpec {
    And(Seq<MatcherSpec>),
    Or(Seq<MatcherSpec>),
    Not(Box<MatcherSpec>),
    Subject(StringMatcherModel),
    From(StringMatcherModel),
    To(StringMatcherModel),
    Body(StringMatcherModel),
}

/// The model of a matcher.
pub open spec fn matcher_spec(m: Matcher) -> MatcherSpec
    decreases m,
{
    match m {
        Matcher::And(v) => MatcherSpec::And(
            Seq::new(
                v@.len(),
                |i: int|
                    if 0 <= i < v@.len() {
                        matcher_spec(v@[i])
                    } else {
                        arbitrary()
                    },
            ),
        ),
        Matcher::Or(v) => MatcherSpec::Or(
            Seq::new(
                v@.len(),
                |i: int|
                    if 0 <= i < v@.len() {
                        matcher_spec(v@[i])
                    } else {
                        arbitrary()
                    },
            ),
        ),
        Matcher::Not(b) => MatcherSpec::Not(Box::new(matcher_spec(*b))),
        Matcher::Subject(s) => MatcherSpec::Subject(s@),
        Matcher::From(s) => MatcherSpec::From(s@),
        Matcher::To(s) => MatcherSpec::To(s@),
        Matcher::Body(s) => MatcherSpec::Body(s@),
    }
}

impl View for Matcher {
    type V = MatcherSpec;

    open spec fn view(&self) -> MatcherSpec {
        matcher_spec(*self)
    }
}

/// A string matcher applied to a header field that may be missing.
pub open spec fn field_matches(sm: StringMatcherModel, field: Option<Seq<char>>) -> bool {
    match field {
        Some(s) => string_matches(sm, s),
        None => false,
    }
}

/// Whether a matcher matches a message.
pub open spec fn matches_spec(m: MatcherSpec, msg: MessageModel) -> bool
    decreases m,
{
    match m {
        MatcherSpec::And(ms) => forall|i: int|
            0 <= i < ms.len() ==> matches_spec(#[trigger] ms[i], msg),
        MatcherSpec::Or(ms) => exists|i: int| 0 <= i < ms.len() && matches_spec(#[trigger] ms[i], msg),
        MatcherSpec::Not(b) => !matches_spec(*b, msg),
        MatcherSpec::Subject(sm) => field_matches(sm, msg.subject),
        MatcherSpec::From(sm) => field_matches(sm, msg.from),
        MatcherSpec::To(sm) => field_matches(sm, msg.to),
        MatcherSpec::Body(sm) => string_matches(sm, msg.body),
    }
}

/// `and` matches exactly when each of its matchers does.
pub proof fn lemma_and(ms: Seq<MatcherSpec>, msg: MessageModel)
    ensures
        matches_spec(MatcherSpec::And(ms), msg) <==> forall|i: int|
            0 <= i < ms.len() ==> #[trigger] matches_spec(ms[i], msg),
{
    let m = MatcherSpec::And(ms);
    if matches_spec(m, msg) {
        assert forall|i: int| 0 <= i < ms.len() implies #[trigger] matches_spec(ms[i], msg) by {
            assert(decreases_to!(m => m->And_0));
            assert(decreases_to!(ms => ms[i]));
            assert(decreases_to!(m => ms[i]));
            assert(matches_spec(m, msg));
        }
    }
    if forall|i: int| 0 <= i < ms.len() ==> #[trigger] matches_spec(ms[i], msg) {
        assert forall|i: int| 0 <= i < ms.len() implies matches_spec(#[trigger] ms[i], msg) by {
            assert(decreases_to!(m => m->And_0));
            assert(decreases_to!(ms => ms[i]));
            assert(decreases_to!(m => ms[i]));
        }
        assert(matches_spec(m, msg));
    }
}

/// `or` matches exactly when one of its matchers does.
pub proof fn lemma_or(ms: Seq<MatcherSpec>, msg: MessageModel)
    ensures
        matches_spec(MatcherSpec::Or(ms), msg) <==> exists|i: int|
            0 <= i < ms.len() && #[trigger] matches_spec(ms[i], msg),
{
    let m = MatcherSpec::Or(ms);
    if matches_spec(m, msg) {
        let i = choose|i: int| 0 <= i < ms.len() && matches_spec(#[trigger] ms[i], msg);
        assert(decreases_to!(m => m->Or_0));
        assert(decreases_to!(ms => ms[i]));
        assert(decreases_to!(m => ms[i]));
        assert(matches_spec(ms[i], msg));
    }
    if exists|i: int| 0 <= i < ms.len() && #[trigger] matches_spec(ms[i], msg) {
        let i = choose|i: int| 0 <= i < ms.len() && #[trigger] matches_spec(ms[i], msg);
        assert(decreases_to!(m => m->Or_0));
        assert(decreases_to!(ms => ms[i]));
        assert(decreases_to!(m => ms[i]));
        assert(matches_spec(m, msg));
    }
}

fn field_matches_exec(sm: &StringMatcher, field: &Option<String>) -> (b: bool)
    ensures
        b == field_matches(sm@, crate::inbox::opt_string_view(*field)),
{
    match field {
        Some(s) => sm.matches(s.as_str()),
        None => false,
    }
}

impl Matcher {
    /// Whether the message matches.
    pub fn matches(&self, message: &Message) -> (b: bool)
        ensures
            b == matches_spec(self@, message@),
        decreases self,
    {
        match self {
            Matcher::And(ms) => {
                let ghost s = self@;
                let mut i: usize = 0;
                while i < ms.len()
                    invariant
                        *self == Matcher::And(*ms),
                        s == self@,
                        i <= ms@.len(),
                        forall|j: int| 0 <= j < i ==> matches_spec(#[trigger] ms@[j]@, message@),
                    decreases ms@.len() - i,
                {
                    if !ms[i].matches(message) {
                        assert(s->And_0[i as int] == ms@[i as int]@);
                        proof {
                            lemma_and(s->And_0, message@);
                        }
                        return false;
                    }
                    i = i + 1;
                }
                assert forall|j: int| 0 <= j < s->And_0.len() implies #[trigger] matches_spec(
                    s->And_0[j],
                    message@,
                ) by {
                    assert(s->And_0[j] == ms@[j]@);
                }
                proof {
                    lemma_and(s->And_0, message@);
                }
                true
            },
            Matcher::Or(ms) => {
                let ghost s = self@;
                let mut i: usize = 0;
                while i < ms.len()
                    invariant
                        *self == Matcher::Or(*ms),
                        s == self@,
                        i <= ms@.len(),
                        forall|j: int| 0 <= j < i ==> !matches_spec(#[trigger] ms@[j]@, message@),
                    decreases ms@.len() - i,
                {
                    if ms[i].matches(message) {
                        assert(s->Or_0[i as int] == ms@[i as int]@);
                        assert(matches_spec(s->Or_0[i as int], message@));
                        proof {
                            lemma_or(s->Or_0, message@);
                        }
                        return true;
                    }
                    i = i + 1;
                }
                assert forall|j: int| 0 <= j < s->Or_0.len() implies !#[trigger] matches_spec(
                    s->Or_0[j],
                    message@,
                ) by {
                    assert(s->Or_0[j] == ms@[j]@);
                }
                proof {
                    lemma_or(s->Or_0, message@);
                }
                false
            },
            Matcher::Not(m) => !m.matches(message),
            Matcher::Subject(sm) => field_matches_exec(sm, &message.subject),
            Matcher::From(sm) => field_matches_exec(sm, &message.from),
            Matcher::To(sm) => field_matches_exec(sm, &message.to),
            Matcher::Body(sm) => sm.matches(message.body.as_str()),
        }
    }
}

// ---------------------------------------------------------------------------
// Actions and rules
// ---------------------------------------------------------------------------

/// What a rule does with a message that it matches.
#[derive(Debug)]
pub enum Action {
    Delete,
    Move(Folder),
}

/// The mathematical value of an [`Action`]: the destination folder's name
/// for a move.
pub enum ActionSpec {
    Delete,
    Move(Seq<char>),
}

impl View for Action {
    type V = ActionSpec;

    open spec fn view(&self) -> ActionSpec {
        match self {
            Action::Delete => ActionSpec::Delete,
            Action::Move(f) => ActionSpec::Move(f.name@),
        }
    }
}

/// The request an action makes of an inbox for a message, with the answer.
pub open spec fn action_request(
    a: ActionSpec,
    message: MessageModel,
    answer: Result<(), Seq<char>>,
) -> InboxRequest {
    match a {
        ActionSpec::Delete => InboxRequest::Delete { message, answer },
        ActionSpec::Move(destination) => InboxRequest::Move { message, destination, answer },
    }
}

impl Action {
    /// Carries out the action on `message` through `inbox`: a delete
    /// deletes it, a move moves it to the folder. The inbox's answer is
    /// handed back; once the action succeeded, the message is no longer
    /// valid, and an action that failed leaves it as it was. Moving a
    /// message that is no longer valid succeeds and changes nothing.
    pub fn execute<I: Inbox>(&self, inbox: &mut I, message: &mut Message) -> (r: Result<
        (),
        InboxError,
    >)
        ensures
            final(inbox).requests() == old(inbox).requests().push(
                action_request(self@, old(message)@, answer_view(r)),
            ),
            r is Ok ==> final(message)@ == invalidated(old(message)@),
            r is Err ==> *final(message) == *old(message),
            self@ is Move && !old(message).valid ==> r is Ok && *final(message) == *old(message),
    {
        match self {
            Action::Delete => inbox.delete_message(message),
            Action::Move(folder) => inbox.move_message_to_folder(message, folder),
        }
    }
}

/// A named rule: when its matcher matches a message, its action is carried
/// out on the message.
#[derive(Debug)]
pub struct Rule {
    pub name: String,
    matcher: Matcher,
    action: Action,
}

/// The mathematical value of a [`Rule`].
pub struct RuleSpec {
    pub name: Seq<char>,
    pub matcher: MatcherSpec,
    pub action: ActionSpec,
}

impl View for Rule {
    type V = RuleSpec;

    closed spec fn view(&self) -> RuleSpec {
        RuleSpec { name: self.name@, matcher: self.matcher@, action: self.action@ }
    }
}

impl Rule {
    /// Constructs a new rule.
    pub fn new(name: String, matcher: Matcher, action: Action) -> (r: Rule)
        ensures
            r@ == (RuleSpec { name: name@, matcher: matcher@, action: action@ }),
    {
        Rule { name, matcher, action }
    }

    /// The action to carry out on `message`: the rule's action when its
    /// matcher matches the message, else none.
    pub fn action_for(&self, message: &Message) -> (r: Option<&Action>)
        ensures
            r is Some <==> matches_spec(self@.matcher, message@),
            r matches Some(a) ==> a@ == self@.action,
    {
        if self.matcher.matches(message) {
            Some(&self.action)
        } else {
            None
        }
    }

    /// Checks whether the message matches the rule's matcher and, if it
    /// does, carries out the rule's action through `inbox`. A message that
    /// does not match leaves the message and the inbox as they were.
    pub fn match_and_execute<I: Inbox>(&self, inbox: &mut I, message: &mut Message) -> (r: Result<
        (),
        InboxError,
    >)
        ensures
            !matches_spec(self@.matcher, old(message)@) ==> {
                &&& r is Ok
                &&& *final(message) == *old(message)
                &&& *final(inbox) == *old(inbox)
            },
            matches_spec(self@.matcher, old(message)@) ==> {
                &&& final(inbox).requests() == old(inbox).requests().push(
                    action_request(self@.action, old(message)@, answer_view(r)),
                )
                &&& r is Ok ==> final(message)@ == invalidated(old(message)@)
                &&& r is Err ==> *final(message) == *old(message)
                &&& self@.action is Move && !old(message).valid ==> r is Ok && *final(message)
                    == *old(message)
            },
    {
        match self.action_for(message) {
            Some(action) => action.execute(inbox, message),
            None => Ok(()),
        }
    }
}

/// The outcome of a rule on a message, with the error taken by its message:
/// `None` when the rule's matcher did not match, else the inbox's answer to
/// the rule's action.
pub open spec fn outcome_view(o: Option<Result<(), InboxError>>) -> Option<Result<(), Seq<char>>> {
    match o {
        Some(r) => Some(answer_view(r)),
        None => None,
    }
}

/// The outcomes of the rules, each taken by [`outcome_view`].
pub open spec fn outcomes_view(v: Seq<Option<Result<(), InboxError>>>) -> Seq<
    Option<Result<(), Seq<char>>>,
> {
    v.map_values(|o: Option<Result<(), InboxError>>| outcome_view(o))
}

/// Whether a message that was `valid` still is after these outcomes: no
/// action on it succeeded.
pub open spec fn still_valid(valid: bool, done: Seq<Option<Result<(), Seq<char>>>>) -> bool
    decreases done.len(),
{
    if done.len() == 0 {
        valid
    } else {
        still_valid(valid, done.drop_last()) && done.last() != Some(Ok::<(), Seq<char>>(()))
    }
}

/// The message as the rules left it after these outcomes.
pub open spec fn message_after(msg: MessageModel, done: Seq<Option<Result<(), Seq<char>>>>) -> MessageModel {
    MessageModel { valid: still_valid(msg.valid, done), ..msg }
}

/// The requests that the first `done.len()` rules made of an inbox for the
/// message `msg`, given their outcomes: one for each rule that matched,
/// in the order of the rules, each about the message as it was then.
pub open spec fn rules_requests(
    rules: Seq<Rule>,
    msg: MessageModel,
    done: Seq<Option<Result<(), Seq<char>>>>,
) -> Seq<InboxRequest>
    decreases done.len(),
{
    if done.len() == 0 {
        seq![]
    } else {
        let before = done.drop_last();
        let earlier = rules_requests(rules, msg, before);
        match done.last() {
            None => earlier,
            Some(a) => earlier.push(
                action_request(rules[before.len() as int]@.action, message_after(msg, before), a),
            ),
        }
    }
}

/// Applies each rule in turn to a message, as a message that arrives is
/// handled: a rule whose matcher matches has its action carried out, and an
/// action that fails does not stop the rules after it. Gives each rule's
/// outcome: `None` when it did not match, else the inbox's answer.
pub fn apply_rules<I: Inbox>(rules: &Vec<Rule>, inbox: &mut I, message: &mut Message) -> (outcomes:
    Vec<Option<Result<(), InboxError>>>)
    ensures
        outcomes@.len() == rules@.len(),
        forall|i: int|
            0 <= i < rules@.len() ==> ((#[trigger] outcomes@[i]) is Some <==> matches_spec(
                rules@[i]@.matcher,
                old(message)@,
            )),
        final(inbox).requests() == old(inbox).requests() + rules_requests(
            rules@,
            old(message)@,
            outcomes_view(outcomes@),
        ),
        final(message)@ == message_after(old(message)@, outcomes_view(outcomes@)),
{
    let ghost msg0 = message@;
    let ghost log0 = inbox.requests();
    let mut outcomes: Vec<Option<Result<(), InboxError>>> = Vec::new();
    let mut i: usize = 0;
    while i < rules.len()
        invariant
            i <= rules@.len(),
            outcomes@.len() == i,
            forall|k: int|
                0 <= k < i ==> ((#[trigger] outcomes@[k]) is Some <==> matches_spec(
                    rules@[k]@.matcher,
                    msg0,
                )),
            inbox.requests() == log0 + rules_requests(rules@, msg0, outcomes_view(outcomes@)),
            message@ == message_after(msg0, outcomes_view(outcomes@)),
        decreases rules@.len() - i,
    {
        let ghost before = outcomes_view(outcomes@);
        let ghost msg_i = message@;
        proof {
            lemma_matches_ignore_valid(rules@[i as int]@.matcher, msg_i, msg0);
        }
        let o = match rules[i].action_for(message) {
            Some(action) => Some(action.execute(inbox, message)),
            None => None,
        };
        outcomes.push(o);
        proof {
            let done = outcomes_view(outcomes@);
            assert(done =~= before.push(outcome_view(o)));
            assert(done.drop_last() =~= before);
            assert(log0 + rules_requests(rules@, msg0, before).push(
                action_request(rules@[i as int]@.action, msg_i, answer_view(o->0)),
            ) =~= (log0 + rules_requests(rules@, msg0, before)).push(
                action_request(rules@[i as int]@.action, msg_i, answer_view(o->0)),
            ));
            assert(message@ == message_after(msg0, done));
        }
        i = i + 1;
    }
    outcomes
}

proof fn lemma_same_parts(ms: Seq<MatcherSpec>, a: MessageModel, b: MessageModel)
    requires
        forall|i: int|
            #![trigger matches_spec(ms[i], a)]
            #![trigger matches_spec(ms[i], b)]
            0 <= i < ms.len() ==> matches_spec(ms[i], a) == matches_spec(ms[i], b),
    ensures
        matches_spec(MatcherSpec::And(ms), a) == matches_spec(MatcherSpec::And(ms), b),
        matches_spec(MatcherSpec::Or(ms), a) == matches_spec(MatcherSpec::Or(ms), b),
{
    lemma_and(ms, a);
    lemma_and(ms, b);
    lemma_or(ms, a);
    lemma_or(ms, b);
    if matches_spec(MatcherSpec::And(ms), a) {
        assert forall|i: int| 0 <= i < ms.len() implies #[trigger] matches_spec(ms[i], b) by {
            assert(matches_spec(ms[i], a));
        }
    }
    if matches_spec(MatcherSpec::And(ms), b) {
        assert forall|i: int| 0 <= i < ms.len() implies #[trigger] matches_spec(ms[i], a) by {
            assert(matches_spec(ms[i], b));
        }
    }
    if matches_spec(MatcherSpec::Or(ms), a) {
        let w = choose|i: int| 0 <= i < ms.len() && #[trigger] matches_spec(ms[i], a);
        assert(matches_spec(ms[w], b));
    }
    if matches_spec(MatcherSpec::Or(ms), b) {
        let w = choose|i: int| 0 <= i < ms.len() && #[trigger] matches_spec(ms[i], b);
        assert(matches_spec(ms[w], a));
    }
}

/// A matcher does not look at whether a message is still valid: two
/// messages with the same fields give it the same outcome.
pub proof fn lemma_matches_ignore_valid(m: MatcherSpec, a: MessageModel, b: MessageModel)
    requires
        a.subject == b.subject,
        a.from == b.from,
        a.to == b.to,
        a.body == b.body,
    ensures
        matches_spec(m, a) == matches_spec(m, b),
    decreases m,
{
    match m {
        MatcherSpec::And(ms) => {
            assert forall|i: int| 0 <= i < ms.len() implies #[trigger] matches_spec(ms[i], a)
                == matches_spec(ms[i], b) by {
                assert(decreases_to!(m => m->And_0));
                assert(decreases_to!(ms => ms[i]));
                lemma_matches_ignore_valid(ms[i], a, b);
            }
            lemma_same_parts(ms, a, b);
        },
        MatcherSpec::Or(ms) => {
            assert forall|i: int| 0 <= i < ms.len() implies #[trigger] matches_spec(ms[i], a)
                == matches_spec(ms[i], b) by {
                assert(decreases_to!(m => m->Or_0));
                assert(decreases_to!(ms => ms[i]));
                lemma_matches_ignore_valid(ms[i], a, b);
            }
            lemma_same_parts(ms, a, b);
        },
        MatcherSpec::Not(n) => {
            lemma_matches_ignore_valid(*n, a, b);
        },
        _ => {},
    }
}

/// Each field matcher reads its own field and nothing else: two messages
/// that agree on that field give it the same outcome. The body matcher
/// matches exactly when the string matcher matches the body; a header
/// matcher matches exactly when the message has that header field and the
/// string matcher matches it.
pub proof fn lemma_field_matchers_read_their_field(
    sm: StringMatcherModel,
    a: MessageModel,
    b: MessageModel,
)
    ensures
        a.body == b.body ==> matches_spec(MatcherSpec::Body(sm), a) == matches_spec(
            MatcherSpec::Body(sm),
            b,
        ),
        a.subject == b.subject ==> matches_spec(MatcherSpec::Subject(sm), a) == matches_spec(
            MatcherSpec::Subject(sm),
            b,
        ),
        a.from == b.from ==> matches_spec(MatcherSpec::From(sm), a) == matches_spec(
            MatcherSpec::From(sm),
            b,
        ),
        a.to == b.to ==> matches_spec(MatcherSpec::To(sm), a) == matches_spec(
            MatcherSpec::To(sm),
            b,
        ),
        matches_spec(MatcherSpec::Body(sm), a) == string_matches(sm, a.body),
        matches_spec(MatcherSpec::Subject(sm), a) == (a.subject matches Some(s) && string_matches(
            sm,
            s,
        )),
        matches_spec(MatcherSpec::From(sm), a) == (a.from matches Some(s) && string_matches(sm, s)),
        matches_spec(MatcherSpec::To(sm), a) == (a.to matches Some(s) && string_matches(sm, s)),
{
}

/// Negation flips the outcome of a matcher, on every message.
pub proof fn lemma_not_negates(m: MatcherSpec, msg: MessageModel)
    ensures
        matches_spec(MatcherSpec::Not(Box::new(m)), msg) == !matches_spec(m, msg),
{
}

/// A value equal to the pattern (ignoring case) starts with it, and a value
/// that starts with the pattern contains it.
pub proof fn lemma_string_matcher_strength(p: Seq<char>, input: Seq<char>)
    ensures
        string_matches(StringMatcherModel::Equals(p), input) ==> string_matches(
            StringMatcherModel::StartsWith(p),
            input,
        ),
        string_matches(StringMatcherModel::StartsWith(p), input) ==> string_matches(
            StringMatcherModel::Contains(p),
            input,
        ),
{
    let li = lowercase(input);
    let lp = lowercase(p);
    if li == lp {
        assert(li.subrange(0, lp.len() as int) =~= lp);
    }
    if seq_starts_with(li, lp) {
        assert(li.subrange(0int, 0int + lp.len()) == lp);
    }
}

/// An empty `and` matches every message and an empty `or` none.
pub proof fn lemma_empty_lists(msg: MessageModel)
    ensures
        matches_spec(MatcherSpec::And(Seq::empty()), msg),
        !matches_spec(MatcherSpec::Or(Seq::empty()), msg),
{
    lemma_and(Seq::empty(), msg);
    lemma_or(Seq::empty(), msg);
}

/// An `equals` matcher matches the very text of its pattern.
pub proof fn lemma_equals_reflexive(p: Seq<char>)
    ensures
        string_matches(StringMatcherModel::Equals(p), p),
{
}

/// Apart from `regex`, string matchers ignore case: two values with the
/// same lowercase form, matched against two patterns with the same
/// lowercase form, give the same outcome.
pub proof fn lemma_case_insensitive(p: Seq<char>, q: Seq<char>, a: Seq<char>, b: Seq<char>)
    requires
        lowercase(p) == lowercase(q),
        lowercase(a) == lowercase(b),
    ensures
        string_matches(StringMatcherModel::Contains(p), a) == string_matches(
            StringMatcherModel::Contains(q),
            b,
        ),
        string_matches(StringMatcherModel::StartsWith(p), a) == string_matches(
            StringMatcherModel::StartsWith(q),
            b,
        ),
        string_matches(StringMatcherModel::Equals(p), a) == string_matches(
            StringMatcherModel::Equals(q),
            b,
        ),
{
}

proof fn lemma_ascii_lowercase_idempotent(s: Seq<char>)
    ensures
        ascii_lowercase(ascii_lowercase(s)) == ascii_lowercase(s),
        is_ascii_text(s) ==> is_ascii_text(ascii_lowercase(s)),
{
    assert forall|i: int| 0 <= i < s.len() implies #[trigger] ascii_lowercase(ascii_lowercase(s))[i]
        == ascii_lowercase(s)[i] by {
        let c = s[i];
        if 'A' <= c && c <= 'Z' {
            assert((((c as u32) + 32) as char) as u32 == (c as u32) + 32);
        }
    }
    assert(ascii_lowercase(ascii_lowercase(s)) =~= ascii_lowercase(s));
    if is_ascii_text(s) {
        assert forall|i: int| 0 <= i < ascii_lowercase(s).len() implies (#[trigger] ascii_lowercase(
            s,
        )[i] as u32) < 128 by {
            let c = s[i];
            if 'A' <= c && c <= 'Z' {
                assert((((c as u32) + 32) as char) as u32 == (c as u32) + 32);
            }
        }
    }
}

/// For ASCII text, matchers other than `regex` ignore case: a value matches
/// exactly as its lowercase form does, and a pattern works exactly as its
/// lowercase form does.
pub proof fn lemma_ascii_case_insensitive(p: Seq<char>, input: Seq<char>)
    ensures
        ascii_string_matches(StringMatcherModel::Contains(p), input) == ascii_string_matches(
            StringMatcherModel::Contains(ascii_lowercase(p)),
            ascii_lowercase(input),
        ),
        ascii_string_matches(StringMatcherModel::StartsWith(p), input) == ascii_string_matches(
            StringMatcherModel::StartsWith(ascii_lowercase(p)),
            ascii_lowercase(input),
        ),
        ascii_string_matches(StringMatcherModel::Equals(p), input) == ascii_string_matches(
            StringMatcherModel::Equals(ascii_lowercase(p)),
            ascii_lowercase(input),
        ),
{
    lemma_ascii_lowercase_idempotent(p);
    lemma_ascii_lowercase_idempotent(input);
}

} // verus!
