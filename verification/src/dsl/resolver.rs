use std::ops::Range;
use vstd::prelude::*;

use crate::dsl::ast::{
    ActionModel, FolderModel, MatcherModel, Node, NodeModel, ParserAction, ParserConfig, ParserMatchList,
    ParserIdentifier, ParserMatcher, ParserRule, ParserStringMatcher, RuleModel,
    StringMatcherModel,
};
use crate::inbox::{Folder, MessageModel};
use crate::process::{
    lemma_and, lemma_or, matches_spec, regex_compiles, string_matches, Action, ActionSpec,
    CompiledRegex, Matcher, MatcherSpec, Rule, RuleSpec, StringMatcher,
};

verus! {

broadcast use vstd::string::group_string_axioms;

/// Why a parsed configuration could not be turned into rules.
#[derive(Debug)]
pub enum ResolutionError {
    /// A folder identifier is defined twice: the identifier, the span of the
    /// second definition and the span of the first.
    DuplicateFolder(String, Range<usize>, Range<usize>),
    /// A rule moves messages to a folder identifier that no folder
    /// definition defines: the identifier and its span.
    FolderNotFound(String, Range<usize>),
    /// A `regex` string matcher whose pattern does not compile: the regex
    /// crate's error and the span of the string matcher.
    InvalidRegex(regex::Error, Range<usize>),
}

/// The mathematical value of a [`ResolutionError`]; the regex crate's error
/// is left out.
pub enum ResolutionErrorModel {
    DuplicateFolder(Seq<char>, Range<usize>, Range<usize>),
    FolderNotFound(Seq<char>, Range<usize>),
    InvalidRegex(Range<usize>),
}

impl View for ResolutionError {
    type V = ResolutionErrorModel;

    open spec fn view(&self) -> ResolutionErrorModel {
        match self {
            ResolutionError::DuplicateFolder(id, a, b) => ResolutionErrorModel::DuplicateFolder(
                id@,
                *a,
                *b,
            ),
            ResolutionError::FolderNotFound(id, s) => ResolutionErrorModel::FolderNotFound(
                id@,
                *s,
            ),
            ResolutionError::InvalidRegex(_, s) => ResolutionErrorModel::InvalidRegex(*s),
        }
    }
}

fn copy_span(s: &Range<usize>) -> (r: Range<usize>)
    ensures
        r == *s,
{
    Range { start: s.start, end: s.end }
}

// ---------------------------------------------------------------------------
// Folder definitions
// ---------------------------------------------------------------------------

/// A defined folder: its identifier, the folder's name and the span of the
/// definition.
pub type FolderEntryModel = (Seq<char>, Seq<char>, Range<usize>);

/// The entries that the folder definitions give, in order.
pub open spec fn folder_entries(fs: Seq<NodeModel<FolderModel>>) -> Seq<FolderEntryModel> {
    fs.map_values(|n: NodeModel<FolderModel>| (n.value.identifier, n.value.name, n.span))
}

/// The index of the first entry with this identifier.
pub open spec fn find_folder(entries: Seq<FolderEntryModel>, id: Seq<char>) -> Option<int>
    decreases entries.len(),
{
    if entries.len() == 0 {
        None
    } else {
        match find_folder(entries.drop_last(), id) {
            Some(i) => Some(i),
            None => if entries.last().0 == id {
                Some(entries.len() - 1)
            } else {
                None
            },
        }
    }
}

/// The first folder definition whose identifier was already defined, with
/// the index of that earlier definition.
pub open spec fn first_duplicate(fs: Seq<NodeModel<FolderModel>>) -> Option<(int, int)>
    decreases fs.len(),
{
    if fs.len() == 0 {
        None
    } else {
        match first_duplicate(fs.drop_last()) {
            Some(p) => Some(p),
            None => match find_folder(folder_entries(fs.drop_last()), fs.last().value.identifier) {
                Some(i) => Some((fs.len() - 1, i)),
                None => None,
            },
        }
    }
}

/// No two folder definitions share an identifier.
pub open spec fn distinct_identifiers(fs: Seq<NodeModel<FolderModel>>) -> bool {
    forall|i: int, j: int|
        0 <= i < j < fs.len() ==> #[trigger] fs[i].value.identifier != #[trigger] fs[j].value.identifier
}

struct FolderEntry {
    identifier: String,
    folder: Folder,
    span: Range<usize>,
}

impl View for FolderEntry {
    type V = FolderEntryModel;

    closed spec fn view(&self) -> FolderEntryModel {
        (self.identifier@, self.folder.name@, self.span)
    }
}

spec fn entries_view(v: Seq<FolderEntry>) -> Seq<FolderEntryModel> {
    v.map_values(|e: FolderEntry| e@)
}

/// The folders that a configuration defines, by identifier. They are held
/// in the order of their definitions, under distinct identifiers (building
/// refuses a second definition of one), and each lookup is proved against
/// [`find_folder`].
pub struct Resolver {
    folders: Vec<FolderEntry>,
}

impl View for Resolver {
    type V = Seq<FolderEntryModel>;

    closed spec fn view(&self) -> Seq<FolderEntryModel> {
        entries_view(self.folders@)
    }
}

proof fn lemma_find_folder_step(entries: Seq<FolderEntryModel>, id: Seq<char>, i: int)
    requires
        0 <= i < entries.len(),
    ensures
        find_folder(entries.take(i + 1), id) == match find_folder(entries.take(i), id) {
            Some(k) => Some(k),
            None => if entries[i].0 == id {
                Some(i)
            } else {
                None
            },
        },
{
    assert(entries.take(i + 1).drop_last() =~= entries.take(i));
}

/// `find_folder` gives an entry with the identifier, and none before it.
pub proof fn lemma_find_folder(entries: Seq<FolderEntryModel>, id: Seq<char>)
    ensures
        match find_folder(entries, id) {
            Some(i) => 0 <= i < entries.len() && entries[i].0 == id && forall|k: int|
                0 <= k < i ==> #[trigger] entries[k].0 != id,
            None => forall|k: int| 0 <= k < entries.len() ==> #[trigger] entries[k].0 != id,
        },
    decreases entries.len(),
{
    if entries.len() > 0 {
        let init = entries.drop_last();
        lemma_find_folder(init, id);
        assert forall|k: int| 0 <= k < init.len() implies init[k] == entries[k] by {}
    }
}

fn find_entry(folders: &Vec<FolderEntry>, id: &String, upto: usize) -> (r: Option<usize>)
    requires
        upto <= folders@.len(),
    ensures
        match r {
            Some(i) => i < upto && find_folder(entries_view(folders@).take(upto as int), id@)
                == Some(i as int),
            None => find_folder(entries_view(folders@).take(upto as int), id@) is None,
        },
{
    let ghost es = entries_view(folders@);
    let mut i: usize = 0;
    while i < upto
        invariant
            es == entries_view(folders@),
            upto <= folders@.len(),
            i <= upto,
            find_folder(es.take(i as int), id@) is None,
        decreases upto - i,
    {
        proof {
            lemma_find_folder_step(es, id@, i as int);
        }
        if folders[i].identifier == *id {
            proof {
                assert(es.take(i + 1).take(i + 1) =~= es.take(i + 1));
                lemma_take_extends(es, id@, i + 1, upto as int);
            }
            return Some(i);
        }
        i = i + 1;
    }
    None
}

/// Once the first entry with an identifier lies in a prefix, a longer prefix
/// finds the same entry.
proof fn lemma_take_extends(es: Seq<FolderEntryModel>, id: Seq<char>, a: int, b: int)
    requires
        0 <= a <= b <= es.len(),
        find_folder(es.take(a), id) is Some,
    ensures
        find_folder(es.take(b), id) == find_folder(es.take(a), id),
    decreases b - a,
{
    if a < b {
        lemma_take_extends(es, id, a, b - 1);
        lemma_find_folder_step(es, id, b - 1);
    }
}

impl Resolver {
    /// Collects the folder definitions of a configuration. Fails on the
    /// first definition whose identifier was already defined.
    pub fn build(config: &ParserConfig) -> (r: Result<Resolver, ResolutionError>)
        ensures
            match first_duplicate(config@.folders) {
                None => r matches Ok(res) && res@ == folder_entries(config@.folders),
                Some((j, i)) => r matches Err(e) && e@ == ResolutionErrorModel::DuplicateFolder(
                    config@.folders[j].value.identifier,
                    config@.folders[j].span,
                    config@.folders[i].span,
                ),
            },
    {
        let ghost fs = config@.folders;
        let defs = &config.folder_definitions;
        let mut folders: Vec<FolderEntry> = Vec::new();
        let mut j: usize = 0;
        while j < defs.len()
            invariant
                fs == config@.folders,
                *defs == config.folder_definitions,
                fs.len() == defs@.len(),
                j <= defs@.len(),
                first_duplicate(fs.take(j as int)) is None,
                entries_view(folders@) == folder_entries(fs.take(j as int)),
                folders@.len() == j,
            decreases defs@.len() - j,
        {
            let node = &defs[j];
            let ghost es = entries_view(folders@);
            proof {
                assert(fs.take(j + 1).drop_last() =~= fs.take(j as int));
                assert(es.take(j as int) =~= es);
                assert(fs[j as int] == node@);
            }
            match find_entry(&folders, &node.value.identifier, j) {
                Some(i) => {
                    proof {
                        assert(fs.take(j + 1).last() == fs[j as int]);
                        assert(first_duplicate(fs.take(j + 1)) == Some((j as int, i as int)));
                        assert(folder_entries(fs.take(j as int))[i as int] == (
                            fs[i as int].value.identifier,
                            fs[i as int].value.name,
                            fs[i as int].span,
                        ));
                        lemma_first_duplicate_extends(fs, j as int + 1);
                    }
                    let existing = copy_span(&folders[i].span);
                    return Err(
                        ResolutionError::DuplicateFolder(
                            node.value.identifier.clone(),
                            copy_span(&node.span),
                            existing,
                        ),
                    );
                },
                None => {},
            }
            let ghost old_folders = folders@;
            folders.push(
                FolderEntry {
                    identifier: node.value.identifier.clone(),
                    folder: Folder::new(node.value.name.clone()),
                    span: copy_span(&node.span),
                },
            );
            proof {
                assert(entries_view(folders@) =~= folder_entries(fs.take(j + 1))) by {
                    assert(fs.take(j + 1)[j as int] == fs[j as int]);
                    assert forall|k: int| 0 <= k < j implies #[trigger] entries_view(folders@)[k]
                        == folder_entries(fs.take(j + 1))[k] by {
                        assert(fs.take(j + 1)[k] == fs.take(j as int)[k]);
                        assert(folders@[k] == old_folders[k]);
                        assert(entries_view(old_folders)[k] == folder_entries(fs.take(j as int))[k]);
                    }
                }
            }
            j = j + 1;
        }
        proof {
            assert(fs.take(fs.len() as int) =~= fs);
        }
        Ok(Resolver { folders })
    }

    /// The folder a reference names, or `FolderNotFound` when no folder
    /// definition has its identifier.
    pub fn resolve_folder(&self, identifier: &Node<ParserIdentifier>) -> (r: Result<
        &Folder,
        ResolutionError,
    >)
        ensures
            match find_folder(self@, identifier@.value) {
                Some(i) => r matches Ok(f) && f.name@ == self@[i].1,
                None => r matches Err(e) && e@ == ResolutionErrorModel::FolderNotFound(
                    identifier@.value,
                    identifier@.span,
                ),
            },
    {
        proof {
            assert(self@.take(self@.len() as int) =~= self@);
        }
        match find_entry(&self.folders, &identifier.value.identifier, self.folders.len()) {
            Some(i) => Ok(&self.folders[i].folder),
            None => Err(
                ResolutionError::FolderNotFound(
                    identifier.value.identifier.clone(),
                    copy_span(&identifier.span),
                ),
            ),
        }
    }
}

/// Once a prefix holds a duplicate, every longer prefix reports the same
/// one.
proof fn lemma_first_duplicate_extends(fs: Seq<NodeModel<FolderModel>>, a: int)
    requires
        0 <= a <= fs.len(),
        first_duplicate(fs.take(a)) is Some,
    ensures
        first_duplicate(fs) == first_duplicate(fs.take(a)),
    decreases fs.len() - a,
{
    if a < fs.len() {
        assert(fs.take(a + 1).drop_last() =~= fs.take(a));
        lemma_first_duplicate_extends(fs, a + 1);
    } else {
        assert(fs.take(a) =~= fs);
    }
}

/// Building the folder table succeeds exactly when no two folder
/// definitions share an identifier; a reported duplicate is a later
/// definition with the identifier of an earlier one.
pub proof fn lemma_first_duplicate(fs: Seq<NodeModel<FolderModel>>)
    ensures
        first_duplicate(fs) is None <==> distinct_identifiers(fs),
        first_duplicate(fs) matches Some((j, i)) ==> 0 <= i < j < fs.len()
            && fs[i].value.identifier == fs[j].value.identifier,
    decreases fs.len(),
{
    if fs.len() > 0 {
        let init = fs.drop_last();
        let id = fs.last().value.identifier;
        lemma_first_duplicate(init);
        lemma_find_folder(folder_entries(init), id);
        assert forall|k: int| 0 <= k < init.len() implies #[trigger] folder_entries(init)[k].0
            == fs[k].value.identifier by {
            assert(init[k] == fs[k]);
        }
        if distinct_identifiers(fs) {
            assert forall|a: int, b: int|
                0 <= a < b < init.len() implies #[trigger] init[a].value.identifier
                != #[trigger] init[b].value.identifier by {
                assert(init[a] == fs[a]);
                assert(init[b] == fs[b]);
            }
            if let Some(k) = find_folder(folder_entries(init), id) {
                assert(fs[k].value.identifier == fs[fs.len() - 1].value.identifier);
            }
        }
        if first_duplicate(fs) is None {
            assert forall|a: int, b: int|
                0 <= a < b < fs.len() implies #[trigger] fs[a].value.identifier
                != #[trigger] fs[b].value.identifier by {
                if b < fs.len() - 1 {
                    assert(init[a] == fs[a]);
                    assert(init[b] == fs[b]);
                } else {
                    assert(folder_entries(init)[a].0 == fs[a].value.identifier);
                }
            }
        }
        if let Some((j, i)) = first_duplicate(init) {
            assert(init[i] == fs[i]);
            assert(init[j] == fs[j]);
        }
    }
}

// ---------------------------------------------------------------------------
// Matchers, actions and rules
// ---------------------------------------------------------------------------

/// The span of a `regex` string matcher whose pattern does not compile.
pub open spec fn bad_regex(n: NodeModel<StringMatcherModel>) -> Option<Range<usize>> {
    match n.value {
        StringMatcherModel::Regex(p) => if regex_compiles(p) {
            None
        } else {
            Some(n.span)
        },
        _ => None,
    }
}

/// The first entry that is not `None`.
pub open spec fn first_some(s: Seq<Option<Range<usize>>>) -> Option<Range<usize>>
    decreases s.len(),
{
    if s.len() == 0 {
        None
    } else {
        match first_some(s.drop_last()) {
            Some(x) => Some(x),
            None => s.last(),
        }
    }
}

/// The span of the first `regex` string matcher, in the order of the text,
/// whose pattern does not compile.
pub open spec fn first_bad_regex(m: MatcherModel) -> Option<Range<usize>>
    decreases m, 1int,
{
    match m {
        MatcherModel::And(l) => first_some(bad_regexes(l.value)),
        MatcherModel::Or(l) => first_some(bad_regexes(l.value)),
        MatcherModel::Not(b) => first_bad_regex(b.value),
        MatcherModel::Subject(n) => bad_regex(n),
        MatcherModel::From(n) => bad_regex(n),
        MatcherModel::To(n) => bad_regex(n),
        MatcherModel::Body(n) => bad_regex(n),
    }
}

/// For each matcher of a list, its first bad regex.
pub open spec fn bad_regexes(l: Seq<NodeModel<MatcherModel>>) -> Seq<Option<Range<usize>>>
    decreases l, 0int,
{
    Seq::new(
        l.len(),
        |i: int|
            if 0 <= i < l.len() {
                first_bad_regex(l[i].value)
            } else {
                None
            },
    )
}

proof fn lemma_bad_regexes(l: Seq<NodeModel<MatcherModel>>)
    ensures
        bad_regexes(l).len() == l.len(),
        forall|i: int| 0 <= i < l.len() ==> #[trigger] bad_regexes(l)[i] == first_bad_regex(l[i].value),
{
}

/// `first_some` looks at a prefix one entry at a time.
proof fn lemma_first_some_step(s: Seq<Option<Range<usize>>>, i: int)
    requires
        0 <= i < s.len(),
    ensures
        first_some(s.take(i + 1)) == match first_some(s.take(i)) {
            Some(x) => Some(x),
            None => s[i],
        },
{
    assert(s.take(i + 1).drop_last() =~= s.take(i));
}

/// The matcher that a parsed matcher resolves to: the same tree without the
/// spans.
pub open spec fn resolved_matcher(m: MatcherModel) -> MatcherSpec
    decreases m,
{
    match m {
        MatcherModel::And(l) => MatcherSpec::And(
            Seq::new(
                l.value.len(),
                |i: int|
                    if 0 <= i < l.value.len() {
                        resolved_matcher(l.value[i].value)
                    } else {
                        arbitrary()
                    },
            ),
        ),
        MatcherModel::Or(l) => MatcherSpec::Or(
            Seq::new(
                l.value.len(),
                |i: int|
                    if 0 <= i < l.value.len() {
                        resolved_matcher(l.value[i].value)
                    } else {
                        arbitrary()
                    },
            ),
        ),
        MatcherModel::Not(b) => MatcherSpec::Not(Box::new(resolved_matcher(b.value))),
        MatcherModel::Subject(n) => MatcherSpec::Subject(n.value),
        MatcherModel::From(n) => MatcherSpec::From(n.value),
        MatcherModel::To(n) => MatcherSpec::To(n.value),
        MatcherModel::Body(n) => MatcherSpec::Body(n.value),
    }
}

/// A resolved matcher means what its parsed form says: `not m` matches
/// exactly the messages that `m` does not, `and` those that all of its
/// matchers match, `or` those that one of them matches, and each field
/// matcher tests its own field (a missing header field never matches).
pub proof fn lemma_resolved_matcher_meaning(m: MatcherModel, msg: MessageModel)
    ensures
        m matches MatcherModel::Not(b) ==> matches_spec(resolved_matcher(m), msg) == !matches_spec(
            resolved_matcher(b.value),
            msg,
        ),
        m matches MatcherModel::And(l) ==> (matches_spec(resolved_matcher(m), msg) <==> forall|
            i: int,
        | 0 <= i < l.value.len() ==> matches_spec(resolved_matcher(#[trigger] l.value[i].value), msg)),
        m matches MatcherModel::Or(l) ==> (matches_spec(resolved_matcher(m), msg) <==> exists|
            i: int,
        | 0 <= i < l.value.len() && matches_spec(resolved_matcher(#[trigger] l.value[i].value), msg)),
        m matches MatcherModel::Subject(n) ==> matches_spec(resolved_matcher(m), msg) == (
        msg.subject matches Some(s) && string_matches(n.value, s)),
        m matches MatcherModel::From(n) ==> matches_spec(resolved_matcher(m), msg) == (
        msg.from matches Some(s) && string_matches(n.value, s)),
        m matches MatcherModel::To(n) ==> matches_spec(resolved_matcher(m), msg) == (
        msg.to matches Some(s) && string_matches(n.value, s)),
        m matches MatcherModel::Body(n) ==> matches_spec(resolved_matcher(m), msg) == string_matches(
            n.value,
            msg.body,
        ),
{
    match m {
        MatcherModel::And(l) => {
            let ms = resolved_matcher(m)->And_0;
            assert(ms.len() == l.value.len());
            assert forall|i: int| 0 <= i < l.value.len() implies ms[i] == resolved_matcher(
                #[trigger] l.value[i].value,
            ) by {}
            lemma_and(ms, msg);
            if matches_spec(resolved_matcher(m), msg) {
                assert forall|i: int| 0 <= i < l.value.len() implies matches_spec(
                    resolved_matcher(#[trigger] l.value[i].value),
                    msg,
                ) by {
                    assert(matches_spec(ms[i], msg));
                }
            } else {
                let k = choose|k: int| 0 <= k < ms.len() && !#[trigger] matches_spec(ms[k], msg);
                assert(ms[k] == resolved_matcher(l.value[k].value));
            }
        },
        MatcherModel::Or(l) => {
            let ms = resolved_matcher(m)->Or_0;
            assert(ms.len() == l.value.len());
            assert forall|i: int| 0 <= i < l.value.len() implies ms[i] == resolved_matcher(
                #[trigger] l.value[i].value,
            ) by {}
            lemma_or(ms, msg);
            if matches_spec(resolved_matcher(m), msg) {
                let k = choose|k: int| 0 <= k < ms.len() && #[trigger] matches_spec(ms[k], msg);
                assert(ms[k] == resolved_matcher(l.value[k].value));
            } else {
                assert forall|i: int| 0 <= i < l.value.len() implies !matches_spec(
                    resolved_matcher(#[trigger] l.value[i].value),
                    msg,
                ) by {
                    assert(!matches_spec(ms[i], msg));
                }
            }
        },
        _ => {},
    }
}

/// What a parsed action resolves to: a move goes to the folder that the
/// identifier names.
pub open spec fn resolve_action_spec(entries: Seq<FolderEntryModel>, a: NodeModel<ActionModel>) -> Result<
    ActionSpec,
    ResolutionErrorModel,
> {
    match a.value {
        ActionModel::Delete => Ok(ActionSpec::Delete),
        ActionModel::MoveTo(id) => match find_folder(entries, id.value) {
            Some(i) => Ok(ActionSpec::Move(entries[i].1)),
            None => Err(ResolutionErrorModel::FolderNotFound(id.value, id.span)),
        },
    }
}

/// What a parsed rule resolves to: its matcher is resolved first, then its
/// action.
pub open spec fn resolve_rule_spec(entries: Seq<FolderEntryModel>, r: NodeModel<RuleModel>) -> Result<
    RuleSpec,
    ResolutionErrorModel,
> {
    match first_bad_regex(r.value.matcher.value) {
        Some(s) => Err(ResolutionErrorModel::InvalidRegex(s)),
        None => match resolve_action_spec(entries, r.value.action) {
            Err(e) => Err(e),
            Ok(a) => Ok(
                RuleSpec {
                    name: r.value.name,
                    matcher: resolved_matcher(r.value.matcher.value),
                    action: a,
                },
            ),
        },
    }
}

/// The rules, resolved in order; the first rule that fails gives the error.
pub open spec fn resolve_rules_spec(entries: Seq<FolderEntryModel>, rs: Seq<NodeModel<RuleModel>>) -> Result<
    Seq<RuleSpec>,
    ResolutionErrorModel,
>
    decreases rs.len(),
{
    if rs.len() == 0 {
        Ok(Seq::empty())
    } else {
        match resolve_rules_spec(entries, rs.drop_last()) {
            Err(e) => Err(e),
            Ok(v) => match resolve_rule_spec(entries, rs.last()) {
                Err(e) => Err(e),
                Ok(r) => Ok(v.push(r)),
            },
        }
    }
}

/// The result of turning a parsed configuration into rules.
pub open spec fn config_rules_spec(c: crate::dsl::ast::ConfigModel) -> Result<
    Seq<RuleSpec>,
    ResolutionErrorModel,
> {
    match first_duplicate(c.folders) {
        Some((j, i)) => Err(
            ResolutionErrorModel::DuplicateFolder(
                c.folders[j].value.identifier,
                c.folders[j].span,
                c.folders[i].span,
            ),
        ),
        None => resolve_rules_spec(folder_entries(c.folders), c.rules),
    }
}

/// Once a prefix holds an entry, every longer prefix gives the same first
/// entry.
proof fn lemma_first_some_extends(s: Seq<Option<Range<usize>>>, a: int)
    requires
        0 <= a <= s.len(),
        first_some(s.take(a)) is Some,
    ensures
        first_some(s) == first_some(s.take(a)),
    decreases s.len() - a,
{
    if a < s.len() {
        lemma_first_some_step(s, a);
        lemma_first_some_extends(s, a + 1);
    } else {
        assert(s.take(a) =~= s);
    }
}

impl Resolver {
    /// Resolves a string matcher; a `regex` pattern is compiled.
    pub fn resolve_string_matcher(&self, node: &Node<ParserStringMatcher>) -> (r: Result<
        StringMatcher,
        ResolutionError,
    >)
        ensures
            match bad_regex(node@) {
                Some(s) => r matches Err(e) && e@ == ResolutionErrorModel::InvalidRegex(s),
                None => r matches Ok(sm) && sm@ == node@.value,
            },
    {
        match &node.value {
            ParserStringMatcher::Contains(s) => Ok(StringMatcher::Contains(s.clone())),
            ParserStringMatcher::StartsWith(s) => Ok(StringMatcher::StartsWith(s.clone())),
            ParserStringMatcher::Equals(s) => Ok(StringMatcher::Equals(s.clone())),
            ParserStringMatcher::Regex(s) => match CompiledRegex::new(s.as_str()) {
                Ok(re) => Ok(StringMatcher::Regex(re)),
                Err(e) => Err(ResolutionError::InvalidRegex(e, copy_span(&node.span))),
            },
        }
    }

    /// Resolves the matchers of an `and` or `or`, in order; the first one
    /// that fails gives the error.
    pub fn resolve_match_list(&self, l: &Node<ParserMatchList>) -> (r: Result<
        Vec<Matcher>,
        ResolutionError,
    >)
        ensures
            match first_some(bad_regexes(l@.value)) {
                Some(s) => r matches Err(e) && e@ == ResolutionErrorModel::InvalidRegex(s),
                None => r matches Ok(v) && v@.len() == l@.value.len() && forall|i: int|
                    0 <= i < v@.len() ==> #[trigger] v@[i]@ == resolved_matcher(l@.value[i].value),
            },
        decreases l, 0int,
    {
        let list = &l.value.list;
        let ghost lm = l@.value;
        let ghost bads = bad_regexes(lm);
        proof {
            lemma_bad_regexes(lm);
        }
        let mut out: Vec<Matcher> = Vec::new();
        let mut i: usize = 0;
        while i < list.len()
            invariant
                *list == l.value.list,
                lm == l@.value,
                bads == bad_regexes(lm),
                bads.len() == lm.len(),
                lm.len() == list@.len(),
                forall|k: int| 0 <= k < lm.len() ==> #[trigger] bads[k] == first_bad_regex(lm[k].value),
                i <= list@.len(),
                first_some(bads.take(i as int)) is None,
                out@.len() == i,
                forall|k: int| 0 <= k < i ==> #[trigger] out@[k]@ == resolved_matcher(lm[k].value),
            decreases list@.len() - i,
        {
            proof {
                assert(lm[i as int] == list@[i as int]@);
                lemma_first_some_step(bads, i as int);
            }
            match self.resolve_matcher(&list[i]) {
                Ok(m) => {
                    out.push(m);
                },
                Err(e) => {
                    proof {
                        lemma_first_some_extends(bads, i + 1);
                    }
                    return Err(e);
                },
            }
            i = i + 1;
        }
        proof {
            assert(bads.take(bads.len() as int) =~= bads);
        }
        Ok(out)
    }

    /// Resolves a matcher: every `regex` pattern in it is compiled. Fails on
    /// the first pattern, in the order of the text, that does not compile.
    pub fn resolve_matcher(&self, node: &Node<ParserMatcher>) -> (r: Result<
        Matcher,
        ResolutionError,
    >)
        ensures
            match first_bad_regex(node@.value) {
                Some(s) => r matches Err(e) && e@ == ResolutionErrorModel::InvalidRegex(s),
                None => r matches Ok(m) && m@ == resolved_matcher(node@.value),
            },
        decreases node, 1int,
    {
        match &node.value {
            ParserMatcher::And(l) => {
                let v = self.resolve_match_list(l)?;
                let ghost vv = v@;
                let m = Matcher::And(v);
                proof {
                    let rm = resolved_matcher(node@.value);
                    assert forall|i: int| 0 <= i < vv.len() implies m@->And_0[i] == rm->And_0[i] by {
                        assert(vv[i]@ == resolved_matcher(l@.value[i].value));
                    }
                    assert(m@->And_0 =~= rm->And_0);
                }
                Ok(m)
            },
            ParserMatcher::Or(l) => {
                let v = self.resolve_match_list(l)?;
                let ghost vv = v@;
                let m = Matcher::Or(v);
                proof {
                    let rm = resolved_matcher(node@.value);
                    assert forall|i: int| 0 <= i < vv.len() implies m@->Or_0[i] == rm->Or_0[i] by {
                        assert(vv[i]@ == resolved_matcher(l@.value[i].value));
                    }
                    assert(m@->Or_0 =~= rm->Or_0);
                }
                Ok(m)
            },
            ParserMatcher::Not(b) => {
                let inner = self.resolve_matcher(b)?;
                Ok(Matcher::Not(Box::new(inner)))
            },
            ParserMatcher::Subject(n) => Ok(Matcher::Subject(self.resolve_string_matcher(n)?)),
            ParserMatcher::From(n) => Ok(Matcher::From(self.resolve_string_matcher(n)?)),
            ParserMatcher::To(n) => Ok(Matcher::To(self.resolve_string_matcher(n)?)),
            ParserMatcher::Body(n) => Ok(Matcher::Body(self.resolve_string_matcher(n)?)),
        }
    }

    /// Resolves an action: a move is to the folder its identifier names.
    pub fn resolve_action(&self, node: &Node<ParserAction>) -> (r: Result<Action, ResolutionError>)
        ensures
            match resolve_action_spec(self@, node@) {
                Ok(a) => r matches Ok(x) && x@ == a,
                Err(e) => r matches Err(x) && x@ == e,
            },
    {
        match &node.value {
            ParserAction::Delete => Ok(Action::Delete),
            ParserAction::MoveTo(ident) => {
                let folder = self.resolve_folder(ident)?;
                Ok(Action::Move(folder.clone()))
            },
        }
    }

    /// Resolves a rule: its matcher first, then its action.
    pub fn resolve_rule(&self, node: &Node<ParserRule>) -> (r: Result<Rule, ResolutionError>)
        ensures
            match resolve_rule_spec(self@, node@) {
                Ok(x) => r matches Ok(rule) && rule@ == x,
                Err(e) => r matches Err(x) && x@ == e,
            },
    {
        let matcher = self.resolve_matcher(&node.value.matcher)?;
        let action = self.resolve_action(&node.value.action)?;
        Ok(Rule::new(node.value.name.clone(), matcher, action))
    }
}

/// The values of a list of rules.
pub open spec fn rules_view(v: Seq<Rule>) -> Seq<RuleSpec> {
    v.map_values(|r: Rule| r@)
}

impl ParserConfig {
    /// Turns the parsed configuration into rules: the folder definitions are
    /// collected first, then each rule is resolved in order. The first
    /// problem found is the error.
    pub fn to_rules(self) -> (r: Result<Vec<Rule>, ResolutionError>)
        ensures
            match config_rules_spec(self@) {
                Ok(v) => r matches Ok(rules) && rules_view(rules@) == v,
                Err(e) => r matches Err(x) && x@ == e,
            },
    {
        let ctx = Resolver::build(&self)?;
        let ghost entries = ctx@;
        let ghost rs = self@.rules;
        let defs = &self.rule_definitions;
        let mut out: Vec<Rule> = Vec::new();
        let mut i: usize = 0;
        proof {
            assert(rs.take(0) =~= Seq::<NodeModel<RuleModel>>::empty());
            assert(rules_view(out@) =~= Seq::<RuleSpec>::empty());
        }
        while i < defs.len()
            invariant
                entries == ctx@,
                rs == self@.rules,
                config_rules_spec(self@) == resolve_rules_spec(entries, rs),
                *defs == self.rule_definitions,
                rs.len() == defs@.len(),
                i <= defs@.len(),
                out@.len() == i,
                resolve_rules_spec(entries, rs.take(i as int)) == Ok::<
                    Seq<RuleSpec>,
                    ResolutionErrorModel,
                >(rules_view(out@)),
            decreases defs@.len() - i,
        {
            proof {
                assert(rs.take(i + 1).drop_last() =~= rs.take(i as int));
                assert(rs.take(i + 1).last() == defs@[i as int]@);
            }
            match ctx.resolve_rule(&defs[i]) {
                Ok(rule) => {
                    let ghost before = out@;
                    out.push(rule);
                    proof {
                        assert(rules_view(out@) =~= rules_view(before).push(out@[i as int]@));
                    }
                },
                Err(e) => {
                    proof {
                        assert(resolve_rules_spec(entries, rs.take(i + 1)) is Err);
                        lemma_rules_error_extends(entries, rs, i + 1);
                    }
                    return Err(e);
                },
            }
            i = i + 1;
        }
        proof {
            assert(rs.take(rs.len() as int) =~= rs);
        }
        Ok(out)
    }
}

/// Once a prefix of the rules fails, the whole list fails with the same
/// error.
proof fn lemma_rules_error_extends(
    entries: Seq<FolderEntryModel>,
    rs: Seq<NodeModel<RuleModel>>,
    a: int,
)
    requires
        0 <= a <= rs.len(),
        resolve_rules_spec(entries, rs.take(a)) is Err,
    ensures
        resolve_rules_spec(entries, rs) == resolve_rules_spec(entries, rs.take(a)),
    decreases rs.len() - a,
{
    if a < rs.len() {
        assert(rs.take(a + 1).drop_last() =~= rs.take(a));
        lemma_rules_error_extends(entries, rs, a + 1);
    } else {
        assert(rs.take(a) =~= rs);
    }
}

/// A rule resolves when every regex in its matcher compiles and a move goes
/// to a defined folder.
pub open spec fn rule_resolves(entries: Seq<FolderEntryModel>, r: NodeModel<RuleModel>) -> bool {
    &&& first_bad_regex(r.value.matcher.value) is None
    &&& r.value.action.value matches ActionModel::MoveTo(id) ==> find_folder(entries, id.value) is Some
}

proof fn lemma_rules_resolve(entries: Seq<FolderEntryModel>, rs: Seq<NodeModel<RuleModel>>)
    ensures
        resolve_rules_spec(entries, rs) is Ok <==> forall|i: int|
            0 <= i < rs.len() ==> rule_resolves(entries, #[trigger] rs[i]),
        resolve_rules_spec(entries, rs) matches Ok(v) ==> v.len() == rs.len(),
    decreases rs.len(),
{
    if rs.len() > 0 {
        let init = rs.drop_last();
        lemma_rules_resolve(entries, init);
        assert forall|i: int| 0 <= i < init.len() implies init[i] == rs[i] by {}
        if forall|i: int| 0 <= i < rs.len() ==> rule_resolves(entries, #[trigger] rs[i]) {
            assert(rule_resolves(entries, rs[rs.len() - 1]));
            assert forall|i: int| 0 <= i < init.len() implies rule_resolves(entries, #[trigger] init[i]) by {
                assert(rule_resolves(entries, rs[i]));
            }
        }
        if resolve_rules_spec(entries, rs) is Ok {
            assert forall|i: int| 0 <= i < rs.len() implies rule_resolves(entries, #[trigger] rs[i]) by {
                if i < rs.len() - 1 {
                    assert(rule_resolves(entries, init[i]));
                }
            }
        }
    }
}

/// A parsed configuration turns into rules exactly when no two folder
/// definitions share an identifier and every rule resolves; it then gives
/// one rule per rule definition.
pub proof fn lemma_config_rules_ok(c: crate::dsl::ast::ConfigModel)
    ensures
        config_rules_spec(c) is Ok <==> distinct_identifiers(c.folders) && forall|i: int|
            0 <= i < c.rules.len() ==> rule_resolves(folder_entries(c.folders), #[trigger] c.rules[i]),
        config_rules_spec(c) matches Ok(v) ==> v.len() == c.rules.len(),
{
    lemma_first_duplicate(c.folders);
    lemma_rules_resolve(folder_entries(c.folders), c.rules);
}

} // verus!
