use std::ops::Range;
use vstd::prelude::*;

verus! {

/// A value together with the byte range of the text it was parsed from.
#[derive(Debug, Clone, PartialEq, Eq)]
pub struct Node<T> {
    pub value: T,
    pub span: Range<usize>,
}

/// A parsed rule file: its folder definitions and its rule definitions, each
/// in the order in which they appear.
#[derive(Debug, PartialEq)]
pub struct ParserConfig {
    pub folder_definitions: Vec<Node<ParserFolder>>,
    pub rule_definitions: Vec<Node<ParserRule>>,
}

/// One top-level definition.
#[derive(Debug, PartialEq)]
pub enum ParserDefinition {
    Rule(Node<ParserRule>),
    Folder(Node<ParserFolder>),
}

/// A parsed rule.
#[derive(Debug, PartialEq)]
pub struct ParserRule {
    pub name: String,
    pub matcher: Node<ParserMatcher>,
    pub action: Node<ParserAction>,
}

/// One `key: value` pair in the body of a rule.
#[derive(Debug, PartialEq)]
pub enum ParserRuleValue {
    Matcher(Node<ParserMatcher>),
    Action(Node<ParserAction>),
}

/// A parsed matcher.
#[derive(Debug, PartialEq)]
pub enum ParserMatcher {
    And(Node<ParserMatchList>),
    Or(Node<ParserMatchList>),
    Not(Box<Node<ParserMatcher>>),
    Subject(Node<ParserStringMatcher>),
    From(Node<ParserStringMatcher>),
    To(Node<ParserStringMatcher>),
    Body(Node<ParserStringMatcher>),
}

/// A parsed string matcher; the strings are kept as written.
#[derive(Debug, Clone, PartialEq)]
pub enum ParserStringMatcher {
    Contains(String),
    StartsWith(String),
    Equals(String),
    Regex(String),
}

/// The matchers of an `and` or `or`.
#[derive(Debug, PartialEq)]
pub struct ParserMatchList {
    pub list: Vec<Node<ParserMatcher>>,
}

/// A parsed action.
#[derive(Debug, Clone, PartialEq)]
pub enum ParserAction {
    Delete,
    MoveTo(Node<ParserIdentifier>),
}

/// A reference to a folder definition.
#[derive(Debug, Clone, PartialEq)]
pub struct ParserIdentifier {
    pub identifier: String,
}

/// A parsed folder definition.
#[derive(Debug, Clone, PartialEq, Eq)]
pub struct ParserFolder {
    pub identifier: String,
    pub name: String,
}

// ---------------------------------------------------------------------------
// Mathematical values of the syntax tree
// ---------------------------------------------------------------------------

pub struct NodeModel<T> {
    pub value: T,
    pub span: Range<usize>,
}

pub struct ConfigModel {
    pub folders: Seq<NodeModel<FolderModel>>,
    pub rules: Seq<NodeModel<RuleModel>>,
}

pub enum DefinitionModel {
    Rule(NodeModel<RuleModel>),
    Folder(NodeModel<FolderModel>),
}

pub struct RuleModel {
    pub name: Seq<char>,
    pub matcher: NodeModel<MatcherModel>,
    pub action: NodeModel<ActionModel>,
}

pub enum RuleValueModel {
    Matcher(NodeModel<MatcherModel>),
    Action(NodeModel<ActionModel>),
}

pub enum MatcherModel {
    And(NodeModel<Seq<NodeModel<MatcherModel>>>),
    Or(NodeModel<Seq<NodeModel<MatcherModel>>>),
    Not(Box<NodeModel<MatcherModel>>),
    Subject(NodeModel<StringMatcherModel>),
    From(NodeModel<StringMatcherModel>),
    To(NodeModel<StringMatcherModel>),
    Body(NodeModel<StringMatcherModel>),
}

pub enum StringMatcherModel {
    Contains(Seq<char>),
    StartsWith(Seq<char>),
    Equals(Seq<char>),
    Regex(Seq<char>),
}

pub enum ActionModel {
    Delete,
    MoveTo(NodeModel<Seq<char>>),
}

pub struct FolderModel {
    pub identifier: Seq<char>,
    pub name: Seq<char>,
}

impl<T: View> View for Node<T> {
    type V = NodeModel<T::V>;

    open spec fn view(&self) -> NodeModel<T::V> {
        NodeModel { value: self.value@, span: self.span }
    }
}

impl View for ParserConfig {
    type V = ConfigModel;

    open spec fn view(&self) -> ConfigModel {
        ConfigModel {
            folders: self.folder_definitions@.map_values(|n: Node<ParserFolder>| n@),
            rules: self.rule_definitions@.map_values(|n: Node<ParserRule>| n@),
        }
    }
}

impl View for ParserDefinition {
    type V = DefinitionModel;

    open spec fn view(&self) -> DefinitionModel {
        match self {
            ParserDefinition::Rule(n) => DefinitionModel::Rule(n@),
            ParserDefinition::Folder(n) => DefinitionModel::Folder(n@),
        }
    }
}

impl View for ParserRule {
    type V = RuleModel;

    open spec fn view(&self) -> RuleModel {
        RuleModel { name: self.name@, matcher: self.matcher@, action: self.action@ }
    }
}

impl View for ParserRuleValue {
    type V = RuleValueModel;

    open spec fn view(&self) -> RuleValueModel {
        match self {
            ParserRuleValue::Matcher(n) => RuleValueModel::Matcher(n@),
            ParserRuleValue::Action(n) => RuleValueModel::Action(n@),
        }
    }
}

/// The model of a matcher node.
pub open spec fn matcher_node_view(n: Node<ParserMatcher>) -> NodeModel<MatcherModel>
    decreases n, 0int,
{
    NodeModel { value: matcher_view(n.value), span: n.span }
}

/// The model of a matcher.
pub open spec fn matcher_view(m: ParserMatcher) -> MatcherModel
    decreases m, 1int,
{
    match m {
        ParserMatcher::And(l) => MatcherModel::And(
            NodeModel { value: match_list_view(l.value), span: l.span },
        ),
        ParserMatcher::Or(l) => MatcherModel::Or(
            NodeModel { value: match_list_view(l.value), span: l.span },
        ),
        ParserMatcher::Not(b) => MatcherModel::Not(Box::new(matcher_node_view(*b))),
        ParserMatcher::Subject(n) => MatcherModel::Subject(n@),
        ParserMatcher::From(n) => MatcherModel::From(n@),
        ParserMatcher::To(n) => MatcherModel::To(n@),
        ParserMatcher::Body(n) => MatcherModel::Body(n@),
    }
}

/// The model of a match list: the models of its matchers, in order.
pub open spec fn match_list_view(l: ParserMatchList) -> Seq<NodeModel<MatcherModel>>
    decreases l, 0int,
{
    Seq::new(
        l.list@.len(),
        |i: int|
            {
                if 0 <= i < l.list@.len() {
                    let n = l.list@[i];
                    NodeModel { value: matcher_view(n.value), span: n.span }
                } else {
                    arbitrary()
                }
            },
    )
}

impl View for ParserMatcher {
    type V = MatcherModel;

    open spec fn view(&self) -> MatcherModel {
        matcher_view(*self)
    }
}

impl View for ParserMatchList {
    type V = Seq<NodeModel<MatcherModel>>;

    open spec fn view(&self) -> Seq<NodeModel<MatcherModel>> {
        match_list_view(*self)
    }
}

impl View for ParserStringMatcher {
    type V = StringMatcherModel;

    open spec fn view(&self) -> StringMatcherModel {
        match self {
            ParserStringMatcher::Contains(s) => StringMatcherModel::Contains(s@),
            ParserStringMatcher::StartsWith(s) => StringMatcherModel::StartsWith(s@),
            ParserStringMatcher::Equals(s) => StringMatcherModel::Equals(s@),
            ParserStringMatcher::Regex(s) => StringMatcherModel::Regex(s@),
        }
    }
}

impl View for ParserAction {
    type V = ActionModel;

    open spec fn view(&self) -> ActionModel {
        match self {
            ParserAction::Delete => ActionModel::Delete,
            ParserAction::MoveTo(n) => ActionModel::MoveTo(n@),
        }
    }
}

impl View for ParserIdentifier {
    type V = Seq<char>;

    open spec fn view(&self) -> Seq<char> {
        self.identifier@
    }
}

impl View for ParserFolder {
    type V = FolderModel;

    open spec fn view(&self) -> FolderModel {
        FolderModel { identifier: self.identifier@, name: self.name@ }
    }
}

} // verus!
