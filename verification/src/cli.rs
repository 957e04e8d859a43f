use std::path::PathBuf;
use vstd::prelude::*;

use crate::inbox::{Message, MessageModel};
use crate::process::{matches_spec, Action, Rule, RuleSpec};
use crate::dsl::resolver::rules_view;

verus! {

/// std's `PathBuf`, carried through opaquely.
#[verifier::external_type_specification]
#[verifier::external_body]
pub struct ExPathBuf(PathBuf);

/// The command-line arguments.
#[derive(Debug)]
pub struct Args {
    /// Path to the TOML config file.
    pub config: Option<PathBuf>,
    /// Path to the rules file.
    pub rules: Option<PathBuf>,
    /// The logging level.
    pub log: Log,
    /// The server to connect to; else the configuration's default one.
    pub server: Option<String>,
    /// Path to the persistent database.
    pub db: Option<PathBuf>,
    /// The polling delay, for servers without IDLE.
    pub polling_delay: Option<u32>,
    /// Only check whether the configuration is valid.
    pub check: bool,
    /// Run the rules on the most recent messages without acting on them.
    pub dry_run: bool,
    /// A special subcommand.
    pub subcommands: Option<Subcommands>,
}

/// Special subcommands.
#[derive(Debug)]
pub enum Subcommands {
    /// Outputs shell completions to stdout.
    Completions { shell: Shell },
    /// Initializes the configuration files.
    Init(InitArgs),
}

/// The arguments of the `init` subcommand.
#[derive(Debug)]
pub struct InitArgs {
    /// Where to write the configuration file instead of the default path.
    pub custom_path: Option<PathBuf>,
    /// Whether to write a sample rules file to the default path.
    pub write_example_rules: bool,
}

/// The shells that completions can be generated for.
#[derive(Debug, Clone, Copy, PartialEq, Eq)]
pub enum Shell {
    Zsh,
    Fish,
    Bash,
}

/// The logging levels.
#[derive(Debug, Clone, Copy, PartialEq, Eq)]
pub enum Log {
    Off,
    Error,
    Warn,
    Info,
    Debug,
    Trace,
}

// ---------------------------------------------------------------------------
// Dry runs
// ---------------------------------------------------------------------------

/// What a dry run found: how many matches would delete or move a message,
/// and how many messages no rule matches.
#[derive(Debug, Clone, Copy, PartialEq, Eq)]
pub struct DryRunCounts {
    pub deleted: usize,
    pub moved: usize,
    pub unmatched: usize,
}

/// The number of rules that match the message and would delete it (`delete`)
/// or move it (`!delete`).
pub open spec fn rule_hits(rules: Seq<RuleSpec>, msg: MessageModel, delete: bool) -> nat
    decreases rules.len(),
{
    if rules.len() == 0 {
        0
    } else {
        rule_hits(rules.drop_last(), msg, delete) + if matches_spec(rules.last().matcher, msg) && (
        rules.last().action is Delete) == delete {
            1nat
        } else {
            0nat
        }
    }
}

/// Whether some rule matches the message.
pub open spec fn some_rule_matches(rules: Seq<RuleSpec>, msg: MessageModel) -> bool {
    exists|i: int| 0 <= i < rules.len() && matches_spec(#[trigger] rules[i].matcher, msg)
}

/// The counts of a dry run of the rules over the messages: every match of a
/// rule counts, and a message that no rule matches counts once.
pub open spec fn dry_run_spec(msgs: Seq<MessageModel>, rules: Seq<RuleSpec>) -> (nat, nat, nat)
    decreases msgs.len(),
{
    if msgs.len() == 0 {
        (0, 0, 0)
    } else {
        let (d, m, u) = dry_run_spec(msgs.drop_last(), rules);
        (
            d + rule_hits(rules, msgs.last(), true),
            m + rule_hits(rules, msgs.last(), false),
            u + if some_rule_matches(rules, msgs.last()) {
                0nat
            } else {
                1nat
            },
        )
    }
}

pub open spec fn messages_view(v: Seq<Message>) -> Seq<MessageModel> {
    v.map_values(|m: Message| m@)
}

proof fn lemma_rule_hits_bound(rules: Seq<RuleSpec>, msg: MessageModel)
    ensures
        rule_hits(rules, msg, true) + rule_hits(rules, msg, false) <= rules.len(),
    decreases rules.len(),
{
    if rules.len() > 0 {
        lemma_rule_hits_bound(rules.drop_last(), msg);
    }
}

/// A dry run counts at most one match per message and rule, and at most
/// one unmatched message per message.
pub proof fn lemma_dry_run_bound(msgs: Seq<MessageModel>, rules: Seq<RuleSpec>)
    ensures
        dry_run_spec(msgs, rules).0 + dry_run_spec(msgs, rules).1 <= msgs.len() * rules.len(),
        dry_run_spec(msgs, rules).2 <= msgs.len(),
    decreases msgs.len(),
{
    if msgs.len() > 0 {
        lemma_dry_run_bound(msgs.drop_last(), rules);
        lemma_rule_hits_bound(rules, msgs.last());
        let n = msgs.len() as int;
        let r = rules.len() as int;
        assert(n * r == (n - 1) * r + r) by (nonlinear_arith);
    }
}

/// Whether no rule at all matches a message.
pub open spec fn matched_by_no_rule(rules: Seq<RuleSpec>) -> spec_fn(MessageModel) -> bool {
    |m: MessageModel| forall|i: int| 0 <= i < rules.len() ==> !matches_spec(#[trigger] rules[i].matcher, m)
}

/// Whether a rule matches a message and deletes it (`delete`) or moves it
/// (`!delete`).
pub open spec fn hits(msg: MessageModel, delete: bool) -> spec_fn(RuleSpec) -> bool {
    |r: RuleSpec| matches_spec(r.matcher, msg) && (r.action is Delete) == delete
}

/// For one message, the deletions (or moves) that a dry run counts are the
/// rules that match the message and have that action.
pub proof fn lemma_rule_hits_count(rules: Seq<RuleSpec>, msg: MessageModel, delete: bool)
    ensures
        rule_hits(rules, msg, delete) == rules.filter(hits(msg, delete)).len(),
    decreases rules.len(),
{
    reveal_with_fuel(Seq::filter, 1);
    if rules.len() > 0 {
        lemma_rule_hits_count(rules.drop_last(), msg, delete);
        assert(rules.drop_last().push(rules.last()) =~= rules);
        rules.drop_last().lemma_filter_push(rules.last(), hits(msg, delete));
    }
}

/// A dry run counts as unmatched exactly the messages that no rule at all
/// matches, and, with a single message, as deleted (moved) exactly the
/// rules that match it and delete (move) it.
pub proof fn lemma_dry_run_counts_meaning(msgs: Seq<MessageModel>, rules: Seq<RuleSpec>)
    ensures
        dry_run_spec(msgs, rules).2 == msgs.filter(matched_by_no_rule(rules)).len(),
        msgs.len() == 1 ==> dry_run_spec(msgs, rules).0 == rules.filter(hits(msgs[0], true)).len(),
        msgs.len() == 1 ==> dry_run_spec(msgs, rules).1 == rules.filter(hits(msgs[0], false)).len(),
    decreases msgs.len(),
{
    reveal_with_fuel(Seq::filter, 1);
    if msgs.len() > 0 {
        lemma_dry_run_counts_meaning(msgs.drop_last(), rules);
        let last = msgs.last();
        assert(msgs.drop_last().push(last) =~= msgs);
        msgs.drop_last().lemma_filter_push(last, matched_by_no_rule(rules));
        if some_rule_matches(rules, last) {
            let k = choose|k: int| 0 <= k < rules.len() && matches_spec(#[trigger] rules[k].matcher, last);
            assert(!matched_by_no_rule(rules)(last));
        } else {
            assert(matched_by_no_rule(rules)(last));
        }
        lemma_rule_hits_count(rules, last, true);
        lemma_rule_hits_count(rules, last, false);
        if msgs.len() == 1 {
            assert(msgs.drop_last() =~= Seq::<MessageModel>::empty());
            assert(last == msgs[0]);
        }
    }
}

/// What running every rule over every message would do, without doing it:
/// how many matches would delete a message, how many would move one, and
/// how many messages no rule matches.
pub fn dry_run_counts(messages: &Vec<Message>, rules: &Vec<Rule>) -> (c: DryRunCounts)
    requires
        messages@.len() * rules@.len() <= usize::MAX,
    ensures
        (c.deleted as nat, c.moved as nat, c.unmatched as nat) == dry_run_spec(
            messages_view(messages@),
            rules_view(rules@),
        ),
{
    let ghost msgs = messages_view(messages@);
    let ghost rs = rules_view(rules@);
    let mut deleted: usize = 0;
    let mut moved: usize = 0;
    let mut unmatched: usize = 0;
    let mut i: usize = 0;
    proof {
        assert(msgs.take(0) =~= Seq::<MessageModel>::empty());
    }
    while i < messages.len()
        invariant
            msgs == messages_view(messages@),
            rs == rules_view(rules@),
            messages@.len() * rules@.len() <= usize::MAX,
            i <= messages@.len(),
            (deleted as nat, moved as nat, unmatched as nat) == dry_run_spec(msgs.take(i as int), rs),
        decreases messages@.len() - i,
    {
        let msg = &messages[i];
        let mut d: usize = 0;
        let mut m: usize = 0;
        let mut any = false;
        let mut j: usize = 0;
        proof {
            assert(rs.take(0) =~= Seq::<RuleSpec>::empty());
        }
        while j < rules.len()
            invariant
                rs == rules_view(rules@),
                i < messages@.len(),
                *msg == messages@[i as int],
                j <= rules@.len(),
                d as nat == rule_hits(rs.take(j as int), msg@, true),
                m as nat == rule_hits(rs.take(j as int), msg@, false),
                d + m <= j,
                any == some_rule_matches(rs.take(j as int), msg@),
            decreases rules@.len() - j,
        {
            let rule = &rules[j];
            proof {
                assert(rs.take(j + 1).drop_last() =~= rs.take(j as int));
                assert(rs.take(j + 1).last() == rule@);
            }
            match rule.action_for(msg) {
                Some(action) => {
                    any = true;
                    match action {
                        Action::Delete => {
                            d = d + 1;
                        },
                        Action::Move(_) => {
                            m = m + 1;
                        },
                    }
                },
                None => {},
            }
            proof {
                let t = rs.take(j + 1);
                if some_rule_matches(t, msg@) {
                    let k = choose|k: int| 0 <= k < t.len() && matches_spec(#[trigger] t[k].matcher, msg@);
                    if k < j {
                        assert(rs.take(j as int)[k] == t[k]);
                    }
                }
                if some_rule_matches(rs.take(j as int), msg@) {
                    let k = choose|k: int|
                        0 <= k < j && matches_spec(#[trigger] rs.take(j as int)[k].matcher, msg@);
                    assert(rs.take(j as int)[k] == t[k]);
                }
                if matches_spec(rule@.matcher, msg@) {
                    assert(t[j as int] == rule@);
                }
            }
            j = j + 1;
        }
        proof {
            assert(rs.take(rules@.len() as int) =~= rs);
            assert(msgs.take(i + 1).drop_last() =~= msgs.take(i as int));
            assert(msgs.take(i + 1).last() == msg@);
            lemma_dry_run_bound(msgs.take(i + 1), rs);
            lemma_dry_run_bound(msgs.take(i as int), rs);
            assert(msgs.take(i as int).len() == i);
            assert(dry_run_spec(msgs.take(i + 1), rs) == (
                deleted as nat + d as nat,
                moved as nat + m as nat,
                unmatched as nat + if any {
                    0nat
                } else {
                    1nat
                },
            ));
            assert((i + 1) * rules@.len() <= messages@.len() * rules@.len()) by (nonlinear_arith)
                requires
                    i + 1 <= messages@.len(),
            ;
        }
        deleted = deleted + d;
        moved = moved + m;
        if !any {
            unmatched = unmatched + 1;
        }
        i = i + 1;
    }
    proof {
        assert(msgs.take(messages@.len() as int) =~= msgs);
    }
    DryRunCounts { deleted, moved, unmatched }
}

} // verus!
