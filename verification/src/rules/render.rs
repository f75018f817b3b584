//! The catalog as text: a section for each document, a table for each clause, a row for
//! each rule.

use vstd::prelude::*;

use crate::rules::catalog::catalog;
use crate::rules::{all_rules, rule_name, Document, RuleInfo, RuleState};
use crate::text;

verus! {

/// The clause of a rule, as the catalog shows it.
pub open spec fn shown_clause(clause: Seq<char>) -> Seq<char> {
    if clause == "none"@ {
        "not legislated"@
    } else {
        clause
    }
}

/// The row of a rule.
pub open spec fn row(rule: RuleInfo) -> Seq<char> {
    "| `"@ + rule_name(rule.id) + "` ("@ + shown_clause(rule.id.clause@) + ") | "@
        + rule.requirement.spelled() + " | "@ + (rule.state.spelled() + " | "@ + rule.statement@
        + " |\n"@)
}

/// What stands above the rows of a table.
pub const TABLE_HEAD: &'static str = "| Rule | Level | State | Requirement |\n|---|---|---|---|\n";

/// The clause of the last of some rules that a document states.
pub open spec fn last_clause(rules: Seq<RuleInfo>, document: Document) -> Option<Seq<char>>
    decreases rules.len(),
{
    if rules.len() == 0 {
        None
    } else if rules.last().id.document == document {
        Some(rules.last().id.clause@)
    } else {
        last_clause(rules.drop_last(), document)
    }
}

/// What stands before a rule's row: the head of a table where the rule is the first of
/// its clause.
pub open spec fn table_start(before: Option<Seq<char>>, clause: Seq<char>) -> Seq<char> {
    match before {
        None => TABLE_HEAD@,
        Some(c) => if c == clause {
            Seq::empty()
        } else {
            "\n"@ + TABLE_HEAD@
        },
    }
}

/// The tables of those of some rules that a document states, one for each clause.
pub open spec fn tables(rules: Seq<RuleInfo>, document: Document) -> Seq<char>
    decreases rules.len(),
{
    if rules.len() == 0 {
        Seq::empty()
    } else {
        let before = tables(rules.drop_last(), document);
        let rule = rules.last();
        if rule.id.document == document {
            before + table_start(last_clause(rules.drop_last(), document), rule.id.clause@) + row(
                rule,
            )
        } else {
            before
        }
    }
}

/// Whether a document states one of some rules.
pub open spec fn states_any(rules: Seq<RuleInfo>, document: Document) -> bool {
    exists|i: int| 0 <= i < rules.len() && (#[trigger] rules[i]).id.document == document
}

/// The section of a document, nothing where it states none of the rules.
pub open spec fn section(rules: Seq<RuleInfo>, document: Document) -> Seq<char> {
    if states_any(rules, document) {
        "## "@ + document.full_name() + "\n\n"@ + tables(rules, document) + "\n"@
    } else {
        Seq::empty()
    }
}

/// How many of some rules are checked.
pub open spec fn checked(rules: Seq<RuleInfo>) -> nat
    decreases rules.len(),
{
    if rules.len() == 0 {
        0
    } else {
        checked(rules.drop_last()) + (if rules.last().state == RuleState::Detected {
            1nat
        } else {
            0
        })
    }
}

/// What stands before the rules.
pub const PREAMBLE: &'static str = "# Conformance rules\n\nThis is a catalog of every AFF4 and AFF4-L specification rule that `aff4tools conformance` knows about, generated from the rule\nregistry in `src/rules/catalog.rs`.\n\n**This file is generated.** Edit the rule registry, not this document.\n\n## Rule states\n\n| State | Meaning |\n|---|---|\n| detected | A checker exists and runs. |\n| not implemented | Declared, but no checker exists yet. Reported as a coverage gap. |\n| not checkable | No checker can exist yet, because the requirement itself is unsettled. |\n\n";

/// Rules as text.
pub open spec fn rendered(rules: Seq<RuleInfo>) -> Seq<char> {
    PREAMBLE@ + section(rules, Document::Aff4Standard10a) + section(
        rules,
        Document::Aff4LPaper2019,
    ) + section(rules, Document::Aff4LStandard10Alpha) + ("## Coverage\n\n"@ + text::decimal(
        checked(rules),
    ) + " of "@ + text::decimal(rules.len()) + " declared rules are checked.\n"@)
}

/// The row of a rule.
fn render_row(rule: &RuleInfo) -> (r: String)
    ensures
        r@ == row(*rule),
{
    let name = rule.id.to_string();
    let clause = if text::same(rule.id.clause, "none") {
        "not legislated"
    } else {
        rule.id.clause
    };
    let tail = text::cat4(rule.state.as_str(), " | ", rule.statement, " |\n");
    text::cat4(
        text::cat5("| `", name.as_str(), "` (", clause, ") | ").as_str(),
        rule.requirement.as_str(),
        " | ",
        tail.as_str(),
    )
}

/// What stands before a rule's row.
fn render_start(before: Option<&'static str>, clause: &'static str) -> (r: String)
    ensures
        r@ == table_start(
            match before {
                Some(c) => Some(c@),
                None => None,
            },
            clause@,
        ),
{
    match before {
        None => text::owned(TABLE_HEAD),
        Some(c) => if text::same(c, clause) {
            String::new()
        } else {
            text::cat2("\n", TABLE_HEAD)
        },
    }
}

/// The section of a document.
fn render_section(rules: &Vec<RuleInfo>, document: Document) -> (r: String)
    ensures
        r@ == section(rules@, document),
{
    let mut body = String::new();
    let mut any = false;
    let mut last: Option<&'static str> = None;
    let mut i: usize = 0;
    proof {
        assert(body@ =~= tables(rules@.take(0), document));
    }
    while i < rules.len()
        invariant
            i <= rules@.len(),
            body@ == tables(rules@.take(i as int), document),
            (match last {
                Some(c) => last_clause(rules@.take(i as int), document) == Some(c@),
                None => last_clause(rules@.take(i as int), document) is None,
            }),
            any == exists|k: int| 0 <= k < i && (#[trigger] rules@[k]).id.document == document,
        decreases rules@.len() - i,
    {
        proof {
            assert(rules@.take(i + 1).drop_last() =~= rules@.take(i as int));
        }
        if rules[i].id.document == document {
            proof {
                assert(rules@[i as int].id.document == document);
            }
            let clause: &'static str = rules[i].id.clause;
            let start = render_start(last, clause);
            let next = render_row(&rules[i]);
            body = text::cat3(body.as_str(), start.as_str(), next.as_str());
            last = Some(clause);
            any = true;
        }
        i = i + 1;
    }
    proof {
        assert(rules@.take(i as int) =~= rules@);
    }
    if any {
        text::cat5(
            "## ",
            document.name(),
            "\n\n",
            body.as_str(),
            "\n",
        )
    } else {
        String::new()
    }
}

/// How many rules are checked.
fn count_checked(rules: &Vec<RuleInfo>) -> (r: usize)
    ensures
        r == checked(rules@),
{
    let mut n: usize = 0;
    let mut i: usize = 0;
    while i < rules.len()
        invariant
            i <= rules@.len(),
            n <= i,
            n == checked(rules@.take(i as int)),
        decreases rules@.len() - i,
    {
        proof {
            assert(rules@.take(i + 1).drop_last() =~= rules@.take(i as int));
        }
        if rules[i].state == RuleState::Detected {
            n = n + 1;
        }
        i = i + 1;
    }
    proof {
        assert(rules@.take(i as int) =~= rules@);
    }
    n
}

/// The whole catalog as text.
pub fn render_catalog() -> (r: String)
    ensures
        r@ == rendered(catalog()),
{
    let rules = all_rules();
    let standard = render_section(&rules, Document::Aff4Standard10a);
    let paper = render_section(&rules, Document::Aff4LPaper2019);
    let alpha = render_section(&rules, Document::Aff4LStandard10Alpha);
    let done = text::dec_usize(count_checked(&rules));
    let all = text::dec_usize(rules.len());
    let tail = text::cat5(
        "## Coverage\n\n",
        done.as_str(),
        " of ",
        all.as_str(),
        " declared rules are checked.\n",
    );
    text::cat5(PREAMBLE, standard.as_str(), paper.as_str(), alpha.as_str(), tail.as_str())
}

} // verus!
