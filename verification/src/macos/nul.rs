//! Generated profiles hold no NUL.
use crate::config::SandboxConfig;
use crate::macos::profile::{
    all_fit, all_mentioned, emitted, emitted_for, emitted_rule, exclusion_text, filter_text,
    generated, imports_text, mentioned, names_of, network_text, operations, policy_text,
    profile_text, rule_text, rules_text, SbplRuleView,
};
use crate::macos::sbpl::{escaped, escaped_char, is_control_char, literal, path_problem};
use crate::macos::seatbelt::is_nul_free;
use crate::path::SandboxPath;
use crate::policy::{FsAccess, FsRight};
use vstd::prelude::*;
use vstd::utf8::decode_utf8;

verus! {

/// Whether a rule is about one of the operations that profiles speak of.
pub open spec fn is_known(rule: SbplRuleView) -> bool {
    exists|right: FsRight| #[trigger] operations(right).contains(rule.operation)
}

proof fn lemma_joined(a: Seq<char>, b: Seq<char>)
    requires
        is_nul_free(a),
        is_nul_free(b),
    ensures
        is_nul_free(a + b),
{
    if (a + b).contains('\0') {
        let i = choose|i: int| 0 <= i < (a + b).len() && (a + b)[i] == '\0';
        if i < a.len() {
            assert(a[i] == '\0');
        } else {
            assert(b[i - a.len()] == '\0');
        }
    }
}

proof fn lemma_literal(path: Seq<u8>)
    requires
        path_problem(path) is None,
    ensures
        is_nul_free(literal(path)),
{
    let text = decode_utf8(path);
    assert forall|i: int| 0 <= i < text.len() implies text[i] != '\0' by {
        assert(!is_control_char(text[i]));
    }
    lemma_escaped(text);
}

proof fn lemma_escaped(text: Seq<char>)
    requires
        forall|i: int| 0 <= i < text.len() ==> text[i] != '\0',
    ensures
        is_nul_free(escaped(text)),
    decreases text.len(),
{
    if text.len() > 0 {
        lemma_escaped(text.drop_last());
        lemma_joined(escaped(text.drop_last()), escaped_char(text.last()));
    }
}

proof fn lemma_exclusions(exclusions: Seq<Seq<u8>>)
    requires
        all_fit(exclusions),
    ensures
        is_nul_free(exclusion_text(exclusions)),
    decreases exclusions.len(),
{
    if exclusions.len() > 0 {
        reveal_strlit(" (require-not (subpath \"");
        reveal_strlit("\"))");
        let shorter = exclusions.drop_last();
        assert forall|i: int| 0 <= i < shorter.len() implies path_problem(
            #[trigger] shorter[i],
        ) is None by {
            assert(shorter[i] == exclusions[i]);
        }
        lemma_exclusions(shorter);
        let path = exclusions[exclusions.len() - 1];
        lemma_literal(path);
        let a = exclusion_text(shorter);
        lemma_joined(a, " (require-not (subpath \""@);
        lemma_joined(a + " (require-not (subpath \""@, literal(path));
        lemma_joined(a + " (require-not (subpath \""@ + literal(path), "\"))"@);
    }
}

proof fn lemma_filter(path: Seq<u8>, exclusions: Seq<Seq<u8>>)
    requires
        path_problem(path) is None,
        all_fit(exclusions),
    ensures
        is_nul_free(filter_text(path, exclusions)),
{
    reveal_strlit("(subpath \"");
    reveal_strlit("(require-all (subpath \"");
    reveal_strlit("\")");
    reveal_strlit(")");
    lemma_literal(path);
    lemma_exclusions(exclusions);
    let start = if exclusions.len() == 0 {
        "(subpath \""@
    } else {
        "(require-all (subpath \""@
    };
    lemma_joined(start, literal(path));
    lemma_joined(start + literal(path), "\")"@);
    let a = start + literal(path) + "\")"@;
    lemma_joined(a, exclusion_text(exclusions));
    lemma_joined(a + exclusion_text(exclusions), ")"@);
}

proof fn lemma_operations(right: FsRight, operation: Seq<char>)
    requires
        operations(right).contains(operation),
    ensures
        is_nul_free(operation),
{
    reveal_strlit("file-read*");
    reveal_strlit("file-write*");
    reveal_strlit("file-map-executable");
    reveal_strlit("process-exec*");
}

proof fn lemma_rule(rule: SbplRuleView)
    requires
        is_known(rule),
        path_problem(rule.path) is None,
        all_fit(rule.exclusions),
    ensures
        is_nul_free(rule_text(rule)),
{
    reveal_strlit("(");
    reveal_strlit("allow");
    reveal_strlit("deny");
    reveal_strlit(" ");
    reveal_strlit(")\n");
    let right = choose|right: FsRight| #[trigger] operations(right).contains(rule.operation);
    lemma_operations(right, rule.operation);
    lemma_filter(rule.path, rule.exclusions);
    let effect = if rule.allow {
        "allow"@
    } else {
        "deny"@
    };
    let filter = filter_text(rule.path, rule.exclusions);
    lemma_joined("("@, effect);
    lemma_joined("("@ + effect, " "@);
    lemma_joined("("@ + effect + " "@, rule.operation);
    lemma_joined("("@ + effect + " "@ + rule.operation, " "@);
    lemma_joined("("@ + effect + " "@ + rule.operation + " "@, filter);
    lemma_joined("("@ + effect + " "@ + rule.operation + " "@ + filter, ")\n"@);
}

proof fn lemma_rules(rules: Seq<SbplRuleView>)
    requires
        forall|i: int| 0 <= i < rules.len() ==> is_known(#[trigger] rules[i]),
        all_fit(mentioned(rules)),
    ensures
        is_nul_free(rules_text(rules)),
    decreases rules.len(),
{
    if rules.len() > 0 {
        let shorter = rules.drop_last();
        let rule = rules[rules.len() - 1];
        let all = mentioned(rules);
        let before = mentioned(shorter);
        assert(all == before + seq![rule.path] + rule.exclusions);
        assert forall|i: int| 0 <= i < before.len() implies path_problem(
            #[trigger] before[i],
        ) is None by {
            assert(all[i] == before[i]);
        }
        assert(all[before.len() as int] == rule.path);
        assert forall|i: int| 0 <= i < rule.exclusions.len() implies path_problem(
            #[trigger] rule.exclusions[i],
        ) is None by {
            assert(all[before.len() + 1 + i] == rule.exclusions[i]);
        }
        assert forall|i: int| 0 <= i < shorter.len() implies is_known(#[trigger] shorter[i]) by {
            assert(shorter[i] == rules[i]);
        }
        lemma_rules(shorter);
        lemma_rule(rule);
        lemma_joined(rules_text(shorter), rule_text(rule));
    }
}

proof fn lemma_known_for(fs: Seq<FsAccess>, names: Seq<Seq<Seq<u8>>>, i: int, n: int)
    ensures
        forall|k: int|
            0 <= k < emitted_for(fs, names, i, n).len() ==> is_known(
                #[trigger] emitted_for(fs, names, i, n)[k],
            ),
    decreases n,
{
    if n > 0 {
        lemma_known_for(fs, names, i, n - 1);
        let all = emitted_for(fs, names, i, n);
        let before = emitted_for(fs, names, i, n - 1);
        let listed = operations(fs[i].spec_right());
        assert forall|k: int| 0 <= k < all.len() implies is_known(#[trigger] all[k]) by {
            if k < before.len() {
                assert(all[k] == before[k]);
            } else {
                let operation = listed[k - before.len()];
                assert(all[k] == emitted_rule(fs, names, i, names[i][n - 1], operation));
                assert(operations(fs[i].spec_right()).contains(all[k].operation));
            }
        }
    }
}

pub(crate) proof fn lemma_known(fs: Seq<FsAccess>, names: Seq<Seq<Seq<u8>>>, n: int)
    ensures
        forall|k: int|
            0 <= k < emitted(fs, names, n).len() ==> is_known(#[trigger] emitted(fs, names, n)[k]),
    decreases n,
{
    if n > 0 {
        lemma_known(fs, names, n - 1);
        lemma_known_for(fs, names, n - 1, names[n - 1].len() as int);
        let all = emitted(fs, names, n);
        let before = emitted(fs, names, n - 1);
        let here = emitted_for(fs, names, n - 1, names[n - 1].len() as int);
        assert forall|k: int| 0 <= k < all.len() implies is_known(#[trigger] all[k]) by {
            if k < before.len() {
                assert(all[k] == before[k]);
            } else {
                assert(all[k] == here[k - before.len()]);
            }
        }
    }
}

proof fn lemma_imports(imports: Seq<Seq<u8>>)
    requires
        all_fit(imports),
    ensures
        is_nul_free(imports_text(imports)),
    decreases imports.len(),
{
    if imports.len() > 0 {
        reveal_strlit("(import \"");
        reveal_strlit("\")\n");
        let shorter = imports.drop_last();
        let path = imports[imports.len() - 1];
        assert forall|i: int| 0 <= i < shorter.len() implies path_problem(
            #[trigger] shorter[i],
        ) is None by {
            assert(shorter[i] == imports[i]);
        }
        lemma_imports(shorter);
        lemma_literal(path);
        let a = imports_text(shorter);
        lemma_joined(a, "(import \""@);
        lemma_joined(a + "(import \""@, literal(path));
        lemma_joined(a + "(import \""@ + literal(path), "\")\n"@);
    }
}

/// A profile of paths that can be in one holds no NUL, whatever the policy is:
/// the launcher reads all of it.
pub proof fn law_generated_profile_is_whole(
    config: SandboxConfig,
    canonical: Seq<Option<SandboxPath>>,
    imports: Seq<Seq<u8>>,
)
    requires
        all_fit(all_mentioned(config, canonical, imports)),
    ensures
        is_nul_free(profile_text(config, canonical, imports)),
{
    reveal_strlit("(version 1)\n");
    reveal_strlit("(deny default)\n(debug deny)\n");
    reveal_strlit("(allow network-outbound)\n");
    reveal_strlit("(allow system-socket)\n");
    reveal_strlit("(allow network*)\n");
    let all = all_mentioned(config, canonical, imports);
    let rules = generated(config, canonical);
    let named = mentioned(rules);
    assert forall|i: int| 0 <= i < imports.len() implies path_problem(
        #[trigger] imports[i],
    ) is None by {
        assert(all[i] == imports[i]);
    }
    assert forall|i: int| 0 <= i < named.len() implies path_problem(#[trigger] named[i]) is None by {
        assert(all[imports.len() + i] == named[i]);
    }
    lemma_imports(imports);
    lemma_known(config.fs@, names_of(config.fs@, canonical), config.fs@.len() as int);
    lemma_rules(rules);
    lemma_joined("(allow network-outbound)\n"@, "(allow system-socket)\n"@);
    lemma_joined("(allow network*)\n"@, "(allow system-socket)\n"@);
    let head = "(deny default)\n(debug deny)\n"@;
    lemma_joined(head, rules_text(rules));
    lemma_joined(head + rules_text(rules), network_text(config.network));
    lemma_joined("(version 1)\n"@, imports_text(imports));
    lemma_joined("(version 1)\n"@ + imports_text(imports), policy_text(config, canonical));
}

} // verus!
