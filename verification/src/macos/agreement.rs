//! Generated profiles decide as the ordered policy does.
use crate::macos::profile::{
    emitted, emitted_for, emitted_rule, exclusions_of, operations, opposite, paths_with,
    SbplRuleView,
};
use crate::policy::{FsAccess, FsRight, RuleEffect};
use vstd::prelude::*;

verus! {

/// Whether one of the names of a path reaches the file that `reaches` is about.
pub open spec fn is_reached(names: Seq<Seq<u8>>, reaches: spec_fn(Seq<u8>) -> bool) -> bool {
    exists|n: int| 0 <= n < names.len() && reaches(#[trigger] names[n])
}

/// Whether rule `i` is about `right` and reaches the file.
pub open spec fn is_about(
    fs: Seq<FsAccess>,
    names: Seq<Seq<Seq<u8>>>,
    reaches: spec_fn(Seq<u8>) -> bool,
    right: FsRight,
    i: int,
) -> bool {
    fs[i].spec_right() == right && is_reached(names[i], reaches)
}

/// The effect on `right` of the last of the first `n` rules that reaches the
/// file; deny where none does.
pub open spec fn ordered_effect(
    fs: Seq<FsAccess>,
    names: Seq<Seq<Seq<u8>>>,
    reaches: spec_fn(Seq<u8>) -> bool,
    right: FsRight,
    n: int,
) -> RuleEffect
    decreases n,
{
    if n <= 0 {
        RuleEffect::Deny
    } else if is_about(fs, names, reaches, right, n - 1) {
        fs[n - 1].spec_effect()
    } else {
        ordered_effect(fs, names, reaches, right, n - 1)
    }
}

/// Whether a rule of the profile matches the file: its path reaches it, and none
/// of its exclusions does.
pub open spec fn matches_file(rule: SbplRuleView, reaches: spec_fn(Seq<u8>) -> bool) -> bool {
    reaches(rule.path) && forall|e: int|
        0 <= e < rule.exclusions.len() ==> !reaches(#[trigger] rule.exclusions[e])
}

/// Every rule of the profile that matches a file for an operation has the effect
/// that the ordered policy has on it, and there is such a rule exactly where the
/// policy has a rule that reaches the file. So it does not matter which of the
/// matching rules Seatbelt goes by.
pub proof fn law_profile_agrees_with_ordered_policy(
    fs: Seq<FsAccess>,
    names: Seq<Seq<Seq<u8>>>,
    reaches: spec_fn(Seq<u8>) -> bool,
    right: FsRight,
    operation: Seq<char>,
)
    requires
        names.len() == fs.len(),
        operations(right).contains(operation),
    ensures
        ({
            let rules = emitted(fs, names, fs.len() as int);
            let effect = ordered_effect(fs, names, reaches, right, fs.len() as int);
            &&& forall|k: int|
                0 <= k < rules.len() && (#[trigger] rules[k]).operation == operation
                    && matches_file(rules[k], reaches) ==> rules[k].allow == (effect
                    == RuleEffect::Allow)
            &&& (exists|k: int|
                0 <= k < rules.len() && (#[trigger] rules[k]).operation == operation
                    && matches_file(rules[k], reaches)) <==> (exists|i: int|
                0 <= i < fs.len() && #[trigger] is_about(fs, names, reaches, right, i))
        }),
{
    let n = fs.len() as int;
    let rules = emitted(fs, names, n);
    let effect = ordered_effect(fs, names, reaches, right, n);
    assert forall|k: int|
        0 <= k < rules.len() && (#[trigger] rules[k]).operation == operation && matches_file(
            rules[k],
            reaches,
        ) implies rules[k].allow == (effect == RuleEffect::Allow) && exists|i: int|
        0 <= i < fs.len() && #[trigger] is_about(fs, names, reaches, right, i) by {
        let (i, m, op) = lemma_emitted_from(fs, names, n, k);
        lemma_operation_tells_right(fs[i].spec_right(), right, operation);
        assert(reaches(names[i][m]));
        assert(is_about(fs, names, reaches, right, i));
        let last = lemma_last_about(fs, names, reaches, right, n, i);
        if fs[last].spec_effect() != fs[i].spec_effect() {
            let j = choose|j: int| 0 <= j < names[last].len() && reaches(#[trigger] names[last][j]);
            lemma_paths_with_contains(
                fs,
                names,
                i + 1,
                right,
                opposite(fs[i].spec_effect()),
                last,
                j,
            );
            let e = choose|e: int|
                0 <= e < exclusions_of(fs, names, i).len() && exclusions_of(fs, names, i)[e]
                    == names[last][j];
            assert(!reaches(rules[k].exclusions[e]));
        }
    }
    if exists|i: int| 0 <= i < fs.len() && #[trigger] is_about(fs, names, reaches, right, i) {
        let i = choose|i: int|
            0 <= i < fs.len() && #[trigger] is_about(fs, names, reaches, right, i);
        let last = lemma_last_about(fs, names, reaches, right, n, i);
        let m = choose|m: int| 0 <= m < names[last].len() && reaches(#[trigger] names[last][m]);
        let k = lemma_emitted_has(fs, names, n, last, m, operation);
        let rule = rules[k];
        assert forall|e: int| 0 <= e < rule.exclusions.len() implies !reaches(
            #[trigger] rule.exclusions[e],
        ) by {
            let (j, q) = lemma_paths_with_from(
                fs,
                names,
                last + 1,
                right,
                opposite(fs[last].spec_effect()),
                e,
            );
            if reaches(rule.exclusions[e]) {
                assert(reaches(names[j][q]));
                assert(is_about(fs, names, reaches, right, j));
            }
        }
        assert(matches_file(rules[k], reaches));
    }
}

/// The last rule about the right decides.
proof fn lemma_last_about(
    fs: Seq<FsAccess>,
    names: Seq<Seq<Seq<u8>>>,
    reaches: spec_fn(Seq<u8>) -> bool,
    right: FsRight,
    n: int,
    i: int,
) -> (last: int)
    requires
        0 <= i < n <= fs.len(),
        is_about(fs, names, reaches, right, i),
    ensures
        i <= last < n,
        is_about(fs, names, reaches, right, last),
        ordered_effect(fs, names, reaches, right, n) == fs[last].spec_effect(),
        forall|j: int| last < j < n ==> !#[trigger] is_about(fs, names, reaches, right, j),
    decreases n,
{
    if is_about(fs, names, reaches, right, n - 1) {
        n - 1
    } else {
        lemma_last_about(fs, names, reaches, right, n - 1, i)
    }
}

/// Each operation belongs to one right.
proof fn lemma_operation_tells_right(a: FsRight, b: FsRight, operation: Seq<char>)
    requires
        operations(a).contains(operation),
        operations(b).contains(operation),
    ensures
        a == b,
{
    reveal_strlit("file-read*");
    reveal_strlit("file-write*");
    reveal_strlit("file-map-executable");
    reveal_strlit("process-exec*");
    assert("file-read*"@.len() == 10);
    assert("file-write*"@.len() == 11);
    assert("file-map-executable"@.len() == 19);
    assert("process-exec*"@.len() == 13);
}

/// Where a rule of the profile comes from.
proof fn lemma_emitted_from(
    fs: Seq<FsAccess>,
    names: Seq<Seq<Seq<u8>>>,
    n: int,
    k: int,
) -> (origin: (int, int, Seq<char>))
    requires
        0 <= n <= fs.len(),
        0 <= k < emitted(fs, names, n).len(),
    ensures
        0 <= origin.0 < n,
        0 <= origin.1 < names[origin.0].len(),
        operations(fs[origin.0].spec_right()).contains(origin.2),
        emitted(fs, names, n)[k] == emitted_rule(
            fs,
            names,
            origin.0,
            names[origin.0][origin.1],
            origin.2,
        ),
    decreases n,
{
    let before = emitted(fs, names, n - 1);
    if k < before.len() {
        assert(emitted(fs, names, n)[k] == before[k]);
        lemma_emitted_from(fs, names, n - 1, k)
    } else {
        let m = names[n - 1].len() as int;
        let here = emitted_for(fs, names, n - 1, m);
        assert(emitted(fs, names, n)[k] == here[k - before.len()]);
        let (j, op) = lemma_emitted_for_from(fs, names, n - 1, m, k - before.len());
        (n - 1, j, op)
    }
}

proof fn lemma_emitted_for_from(
    fs: Seq<FsAccess>,
    names: Seq<Seq<Seq<u8>>>,
    i: int,
    m: int,
    k: int,
) -> (origin: (int, Seq<char>))
    requires
        0 <= m,
        0 <= k < emitted_for(fs, names, i, m).len(),
    ensures
        0 <= origin.0 < m,
        operations(fs[i].spec_right()).contains(origin.1),
        emitted_for(fs, names, i, m)[k] == emitted_rule(
            fs,
            names,
            i,
            names[i][origin.0],
            origin.1,
        ),
    decreases m,
{
    let before = emitted_for(fs, names, i, m - 1);
    if k < before.len() {
        assert(emitted_for(fs, names, i, m)[k] == before[k]);
        lemma_emitted_for_from(fs, names, i, m - 1, k)
    } else {
        let ops = operations(fs[i].spec_right());
        let at = k - before.len();
        assert(ops.contains(ops[at]));
        (m - 1, ops[at])
    }
}

/// The profile has a rule for each operation on each name.
proof fn lemma_emitted_has(
    fs: Seq<FsAccess>,
    names: Seq<Seq<Seq<u8>>>,
    n: int,
    i: int,
    m: int,
    operation: Seq<char>,
) -> (k: int)
    requires
        0 <= i < n <= fs.len(),
        0 <= m < names[i].len(),
        operations(fs[i].spec_right()).contains(operation),
    ensures
        0 <= k < emitted(fs, names, n).len(),
        emitted(fs, names, n)[k] == emitted_rule(fs, names, i, names[i][m], operation),
    decreases n,
{
    let before = emitted(fs, names, n - 1);
    if i < n - 1 {
        let k = lemma_emitted_has(fs, names, n - 1, i, m, operation);
        assert(emitted(fs, names, n)[k] == before[k]);
        k
    } else {
        let all = names[i].len() as int;
        let j = lemma_emitted_for_has(fs, names, i, all, m, operation);
        assert(emitted(fs, names, n)[before.len() + j] == emitted_for(fs, names, i, all)[j]);
        before.len() + j
    }
}

proof fn lemma_emitted_for_has(
    fs: Seq<FsAccess>,
    names: Seq<Seq<Seq<u8>>>,
    i: int,
    n: int,
    m: int,
    operation: Seq<char>,
) -> (k: int)
    requires
        0 <= m < n,
        operations(fs[i].spec_right()).contains(operation),
    ensures
        0 <= k < emitted_for(fs, names, i, n).len(),
        emitted_for(fs, names, i, n)[k] == emitted_rule(fs, names, i, names[i][m], operation),
    decreases n,
{
    let before = emitted_for(fs, names, i, n - 1);
    if m < n - 1 {
        let k = lemma_emitted_for_has(fs, names, i, n - 1, m, operation);
        assert(emitted_for(fs, names, i, n)[k] == before[k]);
        k
    } else {
        let ops = operations(fs[i].spec_right());
        let at = choose|at: int| 0 <= at < ops.len() && ops[at] == operation;
        before.len() + at
    }
}

/// The collected paths hold every name of every rule that is asked for.
proof fn lemma_paths_with_contains(
    fs: Seq<FsAccess>,
    names: Seq<Seq<Seq<u8>>>,
    from: int,
    right: FsRight,
    effect: RuleEffect,
    j: int,
    q: int,
)
    requires
        0 <= from <= j < fs.len(),
        fs[j].spec_right() == right,
        fs[j].spec_effect() == effect,
        0 <= q < names[j].len(),
    ensures
        paths_with(fs, names, from, right, effect).contains(names[j][q]),
    decreases fs.len() - from,
{
    let rest = paths_with(fs, names, from + 1, right, effect);
    let all = paths_with(fs, names, from, right, effect);
    if from == j {
        assert(all[q] == names[j][q]);
    } else {
        lemma_paths_with_contains(fs, names, from + 1, right, effect, j, q);
        let k = choose|k: int| 0 <= k < rest.len() && rest[k] == names[j][q];
        if fs[from].spec_right() == right && fs[from].spec_effect() == effect {
            assert(all[names[from].len() + k] == rest[k]);
        } else {
            assert(all[k] == rest[k]);
        }
    }
}

/// Where a collected path comes from.
proof fn lemma_paths_with_from(
    fs: Seq<FsAccess>,
    names: Seq<Seq<Seq<u8>>>,
    from: int,
    right: FsRight,
    effect: RuleEffect,
    e: int,
) -> (origin: (int, int))
    requires
        0 <= from,
        0 <= e < paths_with(fs, names, from, right, effect).len(),
    ensures
        from <= origin.0 < fs.len(),
        fs[origin.0].spec_right() == right,
        0 <= origin.1 < names[origin.0].len(),
        paths_with(fs, names, from, right, effect)[e] == names[origin.0][origin.1],
    decreases fs.len() - from,
{
    if fs[from].spec_right() == right && fs[from].spec_effect() == effect {
        if e < names[from].len() {
            (from, e)
        } else {
            lemma_paths_with_from(fs, names, from + 1, right, effect, e - names[from].len())
        }
    } else {
        lemma_paths_with_from(fs, names, from + 1, right, effect, e)
    }
}

} // verus!
