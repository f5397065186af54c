//! The names under which Seatbelt may see a policy path.
//!
//! Seatbelt matches the resolved name of a path, so a policy path that leads
//! through a symbolic link is written into the profile under both names. A path
//! that does not exist yet is resolved as far as it exists.
use crate::path::{
    law_names_are_joined, lemma_names_between, lemma_names_cut, lemma_spans_hold_names, name_spans, names_from, position_from, spans_from, SandboxPath,
    SEPARATOR,
};
use vstd::prelude::*;

verus! {

/// Whether a path starts at the root.
pub open spec fn starts_at_root(path: Seq<u8>) -> bool {
    path.len() > 0 && path[0] == SEPARATOR
}

/// Whether the first name of a relative path is `.`, which counts there.
pub open spec fn starts_with_dot(path: Seq<u8>) -> bool {
    path.len() > 0 && path.subrange(0, position_from(path, SEPARATOR, 0)) == seq![0x2eu8]
}

/// Whether two paths are written with the same names.
pub open spec fn same_names(a: Seq<u8>, b: Seq<u8>) -> bool {
    starts_at_root(a) == starts_at_root(b) && starts_with_dot(a) == starts_with_dot(b)
        && names_from(a, 0) == names_from(b, 0)
}

/// The part of an absolute path up to its `n`-th name; the root for none.
pub open spec fn ancestor_at(path: Seq<u8>, n: int) -> Seq<u8> {
    if n <= 0 {
        seq![SEPARATOR]
    } else {
        path.take(spans_from(path, 0)[n - 1].1)
    }
}

/// The part of a path from its `n`-th name to its last.
pub open spec fn names_after(path: Seq<u8>, n: int) -> Seq<u8> {
    let spans = spans_from(path, 0);
    path.subrange(spans[n].0, spans.last().1)
}

/// A relative path beneath a base.
pub open spec fn joined(base: Seq<u8>, rest: Seq<u8>) -> Seq<u8> {
    if base.len() == 0 || base.last() == SEPARATOR {
        base + rest
    } else {
        base + seq![SEPARATOR] + rest
    }
}

/// What is looked up to resolve a path: the path itself, and for an absolute
/// path everything above it, from its parent to the root.
pub open spec fn looked_up(path: Seq<u8>) -> Seq<Seq<u8>> {
    let n = spans_from(path, 0).len();
    seq![path] + (if starts_at_root(path) {
        Seq::new(n, |i: int| ancestor_at(path, n - 1 - i))
    } else {
        seq![]
    })
}

/// What the lookups came to.
pub open spec fn found(resolved: Seq<Option<SandboxPath>>) -> Seq<Option<Seq<u8>>> {
    resolved.map_values(
        |path: Option<SandboxPath>|
            match path {
                Some(path) => Some(path@),
                None => None,
            },
    )
}

/// The first lookup from `i` on that succeeded.
pub open spec fn first_found(found: Seq<Option<Seq<u8>>>, i: int) -> int
    decreases found.len() - i,
{
    if i >= found.len() || found[i] is Some {
        i
    } else {
        first_found(found, i + 1)
    }
}

/// The resolved name of a path: that of the path itself where it exists, and
/// else that of the nearest directory above it that exists, with the rest of the
/// path beneath.
pub open spec fn resolved_name(path: Seq<u8>, found: Seq<Option<Seq<u8>>>) -> Option<Seq<u8>> {
    let i = first_found(found, 0);
    if i >= found.len() {
        None
    } else if i == 0 {
        found[0]
    } else {
        Some(joined(found[i]->0, names_after(path, spans_from(path, 0).len() - i)))
    }
}

/// The names of a path in the profile: as it is written, and as it resolves
/// where that differs.
pub open spec fn names_in_profile(path: Seq<u8>, resolved: Option<Seq<u8>>) -> Seq<Seq<u8>> {
    match resolved {
        Some(resolved) if !same_names(resolved, path) => seq![path, resolved],
        _ => seq![path],
    }
}

/// Whether a path starts at the root.
pub fn is_absolute(path: &SandboxPath) -> (yes: bool)
    ensures
        yes == starts_at_root(path@),
{
    path.bytes.len() > 0 && path.bytes[0] == SEPARATOR
}

/// Whether the first name of a path is `.`.
fn has_leading_dot(path: &SandboxPath) -> (yes: bool)
    ensures
        yes == starts_with_dot(path@),
{
    let bytes = &path.bytes;
    if bytes.len() == 0 || bytes[0] != 0x2e {
        proof {
            if bytes@.len() > 0 {
                lemma_position_later(bytes@, 0);
                let name = bytes@.subrange(0, position_from(bytes@, SEPARATOR, 0));
                if name == seq![0x2eu8] {
                    assert(name.len() == 1);
                    assert(name[0] == 0x2e);
                    assert(bytes@[0] == name[0]);
                }
            }
        }
        return false;
    }
    let yes = bytes.len() == 1 || bytes[1] == SEPARATOR;
    proof {
        lemma_position_later(bytes@, 1);
        assert(position_from(bytes@, SEPARATOR, 0) == position_from(bytes@, SEPARATOR, 1));
        let name = bytes@.subrange(0, position_from(bytes@, SEPARATOR, 0));
        if yes {
            assert(name =~= seq![0x2eu8]);
        } else {
            lemma_position_later(bytes@, 2);
            assert(position_from(bytes@, SEPARATOR, 1) == position_from(bytes@, SEPARATOR, 2));
            assert(name.len() >= 2);
        }
    }
    yes
}

proof fn lemma_position_later(bytes: Seq<u8>, from: int)
    requires
        0 <= from <= bytes.len(),
    ensures
        from <= position_from(bytes, SEPARATOR, from) <= bytes.len(),
    decreases bytes.len() - from,
{
    if from < bytes.len() && bytes[from] != SEPARATOR {
        lemma_position_later(bytes, from + 1);
    }
}

/// Whether two byte ranges are the same.
fn same_range(a: &Vec<u8>, a_span: (usize, usize), b: &Vec<u8>, b_span: (usize, usize)) -> (yes:
    bool)
    requires
        a_span.0 <= a_span.1 <= a@.len(),
        b_span.0 <= b_span.1 <= b@.len(),
    ensures
        yes == (a@.subrange(a_span.0 as int, a_span.1 as int) == b@.subrange(
            b_span.0 as int,
            b_span.1 as int,
        )),
{
    let ghost left = a@.subrange(a_span.0 as int, a_span.1 as int);
    let ghost right = b@.subrange(b_span.0 as int, b_span.1 as int);
    let len = a_span.1 - a_span.0;
    if len != b_span.1 - b_span.0 {
        assert(left.len() != right.len());
        return false;
    }
    let mut i: usize = 0;
    while i < len
        invariant
            i <= len,
            len == a_span.1 - a_span.0,
            len == b_span.1 - b_span.0,
            a_span.0 <= a_span.1 <= a@.len(),
            b_span.0 <= b_span.1 <= b@.len(),
            left == a@.subrange(a_span.0 as int, a_span.1 as int),
            right == b@.subrange(b_span.0 as int, b_span.1 as int),
            forall|k: int| 0 <= k < i ==> left[k] == right[k],
        decreases len - i,
    {
        if a[a_span.0 + i] != b[b_span.0 + i] {
            assert(left[i as int] != right[i as int]);
            return false;
        }
        i += 1;
    }
    assert(left =~= right);
    true
}

/// Whether two paths are written with the same names.
fn is_same_path(a: &SandboxPath, b: &SandboxPath) -> (yes: bool)
    ensures
        yes == same_names(a@, b@),
{
    if is_absolute(a) != is_absolute(b) || has_leading_dot(a) != has_leading_dot(b) {
        return false;
    }
    let a_spans = name_spans(a.bytes.as_slice());
    let b_spans = name_spans(b.bytes.as_slice());
    let ghost a_names = names_from(a@, 0);
    let ghost b_names = names_from(b@, 0);
    proof {
        lemma_spans_hold_names(a@, 0);
        lemma_spans_hold_names(b@, 0);
    }
    if a_spans.len() != b_spans.len() {
        return false;
    }
    let mut i: usize = 0;
    while i < a_spans.len()
        invariant
            i <= a_spans@.len() == b_spans@.len(),
            a_names == names_from(a@, 0),
            b_names == names_from(b@, 0),
            a_spans@.len() == a_names.len(),
            b_spans@.len() == b_names.len(),
            forall|k: int|
                #![trigger a_spans@[k]]
                0 <= k < a_spans@.len() ==> a_spans@[k].0 < a_spans@[k].1 <= a.bytes@.len()
                    && a_names[k] == a@.subrange(a_spans@[k].0 as int, a_spans@[k].1 as int),
            forall|k: int|
                #![trigger b_spans@[k]]
                0 <= k < b_spans@.len() ==> b_spans@[k].0 < b_spans@[k].1 <= b.bytes@.len()
                    && b_names[k] == b@.subrange(b_spans@[k].0 as int, b_spans@[k].1 as int),
            forall|k: int| 0 <= k < i ==> a_names[k] == b_names[k],
        decreases a_spans.len() - i,
    {
        if !same_range(&a.bytes, a_spans[i], &b.bytes, b_spans[i]) {
            assert(a_names[i as int] != b_names[i as int]);
            return false;
        }
        i += 1;
    }
    assert(a_names =~= b_names);
    true
}

/// The bytes of a path from `from` to `to`.
fn part(path: &SandboxPath, from: usize, to: usize) -> (bytes: Vec<u8>)
    requires
        from <= to <= path@.len(),
    ensures
        bytes@ == path@.subrange(from as int, to as int),
{
    let mut bytes: Vec<u8> = Vec::new();
    let mut i: usize = from;
    while i < to
        invariant
            from <= i <= to <= path@.len(),
            bytes@ == path@.subrange(from as int, i as int),
        decreases to - i,
    {
        bytes.push(path.bytes[i]);
        assert(bytes@ =~= path@.subrange(from as int, i + 1));
        i += 1;
    }
    bytes
}

/// The paths that have to be looked up to resolve `path`.
pub fn lookups(path: &SandboxPath) -> (paths: Vec<SandboxPath>)
    ensures
        paths@.len() == looked_up(path@).len(),
        forall|i: int| 0 <= i < paths@.len() ==> #[trigger] paths@[i]@ == looked_up(path@)[i],
{
    let ghost wanted = looked_up(path@);
    let mut paths: Vec<SandboxPath> = Vec::new();
    paths.push(path.clone());
    if !is_absolute(path) {
        return paths;
    }
    let spans = name_spans(path.bytes.as_slice());
    let ghost n = spans_from(path@, 0).len();
    let mut left: usize = spans.len();
    while left > 0
        invariant
            left <= spans@.len() == n,
            n == spans_from(path@, 0).len(),
            starts_at_root(path@),
            wanted == looked_up(path@),
            paths@.len() == n - left + 1,
            forall|i: int|
                #![trigger spans@[i]]
                0 <= i < spans@.len() ==> (spans@[i].0 as int, spans@[i].1 as int) == spans_from(
                    path@,
                    0,
                )[i] && spans@[i].0 < spans@[i].1 <= path@.len(),
            forall|i: int| 0 <= i < paths@.len() ==> #[trigger] paths@[i]@ == wanted[i],
        decreases left,
    {
        left -= 1;
        let bytes = if left == 0 {
            let mut root: Vec<u8> = Vec::new();
            root.push(SEPARATOR);
            assert(root@ =~= ancestor_at(path@, 0));
            root
        } else {
            let to = spans[left - 1].1;
            let bytes = part(path, 0, to);
            assert(bytes@ =~= ancestor_at(path@, left as int));
            bytes
        };
        assert(bytes@ == wanted[n - left]);
        paths.push(SandboxPath::new(bytes));
    }
    paths
}

/// The resolved name of a path. `resolved` is what each of the [`lookups`] of the
/// path came to.
pub fn canonical_path(path: &SandboxPath, resolved: &Vec<Option<SandboxPath>>) -> (canonical:
    Option<SandboxPath>)
    requires
        resolved@.len() == looked_up(path@).len(),
    ensures
        match canonical {
            Some(canonical) => resolved_name(path@, found(resolved@)) == Some(canonical@),
            None => resolved_name(path@, found(resolved@)) is None,
        },
{
    let ghost all = found(resolved@);
    let mut i: usize = 0;
    while i < resolved.len() && resolved[i].is_none()
        invariant
            i <= resolved@.len(),
            all == found(resolved@),
            first_found(all, 0) == first_found(all, i as int),
        decreases resolved.len() - i,
    {
        assert(all[i as int] is None);
        i += 1;
    }
    if i == resolved.len() {
        return None;
    }
    let base = match &resolved[i] {
        Some(base) => base.clone(),
        None => {
            return None;
        },
    };
    assert(all[i as int] == Some(base@));
    if i == 0 {
        return Some(base);
    }
    let spans = name_spans(path.bytes.as_slice());
    let n = spans.len();
    proof {
        lemma_spans_hold_names(path@, 0);
        lemma_spans_ordered(path@, 0);
        assert(i <= n);
        assert(spans@[n - i].0 <= spans@[n - 1].1);
    }
    let rest = part(path, spans[n - i].0, spans[n - 1].1);
    let mut bytes = base.bytes;
    let ghost start = bytes@;
    if bytes.len() > 0 && bytes[bytes.len() - 1] != SEPARATOR {
        bytes.push(SEPARATOR);
    }
    let mut rest = rest;
    let ghost tail = rest@;
    bytes.append(&mut rest);
    assert(bytes@ =~= joined(start, tail));
    Some(SandboxPath::new(bytes))
}

/// The spans of a path lie one behind the other.
proof fn lemma_spans_ordered(bytes: Seq<u8>, from: int)
    ensures
        forall|i: int, j: int|
            #![trigger spans_from(bytes, from)[i], spans_from(bytes, from)[j]]
            0 <= i <= j < spans_from(bytes, from).len() ==> from <= spans_from(bytes, from)[i].0
                && spans_from(bytes, from)[i].0 <= spans_from(bytes, from)[j].1,
    decreases bytes.len() - from,
{
    let end = position_from(bytes, SEPARATOR, from);
    if 0 <= from < bytes.len() && end >= from {
        lemma_position_later(bytes, from);
        if end < bytes.len() {
            lemma_spans_ordered(bytes, end + 1);
            lemma_spans_hold_names(bytes, end + 1);
        }
    }
}

/// The names of a path in the profile.
pub fn path_variants(path: &SandboxPath, canonical: &Option<SandboxPath>) -> (names: Vec<
    SandboxPath,
>)
    ensures
        names@.map_values(|name: SandboxPath| name@) == names_in_profile(
            path@,
            match canonical {
                Some(canonical) => Some(canonical@),
                None => None,
            },
        ),
{
    let mut names: Vec<SandboxPath> = Vec::new();
    names.push(path.clone());
    match canonical {
        Some(canonical) => {
            if !is_same_path(canonical, path) {
                names.push(canonical.clone());
                assert(names@.map_values(|name: SandboxPath| name@) =~= seq![path@, canonical@]);
                return names;
            }
        },
        None => {},
    }
    assert(names@.map_values(|name: SandboxPath| name@) =~= seq![path@]);
    names
}

/// A path beneath a base has the names of the base and then its own.
pub proof fn law_joined_paths_join_their_names(base: Seq<u8>, rest: Seq<u8>)
    ensures
        names_from(joined(base, rest), 0) == names_from(base, 0) + names_from(rest, 0),
        base.len() > 0 ==> (starts_at_root(joined(base, rest)) <==> starts_at_root(base)),
{
    let none = Seq::<u8>::empty();
    if base.len() == 0 {
        assert(joined(base, rest) =~= rest);
        assert(names_from(base, 0) + names_from(rest, 0) =~= names_from(rest, 0));
    } else if base.last() == SEPARATOR {
        let front = base.drop_last();
        law_names_are_joined(front, rest);
        law_names_are_joined(front, none);
        assert(front + seq![0x2fu8] + rest =~= joined(base, rest));
        assert(front + seq![0x2fu8] + none =~= base);
        assert(names_from(front, 0) + names_from(none, 0) =~= names_from(front, 0));
    } else {
        law_names_are_joined(base, rest);
    }
}

/// A path is written into the profile as it was given, and as it resolves exactly where
/// that has other names; under nothing else.
pub proof fn law_profile_names_are_given_and_resolved(
    path: Seq<u8>,
    resolved: Option<Seq<u8>>,
    name: Seq<u8>,
)
    ensures
        names_in_profile(path, resolved)[0] == path,
        names_in_profile(path, resolved).contains(name) <==> name == path || (resolved == Some(name)
            && !same_names(name, path)),
        resolved matches Some(resolved) ==> exists|i: int|
            0 <= i < names_in_profile(path, Some(resolved)).len() && same_names(
                #[trigger] names_in_profile(path, Some(resolved))[i],
                resolved,
            ),
{
    let names = names_in_profile(path, resolved);
    assert(names[0] == path);
    if resolved is Some {
        if same_names(resolved->0, path) {
            assert(same_names(names[0], resolved->0));
        } else {
            assert(names[1] == resolved->0);
            assert(same_names(names[1], resolved->0));
        }
    }
}

/// Where a lookup succeeded, the nearest one decides: that of the path itself is its
/// name, and that of something above it is what the rest of the path goes beneath.
/// Without any the path has no resolved name.
pub proof fn law_nearest_lookup_decides(path: Seq<u8>, found: Seq<Option<Seq<u8>>>, i: int)
    requires
        0 <= i <= found.len(),
        forall|j: int| 0 <= j < i ==> (#[trigger] found[j]) is None,
        i < found.len() ==> found[i] is Some,
    ensures
        i == found.len() ==> resolved_name(path, found) is None,
        i == 0 && found.len() > 0 ==> resolved_name(path, found) == found[0],
        0 < i < found.len() ==> resolved_name(path, found) == Some(
            joined(found[i]->0, names_after(path, spans_from(path, 0).len() - i)),
        ),
{
    lemma_first_found(found, i, 0);
}

proof fn lemma_first_found(found: Seq<Option<Seq<u8>>>, i: int, from: int)
    requires
        0 <= from <= i <= found.len(),
        forall|j: int| 0 <= j < i ==> (#[trigger] found[j]) is None,
        i < found.len() ==> found[i] is Some,
    ensures
        first_found(found, from) == i,
    decreases i - from,
{
    if from < i {
        assert(found[from] is None);
        lemma_first_found(found, i, from + 1);
    }
}

/// What is looked up for a path: the path itself first and, for an absolute one, behind
/// it everything above, nearest first. The `i`-th behind it is absolute and has all names
/// of the path but the last `i`, so the last is the root.
pub proof fn law_lookups_go_up(path: Seq<u8>, i: int)
    requires
        0 <= i < looked_up(path).len(),
    ensures
        looked_up(path)[0] == path,
        starts_at_root(path) ==> looked_up(path).len() == names_from(path, 0).len() + 1,
        !starts_at_root(path) ==> looked_up(path).len() == 1,
        i > 0 ==> starts_at_root(looked_up(path)[i]) && names_from(looked_up(path)[i], 0)
            == names_from(path, 0).take(names_from(path, 0).len() - i),
{
    let spans = spans_from(path, 0);
    let names = names_from(path, 0);
    let n = spans.len() as int;
    lemma_spans_hold_names(path, 0);
    if i > 0 {
        let k = n - i;
        assert(looked_up(path)[i] == ancestor_at(path, k));
        if k == 0 {
            let none = Seq::<u8>::empty();
            law_names_are_joined(none, none);
            assert(none + seq![0x2fu8] + none =~= seq![0x2fu8]);
            assert(names.take(0) =~= names_from(none, 0) + names_from(none, 0));
        } else {
            lemma_names_cut(path, 0, k - 1);
            assert(spans[k - 1].0 < spans[k - 1].1);
        }
    }
}

/// The resolved name of a path that does not exist has the names of the nearest thing
/// above it that does, as that resolves, and then those that are left of the path.
pub proof fn law_missing_names_are_kept(path: Seq<u8>, found: Seq<Option<Seq<u8>>>, i: int)
    requires
        0 < i < found.len() <= looked_up(path).len(),
        forall|j: int| 0 <= j < i ==> (#[trigger] found[j]) is None,
        found[i] is Some,
    ensures
        resolved_name(path, found) is Some,
        names_from(resolved_name(path, found)->0, 0) == names_from(found[i]->0, 0) + names_from(
            path,
            0,
        ).skip(names_from(path, 0).len() - i),
{
    let n = spans_from(path, 0).len() as int;
    lemma_spans_hold_names(path, 0);
    law_nearest_lookup_decides(path, found, i);
    lemma_names_between(path, n - i);
    law_joined_paths_join_their_names(found[i]->0, names_after(path, n - i));
}

/// Two paths have the same names exactly where both are absolute or both are not, both
/// or none of them begins with `.`, and their names are the same one by one.
pub proof fn law_same_names_are_compared_one_by_one(a: Seq<u8>, b: Seq<u8>)
    ensures
        same_names(a, b) <==> (a.len() > 0 && a[0] == 0x2f <==> b.len() > 0 && b[0] == 0x2f) && (
        starts_with_dot(a) <==> starts_with_dot(b)) && names_from(a, 0).len() == names_from(b, 0).len()
            && forall|i: int|
            0 <= i < names_from(a, 0).len() ==> #[trigger] names_from(a, 0)[i] == names_from(b, 0)[i],
{
    if names_from(a, 0).len() == names_from(b, 0).len() && forall|i: int|
        0 <= i < names_from(a, 0).len() ==> #[trigger] names_from(a, 0)[i] == names_from(b, 0)[i] {
        assert(names_from(a, 0) =~= names_from(b, 0));
    }
}

/// A path begins with `.` exactly where that is all of it or a separator follows.
pub proof fn law_leading_dot_is_a_whole_name(path: Seq<u8>)
    ensures
        starts_with_dot(path) <==> path.len() > 0 && path[0] == 0x2e && (path.len() == 1 || path[1]
            == 0x2f),
{
    if path.len() > 0 {
        lemma_position_later(path, 0);
        let end = position_from(path, SEPARATOR, 0);
        let name = path.subrange(0, end);
        if path[0] == 0x2e {
            lemma_position_later(path, 1);
            assert(end == position_from(path, SEPARATOR, 1));
            if path.len() > 1 && path[1] != 0x2f {
                lemma_position_later(path, 2);
                assert(end == position_from(path, SEPARATOR, 2));
            } else {
                assert(name =~= seq![0x2eu8]);
            }
        }
        if name == seq![0x2eu8] {
            assert(name.len() == 1 && name[0] == 0x2e);
            assert(path[0] == name[0]);
        }
    }
}

} // verus!
