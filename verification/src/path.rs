//! Paths as the policy compilers see them.
use crate::order::{
    compare_bytes, lemma_bytes_lt_irreflexive, lemma_path_lt_asymmetric, lemma_path_lt_irreflexive,
    path_lt, Order,
};
use vstd::prelude::*;
use vstd::utf8::encode_utf8;

verus! {

/// The separator between the names of a path.
pub const SEPARATOR: u8 = 0x2f;

/// A name that may stand between two separators of a canonical path.
pub open spec fn is_component(name: Seq<u8>) -> bool {
    &&& name.len() > 0
    &&& !name.contains(SEPARATOR)
    &&& !name.contains(0)
}

/// The first position of `byte` in `bytes` at or after `from`, or the length.
pub open spec fn position_from(bytes: Seq<u8>, byte: u8, from: int) -> int
    decreases bytes.len() - from,
{
    if from >= bytes.len() {
        bytes.len() as int
    } else if bytes[from] == byte {
        from
    } else {
        position_from(bytes, byte, from + 1)
    }
}

/// The names between the separators of `bytes` from position `from` on, without
/// empty names and `.`.
pub open spec fn names_from(bytes: Seq<u8>, from: int) -> Seq<Seq<u8>>
    decreases bytes.len() - from,
{
    let end = position_from(bytes, SEPARATOR, from);
    if from < 0 || from >= bytes.len() || end < from {
        seq![]
    } else {
        let name = bytes.subrange(from, end);
        let rest = if end < bytes.len() {
            names_from(bytes, end + 1)
        } else {
            seq![]
        };
        if name.len() == 0 || name == seq![0x2eu8] {
            rest
        } else {
            seq![name] + rest
        }
    }
}

/// Where the names between the separators of `bytes` from position `from` on
/// begin and end, without empty names and `.`.
pub open spec fn spans_from(bytes: Seq<u8>, from: int) -> Seq<(int, int)>
    decreases bytes.len() - from,
{
    let end = position_from(bytes, SEPARATOR, from);
    if from < 0 || from >= bytes.len() || end < from {
        seq![]
    } else {
        let name = bytes.subrange(from, end);
        let rest = if end < bytes.len() {
            spans_from(bytes, end + 1)
        } else {
            seq![]
        };
        if name.len() == 0 || name == seq![0x2eu8] {
            rest
        } else {
            seq![(from, end)] + rest
        }
    }
}

/// The spans hold the names.
pub proof fn lemma_spans_hold_names(bytes: Seq<u8>, from: int)
    ensures
        spans_from(bytes, from).len() == names_from(bytes, from).len(),
        forall|i: int|
            #![trigger spans_from(bytes, from)[i]]
            #![trigger names_from(bytes, from)[i]]
            0 <= i < names_from(bytes, from).len() ==> 0 <= spans_from(bytes, from)[i].0
                < spans_from(bytes, from)[i].1 <= bytes.len() && names_from(bytes, from)[i]
                == bytes.subrange(spans_from(bytes, from)[i].0, spans_from(bytes, from)[i].1),
    decreases bytes.len() - from,
{
    let end = position_from(bytes, SEPARATOR, from);
    if 0 <= from < bytes.len() && end >= from {
        lemma_position_in_range(bytes, SEPARATOR, from);
        if end < bytes.len() {
            lemma_spans_hold_names(bytes, end + 1);
        }
    }
}

proof fn lemma_position_in_range(bytes: Seq<u8>, byte: u8, from: int)
    requires
        0 <= from <= bytes.len(),
    ensures
        from <= position_from(bytes, byte, from) <= bytes.len(),
    decreases bytes.len() - from,
{
    if from < bytes.len() && bytes[from] != byte {
        lemma_position_in_range(bytes, byte, from + 1);
    }
}

/// Where the names of a path begin and end.
pub fn name_spans(bytes: &[u8]) -> (spans: Vec<(usize, usize)>)
    ensures
        spans@.len() == spans_from(bytes@, 0).len(),
        forall|i: int|
            #![trigger spans@[i]]
            0 <= i < spans@.len() ==> (spans@[i].0 as int, spans@[i].1 as int) == spans_from(
                bytes@,
                0,
            )[i] && spans@[i].0 < spans@[i].1 <= bytes@.len(),
{
    let ghost all = spans_from(bytes@, 0);
    let mut spans: Vec<(usize, usize)> = Vec::new();
    let mut start: usize = 0;
    while start < bytes.len()
        invariant
            start <= bytes@.len(),
            all == spans_from(bytes@, 0),
            spans@.len() + spans_from(bytes@, start as int).len() == all.len(),
            forall|i: int|
                #![trigger spans@[i]]
                0 <= i < spans@.len() ==> (spans@[i].0 as int, spans@[i].1 as int) == all[i]
                    && spans@[i].0 < spans@[i].1 <= bytes@.len(),
            forall|i: int|
                0 <= i < spans_from(bytes@, start as int).len() ==> #[trigger] spans_from(
                    bytes@,
                    start as int,
                )[i] == all[spans@.len() + i],
        decreases bytes.len() - start,
    {
        let mut end: usize = start;
        while end < bytes.len() && bytes[end] != SEPARATOR
            invariant
                start <= end <= bytes@.len(),
                position_from(bytes@, SEPARATOR, start as int) == position_from(
                    bytes@,
                    SEPARATOR,
                    end as int,
                ),
            decreases bytes.len() - end,
        {
            end += 1;
        }
        let ghost here = spans_from(bytes@, start as int);
        let ghost before = spans@.len() as int;
        let ghost rest = if end < bytes@.len() {
            spans_from(bytes@, end + 1)
        } else {
            seq![]
        };
        let skip = end == start || (end - start == 1 && bytes[start] == 0x2e);
        proof {
            let name = bytes@.subrange(start as int, end as int);
            assert(skip <==> name.len() == 0 || name == seq![0x2eu8]) by {
                if name.len() == 1 && name[0] == 0x2e {
                    assert(name =~= seq![0x2eu8]);
                }
            }
            assert(here == (if skip {
                rest
            } else {
                seq![(start as int, end as int)] + rest
            }));
        }
        if !skip {
            spans.push((start, end));
            assert(here[0] == (start as int, end as int));
        }
        proof {
            assert forall|i: int| 0 <= i < rest.len() implies #[trigger] rest[i] == all[spans@.len()
                + i] by {
                if skip {
                    assert(here[i] == all[before + i]);
                } else {
                    assert(here[i + 1] == all[before + i + 1]);
                }
            }
        }
        if end < bytes.len() {
            start = end + 1;
        } else {
            start = end;
        }
    }
    spans
}

/// A canonical path written out: every name behind a separator, and the root as
/// a single separator.
pub open spec fn render(path: Seq<Seq<u8>>) -> Seq<u8> {
    if path.len() == 0 {
        seq![SEPARATOR]
    } else {
        render_names(path)
    }
}

/// Every name of `path` behind a separator.
pub open spec fn render_names(path: Seq<Seq<u8>>) -> Seq<u8>
    decreases path.len(),
{
    if path.len() == 0 {
        seq![]
    } else {
        render_names(path.drop_last()) + seq![SEPARATOR] + path.last()
    }
}

/// A path as a policy names it: raw bytes, which need not be UTF-8.
#[derive(Debug, PartialEq, Eq)]
pub struct SandboxPath {
    /// The bytes of the path.
    pub bytes: Vec<u8>,
}

impl View for SandboxPath {
    type V = Seq<u8>;

    open spec fn view(&self) -> Seq<u8> {
        self.bytes@
    }
}

impl SandboxPath {
    /// A path from its bytes.
    pub fn new(bytes: Vec<u8>) -> (path: SandboxPath)
        ensures
            path@ == bytes@,
    {
        SandboxPath { bytes }
    }
}

impl Clone for SandboxPath {
    fn clone(&self) -> (path: SandboxPath)
        ensures
            path@ == self@,
    {
        let bytes = self.bytes.clone();
        assert(bytes@ =~= self.bytes@);
        SandboxPath { bytes }
    }
}

impl From<&str> for SandboxPath {
    fn from(text: &str) -> (path: SandboxPath)
        ensures
            path@ == encode_utf8(text@),
    {
        let bytes = text.as_bytes();
        let mut owned: Vec<u8> = Vec::new();
        owned.extend_from_slice(bytes);
        assert(owned@ =~= bytes@);
        SandboxPath { bytes: owned }
    }
}

impl vstd::std_specs::convert::FromSpecImpl<&str> for SandboxPath {
    open spec fn obeys_from_spec() -> bool {
        false
    }

    open spec fn from_spec(text: &str) -> SandboxPath {
        arbitrary()
    }
}

/// An absolute path without `.`, empty names and NUL bytes, as the names on the
/// way from the root to it.
#[derive(Debug, PartialEq, Eq)]
pub struct CanonicalPath {
    components: Vec<Vec<u8>>,
}

impl View for CanonicalPath {
    type V = Seq<Seq<u8>>;

    closed spec fn view(&self) -> Seq<Seq<u8>> {
        self.components@.map_values(|name: Vec<u8>| name@)
    }
}

impl CanonicalPath {
    #[verifier::type_invariant]
    spec fn well_formed(&self) -> bool {
        forall|i: int|
            0 <= i < self.components@.len() ==> is_component(#[trigger] self.components@[i]@)
    }

    /// The file system root.
    pub fn root() -> (path: CanonicalPath)
        ensures
            path@ == Seq::<Seq<u8>>::empty(),
    {
        let path = CanonicalPath { components: Vec::new() };
        assert(path@ =~= Seq::<Seq<u8>>::empty());
        path
    }

    /// Reads an absolute path. Refuses relative paths and paths with a NUL byte.
    pub fn from_bytes(bytes: &[u8]) -> (path: Option<CanonicalPath>)
        ensures
            path is Some <==> bytes@.len() > 0 && bytes@[0] == SEPARATOR && !bytes@.contains(0),
            path matches Some(path) ==> path@ == names_from(bytes@, 0),
    {
        if bytes.len() == 0 || bytes[0] != SEPARATOR {
            return None;
        }
        let mut k: usize = 0;
        while k < bytes.len()
            invariant
                k <= bytes.len(),
                forall|j: int| 0 <= j < k ==> bytes@[j] != 0,
            decreases bytes.len() - k,
        {
            if bytes[k] == 0 {
                assert(bytes@.contains(0));
                return None;
            }
            k += 1;
        }
        let mut components: Vec<Vec<u8>> = Vec::new();
        let mut start: usize = 0;
        assert(components@.map_values(|name: Vec<u8>| name@) + names_from(bytes@, 0) =~= names_from(
            bytes@,
            0,
        ));
        while start < bytes.len()
            invariant
                start <= bytes.len(),
                forall|j: int| 0 <= j < bytes@.len() ==> bytes@[j] != 0,
                forall|i: int|
                    0 <= i < components@.len() ==> is_component(#[trigger] components@[i]@),
                components@.map_values(|name: Vec<u8>| name@) + names_from(bytes@, start as int)
                    == names_from(bytes@, 0),
            decreases bytes.len() - start,
        {
            let ghost before = components@.map_values(|name: Vec<u8>| name@);
            let mut name: Vec<u8> = Vec::new();
            let mut end: usize = start;
            while end < bytes.len() && bytes[end] != SEPARATOR
                invariant
                    start <= end <= bytes.len(),
                    name@ == bytes@.subrange(start as int, end as int),
                    forall|j: int| start <= j < end ==> bytes@[j] != SEPARATOR,
                    position_from(bytes@, SEPARATOR, start as int) == position_from(
                        bytes@,
                        SEPARATOR,
                        end as int,
                    ),
                decreases bytes.len() - end,
            {
                name.push(bytes[end]);
                assert(name@ =~= bytes@.subrange(start as int, end + 1));
                end += 1;
            }
            assert(end == position_from(bytes@, SEPARATOR, start as int));
            let skip = name.len() == 0 || (name.len() == 1 && name[0] == 0x2e);
            assert(skip <==> name@.len() == 0 || name@ == seq![0x2eu8]) by {
                assert(name@.len() == 1 && name@[0] == 0x2e ==> name@ =~= seq![0x2eu8]);
            }
            let ghost rest = if end < bytes@.len() {
                names_from(bytes@, end + 1)
            } else {
                seq![]
            };
            if !skip {
                assert(is_component(name@));
                components.push(name);
                proof {
                    let after = components@.map_values(|name: Vec<u8>| name@);
                    assert(after =~= before.push(name@));
                    assert(before + (seq![name@] + rest) =~= after + rest);
                }
            }
            if end < bytes.len() {
                start = end + 1;
            } else {
                assert(rest =~= names_from(bytes@, bytes@.len() as int));
                start = end;
            }
        }
        assert(names_from(bytes@, start as int) =~= seq![]);
        let path = CanonicalPath { components };
        assert(path@ =~= names_from(bytes@, 0));
        Some(path)
    }

    /// How many names the path has.
    pub fn depth(&self) -> (depth: usize)
        ensures
            depth == self@.len(),
    {
        self.components.len()
    }

    /// The path one level up; the root has none.
    pub fn parent(&self) -> (parent: Option<CanonicalPath>)
        ensures
            parent is Some <==> self@.len() > 0,
            parent matches Some(parent) ==> parent@ == self@.drop_last(),
    {
        let depth = self.components.len();
        if depth == 0 {
            None
        } else {
            Some(self.ancestor(depth - 1))
        }
    }

    /// The ancestor with `depth` names.
    pub fn ancestor(&self, depth: usize) -> (ancestor: CanonicalPath)
        requires
            depth <= self@.len(),
        ensures
            ancestor@ == self@.take(depth as int),
    {
        proof {
            use_type_invariant(self);
        }
        let mut components: Vec<Vec<u8>> = Vec::new();
        let mut i: usize = 0;
        while i < depth
            invariant
                i <= depth <= self.components@.len(),
                components@.len() == i,
                forall|j: int| 0 <= j < i ==> components@[j]@ == #[trigger] self.components@[j]@,
            decreases depth - i,
        {
            components.push(self.components[i].clone());
            assert(components@[i as int]@ =~= self.components@[i as int]@);
            i += 1;
        }
        assert(forall|j: int| 0 <= j < depth ==> components@[j]@ == self.components@[j]@);
        let ancestor = CanonicalPath { components };
        assert(ancestor@ =~= self@.take(depth as int));
        ancestor
    }

    /// Whether `prefix` is this path or one of its ancestors.
    pub fn starts_with(&self, prefix: &CanonicalPath) -> (yes: bool)
        ensures
            yes == prefix@.is_prefix_of(self@),
    {
        if prefix.components.len() > self.components.len() {
            return false;
        }
        let mut i: usize = 0;
        while i < prefix.components.len()
            invariant
                i <= prefix.components@.len() <= self.components@.len(),
                forall|j: int| 0 <= j < i ==> prefix@[j] == self@[j],
            decreases prefix.components.len() - i,
        {
            match compare_bytes(prefix.components[i].as_slice(), self.components[i].as_slice()) {
                Order::Equal => {
                    assert(prefix@[i as int] == self@[i as int]);
                },
                _ => {
                    assert(prefix@[i as int] != self@[i as int]);
                    assert(self@.subrange(0, prefix@.len() as int)[i as int] == self@[i as int]);
                    return false;
                },
            }
            i += 1;
        }
        assert(prefix@ =~= self@.subrange(0, prefix@.len() as int));
        true
    }

    /// Compares two paths, ancestors first.
    pub fn compare(&self, other: &CanonicalPath) -> (order: Order)
        ensures
            order is Less <==> path_lt(self@, other@),
            order is Greater <==> path_lt(other@, self@),
            order is Equal <==> self@ == other@,
    {
        let ghost a = self@;
        let ghost b = other@;
        proof {
            lemma_path_lt_irreflexive(a);
            if path_lt(a, b) {
                lemma_path_lt_asymmetric(a, b);
            }
            if path_lt(b, a) {
                lemma_path_lt_asymmetric(b, a);
            }
            assert(a.skip(0) =~= a);
            assert(b.skip(0) =~= b);
        }
        let mut i: usize = 0;
        while i < self.components.len() && i < other.components.len()
            invariant
                a == self@,
                b == other@,
                i <= a.len(),
                i <= b.len(),
                a.len() == self.components@.len(),
                b.len() == other.components@.len(),
                forall|j: int| 0 <= j < i ==> a[j] == b[j],
                path_lt(a, b) == path_lt(a.skip(i as int), b.skip(i as int)),
                path_lt(b, a) == path_lt(b.skip(i as int), a.skip(i as int)),
                a == b ==> !path_lt(a, b) && !path_lt(b, a),
                path_lt(a, b) ==> !path_lt(b, a),
            decreases a.len() - i,
        {
            proof {
                lemma_bytes_lt_irreflexive(a[i as int]);
            }
            match compare_bytes(self.components[i].as_slice(), other.components[i].as_slice()) {
                Order::Equal => {},
                order => {
                    return order;
                },
            }
            proof {
                assert(a.skip(i as int).skip(1) =~= a.skip(i + 1));
                assert(b.skip(i as int).skip(1) =~= b.skip(i + 1));
            }
            i += 1;
        }
        if self.components.len() == other.components.len() {
            assert(a =~= b);
            Order::Equal
        } else if i == self.components.len() {
            Order::Less
        } else {
            Order::Greater
        }
    }

    /// Whether two paths are the same.
    pub fn same(&self, other: &CanonicalPath) -> (yes: bool)
        ensures
            yes == (self@ == other@),
    {
        matches!(self.compare(other), Order::Equal)
    }

    /// The path written out.
    pub fn to_bytes(&self) -> (bytes: Vec<u8>)
        ensures
            bytes@ == render(self@),
    {
        let mut bytes: Vec<u8> = Vec::new();
        if self.components.len() == 0 {
            bytes.push(SEPARATOR);
            assert(bytes@ =~= seq![SEPARATOR]);
            return bytes;
        }
        assert(self@.take(0) =~= seq![]);
        let mut i: usize = 0;
        while i < self.components.len()
            invariant
                i <= self.components@.len(),
                bytes@ == render_names(self@.take(i as int)),
            decreases self.components.len() - i,
        {
            let ghost before = bytes@;
            bytes.push(SEPARATOR);
            let name = &self.components[i];
            let mut k: usize = 0;
            while k < name.len()
                invariant
                    k <= name.len(),
                    bytes@ == before + seq![SEPARATOR] + name@.take(k as int),
                decreases name.len() - k,
            {
                bytes.push(name[k]);
                assert(name@.take(k + 1) =~= name@.take(k as int).push(name@[k as int]));
                assert(bytes@ =~= before + seq![SEPARATOR] + name@.take(k + 1));
                k += 1;
            }
            proof {
                assert(name@.take(k as int) =~= name@);
                let longer = self@.take(i + 1);
                assert(longer.drop_last() =~= self@.take(i as int));
                assert(longer.last() == name@);
            }
            i += 1;
        }
        assert(self@.take(i as int) =~= self@);
        bytes
    }
}

impl Clone for CanonicalPath {
    fn clone(&self) -> (path: CanonicalPath)
        ensures
            path@ == self@,
    {
        let path = self.ancestor(self.components.len());
        assert(self@.take(self@.len() as int) =~= self@);
        path
    }
}

/// Joining two paths with a separator joins their names.
pub proof fn law_names_are_joined(a: Seq<u8>, b: Seq<u8>)
    ensures
        names_from(a + seq![0x2fu8] + b, 0) == names_from(a, 0) + names_from(b, 0),
{
    lemma_names_joined(a, b, 0);
}

proof fn lemma_names_joined(a: Seq<u8>, b: Seq<u8>, from: int)
    requires
        0 <= from <= a.len(),
    ensures
        names_from(a + seq![0x2fu8] + b, from) == names_from(a, from) + names_from(b, 0),
    decreases a.len() - from,
{
    let whole = a + seq![0x2fu8] + b;
    let end = position_from(a, SEPARATOR, from);
    lemma_position_in_range(a, SEPARATOR, from);
    lemma_position_joined(a, b, from);
    assert(whole.skip(a.len() as int + 1) =~= b);
    lemma_names_shifted(whole, b, a.len() as int + 1, 0);
    let name = whole.subrange(from, end);
    if from == a.len() {
        assert(names_from(whole, from) == names_from(whole, a.len() as int + 1));
        assert(names_from(a, from) + names_from(b, 0) =~= names_from(b, 0));
    } else {
        assert(name =~= a.subrange(from, end));
        if end < a.len() {
            lemma_names_joined(a, b, end + 1);
            assert(names_from(whole, from) =~= names_from(a, from) + names_from(b, 0));
        } else {
            assert(names_from(whole, from) =~= names_from(a, from) + names_from(b, 0));
        }
    }
}

proof fn lemma_position_joined(a: Seq<u8>, b: Seq<u8>, from: int)
    requires
        0 <= from <= a.len(),
    ensures
        position_from(a + seq![0x2fu8] + b, SEPARATOR, from) == position_from(a, SEPARATOR, from),
    decreases a.len() - from,
{
    let whole = a + seq![0x2fu8] + b;
    if from < a.len() {
        assert(whole[from] == a[from]);
        if a[from] != SEPARATOR {
            lemma_position_joined(a, b, from + 1);
        }
    } else {
        assert(whole[from] == SEPARATOR);
    }
}

proof fn lemma_names_shifted(whole: Seq<u8>, tail: Seq<u8>, by: int, from: int)
    requires
        0 <= by <= whole.len(),
        whole.skip(by) == tail,
        0 <= from <= tail.len(),
    ensures
        names_from(whole, by + from) == names_from(tail, from),
    decreases tail.len() - from,
{
    if from < tail.len() {
        lemma_position_shifted(whole, tail, by, from);
        lemma_position_in_range(tail, SEPARATOR, from);
        let end = position_from(tail, SEPARATOR, from);
        assert(whole.subrange(by + from, by + end) =~= tail.subrange(from, end));
        if end < tail.len() {
            lemma_names_shifted(whole, tail, by, end + 1);
        }
    }
}

proof fn lemma_position_shifted(whole: Seq<u8>, tail: Seq<u8>, by: int, from: int)
    requires
        0 <= by <= whole.len(),
        whole.skip(by) == tail,
        0 <= from <= tail.len(),
    ensures
        position_from(whole, SEPARATOR, by + from) == by + position_from(tail, SEPARATOR, from),
    decreases tail.len() - from,
{
    if from < tail.len() {
        assert(whole[by + from] == tail[from]);
        if tail[from] != SEPARATOR {
            lemma_position_shifted(whole, tail, by, from + 1);
        }
    }
}

/// A single name is read as itself; an empty one and `.` are no names.
pub proof fn law_one_name_is_one_name(name: Seq<u8>)
    requires
        !name.contains(0x2fu8),
    ensures
        names_from(name, 0) == if name.len() == 0 || name == seq![0x2eu8] {
            Seq::<Seq<u8>>::empty()
        } else {
            seq![name]
        },
{
    lemma_no_separator(name, 0);
    assert(name.subrange(0, name.len() as int) =~= name);
    assert(seq![name] + Seq::<Seq<u8>>::empty() =~= seq![name]);
}

proof fn lemma_no_separator(name: Seq<u8>, from: int)
    requires
        !name.contains(0x2fu8),
        0 <= from <= name.len(),
    ensures
        position_from(name, SEPARATOR, from) == name.len(),
    decreases name.len() - from,
{
    if from < name.len() {
        assert(name.contains(name[from]));
        lemma_no_separator(name, from + 1);
    }
}

/// A canonical path that is written out reads back as its names. It starts with a
/// separator and, but for the root, ends with none.
pub proof fn law_written_paths_read_back(path: Seq<Seq<u8>>)
    requires
        forall|i: int|
            0 <= i < path.len() ==> is_component(#[trigger] path[i]) && path[i] != seq![0x2eu8],
    ensures
        names_from(render(path), 0) == path,
        render(path).len() > 0,
        render(path)[0] == 0x2f,
        path.len() > 0 ==> render(path).last() != 0x2f,
{
    if path.len() == 0 {
        let none = Seq::<u8>::empty();
        law_names_are_joined(none, none);
        assert(none + seq![0x2fu8] + none =~= seq![0x2fu8]);
        assert(names_from(render(path), 0) =~= path);
    } else {
        lemma_names_read_back(path);
        let name = path.last();
        assert(is_component(path[path.len() - 1]));
        assert(name.contains(name.last()));
        assert(render(path).last() == name.last());
    }
}

proof fn lemma_names_read_back(path: Seq<Seq<u8>>)
    requires
        forall|i: int|
            0 <= i < path.len() ==> is_component(#[trigger] path[i]) && path[i] != seq![0x2eu8],
    ensures
        names_from(render_names(path), 0) == path,
        path.len() > 0 ==> render_names(path).len() > 0 && render_names(path)[0] == 0x2f,
    decreases path.len(),
{
    if path.len() > 0 {
        let front = path.drop_last();
        let name = path[path.len() - 1];
        assert forall|i: int| 0 <= i < front.len() implies is_component(#[trigger] front[i])
            && front[i] != seq![0x2eu8] by {
            assert(front[i] == path[i]);
        }
        lemma_names_read_back(front);
        law_names_are_joined(render_names(front), name);
        law_one_name_is_one_name(name);
        assert(front + seq![name] =~= path);
    } else {
        assert(names_from(render_names(path), 0) =~= path);
    }
}

proof fn lemma_position_cut(bytes: Seq<u8>, from: int, end: int)
    requires
        0 <= from <= end <= bytes.len(),
    ensures
        position_from(bytes.take(end), SEPARATOR, from) == if position_from(bytes, SEPARATOR, from)
            < end {
            position_from(bytes, SEPARATOR, from)
        } else {
            end
        },
    decreases end - from,
{
    lemma_position_in_range(bytes, SEPARATOR, from);
    if from < end {
        assert(bytes.take(end)[from] == bytes[from]);
        if bytes[from] != SEPARATOR {
            lemma_position_cut(bytes, from + 1, end);
        }
    }
}

/// A path that is cut behind one of its names has the names up to there.
pub(crate) proof fn lemma_names_cut(bytes: Seq<u8>, from: int, k: int)
    requires
        0 <= from <= bytes.len(),
        0 <= k < spans_from(bytes, from).len(),
    ensures
        from <= spans_from(bytes, from)[k].1 <= bytes.len(),
        names_from(bytes.take(spans_from(bytes, from)[k].1), from) == names_from(bytes, from).take(
            k + 1,
        ),
    decreases bytes.len() - from,
{
    let end = position_from(bytes, SEPARATOR, from);
    lemma_position_in_range(bytes, SEPARATOR, from);
    let name = bytes.subrange(from, end);
    let names = names_from(bytes, from);
    let cut = spans_from(bytes, from)[k].1;
    lemma_spans_hold_names(bytes, from);
    let kept = bytes.take(cut);
    if name.len() == 0 || name == seq![0x2eu8] {
        lemma_names_cut(bytes, end + 1, k);
        lemma_position_cut(bytes, from, cut);
        assert(kept.subrange(from, end) =~= name);
    } else if k == 0 {
        lemma_position_cut(bytes, from, cut);
        assert(kept.subrange(from, end) =~= name);
        assert(names_from(kept, from) =~= seq![name]);
        assert(names.take(1) =~= seq![name]);
    } else {
        lemma_names_cut(bytes, end + 1, k - 1);
        lemma_position_cut(bytes, from, cut);
        assert(kept.subrange(from, end) =~= name);
        assert(names.take(k + 1) =~= seq![name] + names_from(bytes, end + 1).take(k));
    }
}

/// From the beginning of one of its names on, a path has the names from there.
pub(crate) proof fn lemma_names_left(bytes: Seq<u8>, from: int, m: int)
    requires
        0 <= from <= bytes.len(),
        0 <= m < spans_from(bytes, from).len(),
    ensures
        from <= spans_from(bytes, from)[m].0 <= bytes.len(),
        names_from(bytes, spans_from(bytes, from)[m].0) == names_from(bytes, from).skip(m),
        spans_from(bytes, spans_from(bytes, from)[m].0) == spans_from(bytes, from).skip(m),
    decreases bytes.len() - from,
{
    let end = position_from(bytes, SEPARATOR, from);
    lemma_position_in_range(bytes, SEPARATOR, from);
    let name = bytes.subrange(from, end);
    let names = names_from(bytes, from);
    let spans = spans_from(bytes, from);
    if name.len() == 0 || name == seq![0x2eu8] {
        lemma_names_left(bytes, end + 1, m);
    } else if m == 0 {
        assert(names.skip(0) =~= names);
        assert(spans.skip(0) =~= spans);
    } else {
        lemma_names_left(bytes, end + 1, m - 1);
        lemma_spans_hold_names(bytes, end + 1);
        assert(names =~= seq![name] + names_from(bytes, end + 1));
        assert(names.skip(m) =~= names_from(bytes, end + 1).skip(m - 1));
        assert(spans.skip(m) =~= spans_from(bytes, end + 1).skip(m - 1));
    }
}

/// What lies between the beginning of one name of a path and the end of its last has the
/// names from there.
pub(crate) proof fn lemma_names_between(bytes: Seq<u8>, m: int)
    requires
        0 <= m < spans_from(bytes, 0).len(),
    ensures
        0 <= spans_from(bytes, 0)[m].0 <= spans_from(bytes, 0).last().1 <= bytes.len(),
        names_from(
            bytes.subrange(spans_from(bytes, 0)[m].0, spans_from(bytes, 0).last().1),
            0,
        ) == names_from(bytes, 0).skip(m),
{
    let spans = spans_from(bytes, 0);
    let start = spans[m].0;
    let end = spans.last().1;
    lemma_names_left(bytes, 0, m);
    let left = spans_from(bytes, start);
    lemma_names_cut(bytes, start, left.len() - 1);
    lemma_spans_hold_names(bytes, start);
    assert(left[left.len() - 1] == spans.last());
    let kept = bytes.take(end);
    let part = bytes.subrange(start, end);
    assert(kept.skip(start) =~= part);
    lemma_names_shifted(kept, part, start, 0);
    assert(names_from(bytes, start).take(left.len() as int) =~= names_from(bytes, start));
}

} // verus!
