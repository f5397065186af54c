//! Searching and cutting text.
use crate::text::to_chars;
use vstd::prelude::*;

verus! {

/// Whether `c` has the Unicode property `White_Space`.
pub open spec fn is_white(c: char) -> bool {
    let code = c as u32;
    (0x9 <= code && code <= 0xd) || code == 0x20 || code == 0x85 || code == 0xa0 || code == 0x1680
        || (0x2000 <= code && code <= 0x200a) || code == 0x2028 || code == 0x2029 || code == 0x202f
        || code == 0x205f || code == 0x3000
}

/// `char::is_whitespace`: whether the character has the Unicode property
/// `White_Space`, which 25 characters have.
pub assume_specification[ char::is_whitespace ](c: char) -> (yes: bool)
    ensures
        yes == is_white(c),
;

/// Whether `pattern` stands in `text` at position `at`.
pub open spec fn is_at(text: Seq<char>, pattern: Seq<char>, at: int) -> bool {
    0 <= at && at + pattern.len() <= text.len() && text.subrange(at, at + pattern.len()) == pattern
}

/// Where `pattern` stands in `text` first, from `from` on.
pub open spec fn first_at(text: Seq<char>, pattern: Seq<char>, from: int) -> Option<int>
    decreases text.len() + 1 - from,
{
    if from < 0 || from > text.len() {
        None
    } else if is_at(text, pattern, from) {
        Some(from)
    } else {
        first_at(text, pattern, from + 1)
    }
}

/// Where `pattern` stands in `text` last, up to `to`.
pub open spec fn last_at(text: Seq<char>, pattern: Seq<char>, to: int) -> Option<int>
    decreases to + 1,
{
    if to < 0 {
        None
    } else if is_at(text, pattern, to) {
        Some(to)
    } else {
        last_at(text, pattern, to - 1)
    }
}

/// Where white space stands in `text` first, from `from` on.
pub open spec fn first_white(text: Seq<char>, from: int) -> Option<int>
    decreases text.len() - from,
{
    if from < 0 || from >= text.len() {
        None
    } else if is_white(text[from]) {
        Some(from)
    } else {
        first_white(text, from + 1)
    }
}

/// A text without the white space in front.
pub open spec fn trimmed_start(text: Seq<char>) -> Seq<char>
    decreases text.len(),
{
    if text.len() > 0 && is_white(text[0]) {
        trimmed_start(text.skip(1))
    } else {
        text
    }
}

/// A text without the white space behind.
pub open spec fn trimmed_end(text: Seq<char>) -> Seq<char>
    decreases text.len(),
{
    if text.len() > 0 && is_white(text.last()) {
        trimmed_end(text.drop_last())
    } else {
        text
    }
}

/// A text without the white space on both sides.
pub open spec fn trimmed(text: Seq<char>) -> Seq<char> {
    trimmed_end(trimmed_start(text))
}

/// A line that a line feed ended, without the carriage return before it.
pub open spec fn chomped(line: Seq<char>) -> Seq<char> {
    if line.len() > 0 && line.last() == '\r' {
        line.drop_last()
    } else {
        line
    }
}

/// The lines of a text: what ends in a line feed or in a carriage return and a
/// line feed, without them, and what is left behind the last of them.
pub open spec fn lines_of(text: Seq<char>) -> Seq<Seq<char>>
    decreases text.len(),
{
    match first_at(text, seq!['\n'], 0) {
        Some(end) if 0 <= end < text.len() => seq![chomped(text.take(end))] + lines_of(
            text.skip(end + 1),
        ),
        _ => if text.len() == 0 {
            seq![]
        } else {
            seq![text]
        },
    }
}

/// Whether `pattern` stands in `chars` at position `at`.
pub(crate) fn stands_at(chars: &Vec<char>, pattern: &Vec<char>, at: usize) -> (yes: bool)
    ensures
        yes == is_at(chars@, pattern@, at as int),
{
    if pattern.len() > chars.len() || at > chars.len() - pattern.len() {
        return false;
    }
    let mut i: usize = 0;
    let ghost part = chars@.subrange(at as int, at + pattern@.len());
    while i < pattern.len()
        invariant
            i <= pattern@.len(),
            at + pattern@.len() <= chars@.len() <= usize::MAX,
            part == chars@.subrange(at as int, at + pattern@.len()),
            forall|k: int| 0 <= k < i ==> part[k] == pattern@[k],
        decreases pattern.len() - i,
    {
        if chars[at + i] != pattern[i] {
            assert(part[i as int] != pattern@[i as int]);
            return false;
        }
        i += 1;
    }
    assert(part =~= pattern@);
    true
}

/// Whether a text starts with `prefix`.
pub(crate) fn has_prefix(chars: &Vec<char>, prefix: &str) -> (yes: bool)
    ensures
        yes == is_at(chars@, prefix@, 0),
{
    let pattern = to_chars(prefix);
    stands_at(chars, &pattern, 0)
}

/// Whether two texts are the same.
pub(crate) fn is_same(a: &str, b: &str) -> (same: bool)
    ensures
        same == (a@ == b@),
{
    let chars = to_chars(a);
    let others = to_chars(b);
    assert(a@.subrange(0, a@.len() as int) =~= a@);
    chars.len() == others.len() && stands_at(&chars, &others, 0)
}

/// Where `pattern` stands first.
pub(crate) fn find(chars: &Vec<char>, pattern: &Vec<char>) -> (at: Option<usize>)
    ensures
        match at {
            Some(at) => first_at(chars@, pattern@, 0) == Some(at as int) && at + pattern@.len()
                <= chars@.len(),
            None => first_at(chars@, pattern@, 0) is None,
        },
{
    let mut at: usize = 0;
    while at < chars.len()
        invariant
            at <= chars@.len(),
            first_at(chars@, pattern@, 0) == first_at(chars@, pattern@, at as int),
        decreases chars.len() - at,
    {
        if stands_at(chars, pattern, at) {
            return Some(at);
        }
        at += 1;
    }
    if stands_at(chars, pattern, at) {
        return Some(at);
    }
    assert(first_at(chars@, pattern@, at + 1) is None);
    None
}

/// Where `pattern` stands last.
pub(crate) fn find_last(chars: &Vec<char>, pattern: &Vec<char>) -> (at: Option<usize>)
    ensures
        match at {
            Some(at) => last_at(chars@, pattern@, chars@.len() as int) == Some(at as int) && at
                + pattern@.len() <= chars@.len(),
            None => last_at(chars@, pattern@, chars@.len() as int) is None,
        },
{
    let mut at: usize = chars.len();
    while at > 0
        invariant
            at <= chars@.len(),
            last_at(chars@, pattern@, chars@.len() as int) == last_at(
                chars@,
                pattern@,
                at as int,
            ),
        decreases at,
    {
        if stands_at(chars, pattern, at) {
            return Some(at);
        }
        at -= 1;
    }
    if stands_at(chars, pattern, at) {
        return Some(at);
    }
    assert(last_at(chars@, pattern@, -1) is None);
    None
}

/// Where white space stands first.
pub(crate) fn find_white(chars: &Vec<char>) -> (at: Option<usize>)
    ensures
        match at {
            Some(at) => first_white(chars@, 0) == Some(at as int) && at < chars@.len(),
            None => first_white(chars@, 0) is None,
        },
{
    let mut at: usize = 0;
    while at < chars.len()
        invariant
            at <= chars@.len(),
            first_white(chars@, 0) == first_white(chars@, at as int),
        decreases chars.len() - at,
    {
        if chars[at].is_whitespace() {
            return Some(at);
        }
        at += 1;
    }
    None
}

/// The part of a text from `from` to `to`.
pub(crate) fn part(chars: &Vec<char>, from: usize, to: usize) -> (out: Vec<char>)
    requires
        from <= to <= chars@.len(),
    ensures
        out@ == chars@.subrange(from as int, to as int),
{
    let mut out: Vec<char> = Vec::new();
    let mut i: usize = from;
    while i < to
        invariant
            from <= i <= to <= chars@.len(),
            out@ == chars@.subrange(from as int, i as int),
        decreases to - i,
    {
        out.push(chars[i]);
        assert(out@ =~= chars@.subrange(from as int, i + 1));
        i += 1;
    }
    out
}

/// What stands behind position `from`.
pub(crate) fn rest(chars: &Vec<char>, from: usize) -> (out: Vec<char>)
    requires
        from <= chars@.len(),
    ensures
        out@ == chars@.skip(from as int),
{
    let out = part(chars, from, chars.len());
    assert(out@ =~= chars@.skip(from as int));
    out
}

/// A text without the white space in front.
pub(crate) fn trim_start(chars: &Vec<char>) -> (out: Vec<char>)
    ensures
        out@ == trimmed_start(chars@),
{
    let mut from: usize = 0;
    assert(chars@.skip(0) =~= chars@);
    while from < chars.len() && chars[from].is_whitespace()
        invariant
            from <= chars@.len(),
            trimmed_start(chars@) == trimmed_start(chars@.skip(from as int)),
        decreases chars.len() - from,
    {
        assert(chars@.skip(from as int).skip(1) =~= chars@.skip(from + 1));
        from += 1;
    }
    rest(chars, from)
}

/// A text without the white space on both sides.
pub(crate) fn trim(chars: &Vec<char>) -> (out: Vec<char>)
    ensures
        out@ == trimmed(chars@),
{
    let inner = trim_start(chars);
    let mut to: usize = inner.len();
    assert(inner@.take(to as int) =~= inner@);
    while to > 0 && inner[to - 1].is_whitespace()
        invariant
            to <= inner@.len(),
            trimmed_end(inner@) == trimmed_end(inner@.take(to as int)),
        decreases to,
    {
        assert(inner@.take(to as int).drop_last() =~= inner@.take(to - 1));
        to -= 1;
    }
    let out = part(&inner, 0, to);
    assert(out@ =~= inner@.take(to as int));
    out
}

/// The texts in a vector of character vectors.
pub open spec fn char_seqs(texts: Seq<Vec<char>>) -> Seq<Seq<char>> {
    texts.map_values(|text: Vec<char>| text@)
}

/// The lines of a text.
pub(crate) fn split_lines(text: &str) -> (lines: Vec<Vec<char>>)
    ensures
        char_seqs(lines@) == lines_of(text@),
{
    let mut left = to_chars(text);
    let mut lines: Vec<Vec<char>> = Vec::new();
    let line_feed: Vec<char> = vec!['\n'];
    assert(line_feed@ =~= seq!['\n']);
    assert(char_seqs(lines@) + lines_of(left@) =~= lines_of(text@));
    loop
        invariant
            line_feed@ == seq!['\n'],
            char_seqs(lines@) + lines_of(left@) == lines_of(text@),
        decreases left@.len(),
    {
        match find(&left, &line_feed) {
            Some(end) => {
                let to: usize = if end > 0 && left[end - 1] == '\r' {
                    end - 1
                } else {
                    end
                };
                let line = part(&left, 0, to);
                let ghost before = char_seqs(lines@);
                proof {
                    let whole = left@.take(end as int);
                    if to < end {
                        assert(whole.drop_last() =~= left@.take(to as int));
                    }
                    assert(line@ =~= chomped(whole));
                }
                lines.push(line);
                assert(char_seqs(lines@) =~= before.push(line@));
                assert(end + 1 <= left.len());
                let next = rest(&left, end + 1);
                assert(char_seqs(lines@) + lines_of(next@) =~= before + (seq![line@] + lines_of(
                    next@,
                )));
                left = next;
            },
            None => {
                let ghost before = char_seqs(lines@);
                if left.len() > 0 {
                    assert(lines_of(left@) =~= seq![left@]);
                    lines.push(left);
                    assert(char_seqs(lines@) =~= before + seq![left@]);
                }
                assert(char_seqs(lines@) =~= lines_of(text@));
                return lines;
            },
        }
    }
}

/// What is searched for is found where it stands first, and only where it stands.
pub proof fn law_first_place_is_found(text: Seq<char>, pattern: Seq<char>, from: int)
    requires
        0 <= from,
    ensures
        match first_at(text, pattern, from) {
            Some(at) => from <= at && is_at(text, pattern, at) && forall|i: int|
                from <= i < at ==> !#[trigger] is_at(text, pattern, i),
            None => forall|i: int| from <= i ==> !#[trigger] is_at(text, pattern, i),
        },
    decreases text.len() + 1 - from,
{
    if from <= text.len() && !is_at(text, pattern, from) {
        law_first_place_is_found(text, pattern, from + 1);
    }
}

/// What is searched for from behind is found where it stands last, and only where it
/// stands.
pub proof fn law_last_place_is_found(text: Seq<char>, pattern: Seq<char>, to: int)
    ensures
        match last_at(text, pattern, to) {
            Some(at) => at <= to && is_at(text, pattern, at) && forall|i: int|
                at < i <= to ==> !#[trigger] is_at(text, pattern, i),
            None => forall|i: int| i <= to ==> !#[trigger] is_at(text, pattern, i),
        },
    decreases to + 1,
{
    if to >= 0 && !is_at(text, pattern, to) {
        law_last_place_is_found(text, pattern, to - 1);
    }
}

/// White space is found where it comes first.
pub proof fn law_first_white_is_found(text: Seq<char>, from: int)
    requires
        0 <= from,
    ensures
        match first_white(text, from) {
            Some(at) => from <= at < text.len() && is_white(text[at]) && forall|i: int|
                from <= i < at ==> !is_white(#[trigger] text[i]),
            None => forall|i: int| from <= i < text.len() ==> !is_white(#[trigger] text[i]),
        },
    decreases text.len() - from,
{
    if from < text.len() && !is_white(text[from]) {
        law_first_white_is_found(text, from + 1);
    }
}

/// Trimming takes white space away on both sides and nothing else: what is left neither
/// begins nor ends with any, and white space is all that was around it.
pub proof fn law_trimming_takes_white_space_alone(text: Seq<char>) -> (start: int)
    ensures
        0 <= start,
        start + trimmed(text).len() <= text.len(),
        trimmed(text) == text.subrange(start, start + trimmed(text).len()),
        forall|i: int|
            0 <= i < text.len() && !(start <= i < start + trimmed(text).len()) ==> is_white(
                #[trigger] text[i],
            ),
        trimmed(text).len() > 0 ==> !is_white(trimmed(text)[0]) && !is_white(trimmed(text).last()),
{
    let start = lemma_trimmed_start(text);
    let rest = trimmed_start(text);
    lemma_trimmed_end(rest);
    let kept = trimmed_end(rest);
    assert(kept =~= text.subrange(start, start + kept.len()));
    assert forall|i: int| 0 <= i < text.len() && !(start <= i < start + kept.len()) implies is_white(
        #[trigger] text[i],
    ) by {
        if i >= start {
            assert(rest[i - start] == text[i]);
        }
    }
    if kept.len() > 0 {
        assert(kept[0] == rest[0]);
    }
    start
}

proof fn lemma_trimmed_start(text: Seq<char>) -> (start: int)
    ensures
        0 <= start <= text.len(),
        trimmed_start(text) == text.skip(start),
        forall|i: int| 0 <= i < start ==> is_white(#[trigger] text[i]),
        start < text.len() ==> !is_white(text[start]),
    decreases text.len(),
{
    if text.len() > 0 && is_white(text[0]) {
        let rest = text.skip(1);
        let start = lemma_trimmed_start(rest);
        assert(rest.skip(start) =~= text.skip(start + 1));
        assert forall|i: int| 0 <= i < start + 1 implies is_white(#[trigger] text[i]) by {
            if i > 0 {
                assert(rest[i - 1] == text[i]);
            }
        }
        if start < rest.len() {
            assert(rest[start] == text[start + 1]);
        }
        start + 1
    } else {
        assert(text.skip(0) =~= text);
        0
    }
}

proof fn lemma_trimmed_end(text: Seq<char>)
    ensures
        trimmed_end(text).len() <= text.len(),
        trimmed_end(text) == text.take(trimmed_end(text).len() as int),
        forall|i: int|
            trimmed_end(text).len() <= i < text.len() ==> is_white(#[trigger] text[i]),
        trimmed_end(text).len() > 0 ==> !is_white(trimmed_end(text).last()),
    decreases text.len(),
{
    if text.len() > 0 && is_white(text.last()) {
        let shorter = text.drop_last();
        lemma_trimmed_end(shorter);
        let n = trimmed_end(text).len() as int;
        assert(shorter.take(n) =~= text.take(n));
        assert forall|i: int| n <= i < text.len() implies is_white(#[trigger] text[i]) by {
            if i < shorter.len() {
                assert(shorter[i] == text[i]);
            }
        }
    } else {
        assert(text.take(text.len() as int) =~= text);
    }
}

/// A text that neither begins nor ends with white space is left as it is, also behind
/// white space.
pub proof fn law_trimmed_text_stays(before: Seq<char>, text: Seq<char>, after: Seq<char>)
    requires
        text.len() > 0,
        !is_white(text[0]),
        !is_white(text.last()),
        forall|i: int| 0 <= i < before.len() ==> is_white(#[trigger] before[i]),
        forall|i: int| 0 <= i < after.len() ==> is_white(#[trigger] after[i]),
    ensures
        trimmed(before + text + after) == text,
        trimmed_start(before + text + after) == text + after,
{
    let whole = before + text + after;
    let start = law_trimming_takes_white_space_alone(whole);
    let kept = trimmed(whole);
    assert(whole[before.len() as int] == text[0]);
    assert(whole[before.len() + text.len() - 1] == text.last());
    assert(start <= before.len());
    assert(start + kept.len() >= before.len() + text.len());
    if start < before.len() {
        assert(kept[0] == whole[start]);
        assert(whole[start] == before[start]);
    }
    if start + kept.len() > before.len() + text.len() {
        let end = start + kept.len() - 1;
        assert(kept.last() == whole[end]);
        assert(whole[end] == after[end - before.len() - text.len()]);
    }
    assert(kept =~= text);
    let first = lemma_trimmed_start(whole);
    if first < before.len() {
        assert(whole[first] == before[first]);
    }
    if first > before.len() {
        assert(is_white(whole[before.len() as int]));
    }
    assert(whole.skip(first) =~= text + after);
}

/// The lines of a text that is made of lines are these: a line feed ends a line, and
/// nothing else parts two.
pub proof fn law_lines_are_what_line_feeds_end(line: Seq<char>, rest: Seq<char>)
    requires
        !line.contains('\n'),
    ensures
        lines_of(line + seq!['\n'] + rest) == seq![chomped(line)] + lines_of(rest),
        line.len() > 0 ==> lines_of(line) == seq![line],
        lines_of(seq![]) == Seq::<Seq<char>>::empty(),
{
    let text = line + seq!['\n'] + rest;
    let end = line.len() as int;
    let feed = seq!['\n'];
    law_first_place_is_found(text, feed, 0);
    assert(text.subrange(end, end + 1) =~= feed);
    assert(is_at(text, feed, end));
    assert forall|i: int| 0 <= i < end implies !#[trigger] is_at(text, feed, i) by {
        if is_at(text, feed, i) {
            assert(text.subrange(i, i + 1)[0] == text[i]);
            assert(line.contains(line[i]));
        }
    }
    assert(text.take(end) =~= line);
    assert(text.skip(end + 1) =~= rest);
    law_first_place_is_found(line, feed, 0);
    match first_at(line, feed, 0) {
        Some(at) => {
            assert(line.subrange(at, at + 1)[0] == line[at]);
            assert(line.contains(line[at]));
        },
        None => {},
    }
    let none = Seq::<char>::empty();
    law_first_place_is_found(none, feed, 0);
}

/// A carriage return right before the line feed belongs to the end of the line, and any
/// other stays in the line.
pub proof fn law_carriage_return_goes_with_the_line_feed(line: Seq<char>, rest: Seq<char>)
    requires
        !line.contains('\n'),
    ensures
        lines_of(line + "\r\n"@ + rest) == seq![line] + lines_of(rest),
        line.len() == 0 || line.last() != '\r' ==> lines_of(line + "\n"@ + rest) == seq![line]
            + lines_of(rest),
{
    reveal_strlit("\r\n");
    reveal_strlit("\n");
    let longer = line.push('\r');
    if longer.contains('\n') {
        let i = choose|i: int| 0 <= i < longer.len() && longer[i] == '\n';
        assert(line[i] == '\n');
    }
    law_lines_are_what_line_feeds_end(longer, rest);
    law_lines_are_what_line_feeds_end(line, rest);
    assert(longer + seq!['\n'] + rest =~= line + "\r\n"@ + rest);
    assert(line + seq!['\n'] + rest =~= line + "\n"@ + rest);
    assert(longer.drop_last() =~= line);
}

/// The characters that are white space, by their codes: there are 25 of them.
pub proof fn law_white_space_by_code(c: char)
    ensures
        is_white(c) <==> c == '\t' || c == '\n' || c == '\u{b}' || c == '\u{c}' || c == '\r' || c
            == ' ' || c == '\u{85}' || c == '\u{a0}' || c == '\u{1680}' || '\u{2000}' <= c
            <= '\u{200a}' || c == '\u{2028}' || c == '\u{2029}' || c == '\u{202f}' || c
            == '\u{205f}' || c == '\u{3000}',
{
}

} // verus!
