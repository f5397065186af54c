//! String literals of the Seatbelt policy language.
use crate::error::{Error, ErrorSource};
use crate::macos::aliases::{is_absolute, starts_at_root};
use crate::path::SandboxPath;
use crate::text::{to_chars, utf8_text};
use vstd::prelude::*;
use vstd::utf8::{decode_utf8, valid_utf8};

verus! {

/// Whether `c` is a control character (Unicode category `Cc`).
pub open spec fn is_control_char(c: char) -> bool {
    c as u32 <= 0x1f || (0x7f <= c as u32 && c as u32 <= 0x9f)
}

/// `char::is_control`: whether the character is in Unicode category `Cc`, which
/// holds U+0000 to U+001F and U+007F to U+009F.
pub assume_specification[ char::is_control ](c: char) -> (yes: bool)
    ensures
        yes == is_control_char(c),
;

/// A character inside a double-quoted literal.
pub open spec fn escaped_char(c: char) -> Seq<char> {
    if c == '\\' || c == '"' {
        seq!['\\', c]
    } else {
        seq![c]
    }
}

/// The body of a double-quoted literal: backslashes and double quotes behind a
/// backslash.
pub open spec fn escaped(text: Seq<char>) -> Seq<char>
    decreases text.len(),
{
    if text.len() == 0 {
        seq![]
    } else {
        escaped(text.drop_last()) + escaped_char(text.last())
    }
}

/// Whether a text holds a control character.
pub open spec fn has_control(text: Seq<char>) -> bool {
    exists|i: int| 0 <= i < text.len() && is_control_char(#[trigger] text[i])
}

/// What keeps a path out of a profile, if anything.
pub open spec fn path_problem(path: Seq<u8>) -> Option<Seq<char>> {
    if !starts_at_root(path) {
        Some("sandbox policy path is not absolute"@)
    } else if !valid_utf8(path) {
        Some("sandbox policy path is not valid UTF-8"@)
    } else if has_control(decode_utf8(path)) {
        Some("sandbox policy path contains a control character"@)
    } else {
        None
    }
}

/// A path as the body of a double-quoted literal.
pub open spec fn literal(path: Seq<u8>) -> Seq<char> {
    escaped(decode_utf8(path))
}

/// Whether `error` says that `path` cannot be in a profile, and why.
pub open spec fn is_path_error(error: Error, path: Seq<u8>) -> bool {
    error matches Error::Confinement { stage, source: ErrorSource::InvalidPath { message, path: p } }
        && stage@ == "seatbelt-profile"@ && path_problem(path) == Some(message@) && p@ == path
}

/// The position behind the literal whose body starts at `at`: a backslash takes
/// the next character with it, and a double quote ends the literal.
pub open spec fn literal_end(text: Seq<char>, at: int) -> int
    decreases text.len() - at,
{
    if at < 0 || at >= text.len() {
        text.len() as int
    } else if text[at] == '"' {
        at
    } else if text[at] == '\\' && at + 1 < text.len() {
        literal_end(text, at + 2)
    } else {
        literal_end(text, at + 1)
    }
}

/// What a literal with the body `body` stands for.
pub open spec fn unescaped(body: Seq<char>, at: int) -> Seq<char>
    decreases body.len() - at,
{
    if at < 0 || at >= body.len() {
        seq![]
    } else if body[at] == '\\' && at + 1 < body.len() {
        seq![body[at + 1]] + unescaped(body, at + 2)
    } else {
        seq![body[at]] + unescaped(body, at + 1)
    }
}

/// Whatever a path holds, its literal ends at the closing quote that the profile
/// writes, and stands for the path: no path can change the structure of a
/// profile.
pub proof fn law_path_stays_inside_its_literal(
    before: Seq<char>,
    text: Seq<char>,
    after: Seq<char>,
)
    ensures
        literal_end(before + escaped(text) + seq!['"'] + after, before.len() as int)
            == before.len() + escaped(text).len(),
        unescaped(escaped(text), 0) == text,
{
    let body = escaped(text);
    let whole = before + body + seq!['"'] + after;
    assert(text.skip(0) =~= text);
    lemma_escaped_tail(text, 0);
    assert(escaped(text.take(0)) =~= seq![]) by {
        assert(text.take(0) =~= seq![]);
    }
    lemma_literal_end(before, text, after, 0);
    lemma_unescaped(text, 0);
}

/// An escaped text is the escaped beginning with the escaped rest behind it.
proof fn lemma_escaped_tail(text: Seq<char>, n: int)
    requires
        0 <= n <= text.len(),
    ensures
        escaped(text.take(n)).len() <= escaped(text).len(),
        escaped(text).take(escaped(text.take(n)).len() as int) == escaped(text.take(n)),
    decreases text.len() - n,
{
    if n == text.len() {
        assert(text.take(n) =~= text);
        assert(escaped(text).take(escaped(text).len() as int) =~= escaped(text));
    } else {
        lemma_escaped_tail(text, n + 1);
        let longer = text.take(n + 1);
        assert(longer.drop_last() =~= text.take(n));
        assert(longer.last() == text[n]);
        let short = escaped(text.take(n));
        let long = escaped(longer);
        assert(long == short + escaped_char(text[n]));
        assert(escaped(text).take(short.len() as int) =~= long.take(short.len() as int));
        assert(long.take(short.len() as int) =~= short);
    }
}

/// The characters of an escaped text that come from `text[n]`.
proof fn lemma_escaped_at(text: Seq<char>, n: int)
    requires
        0 <= n < text.len(),
    ensures
        ({
            let at = escaped(text.take(n)).len() as int;
            let piece = escaped_char(text[n]);
            &&& escaped(text.take(n + 1)).len() == at + piece.len()
            &&& at + piece.len() <= escaped(text).len()
            &&& escaped(text)[at] == piece[0]
            &&& piece.len() == 2 ==> escaped(text)[at + 1] == piece[1]
        }),
{
    lemma_escaped_tail(text, n + 1);
    let longer = text.take(n + 1);
    assert(longer.drop_last() =~= text.take(n));
    assert(longer.last() == text[n]);
    let at = escaped(text.take(n)).len() as int;
    let piece = escaped_char(text[n]);
    let long = escaped(longer);
    assert(long == escaped(text.take(n)) + piece);
    assert(long[at] == piece[0]);
    assert(escaped(text).take(long.len() as int)[at] == long[at]);
    if piece.len() == 2 {
        assert(long[at + 1] == piece[1]);
        assert(escaped(text).take(long.len() as int)[at + 1] == long[at + 1]);
    }
}

proof fn lemma_literal_end(before: Seq<char>, text: Seq<char>, after: Seq<char>, n: int)
    requires
        0 <= n <= text.len(),
    ensures
        literal_end(
            before + escaped(text) + seq!['"'] + after,
            (before.len() + escaped(text.take(n)).len()) as int,
        ) == before.len() + escaped(text).len(),
    decreases text.len() - n,
{
    let body = escaped(text);
    let whole = before + body + seq!['"'] + after;
    let at = (before.len() + escaped(text.take(n)).len()) as int;
    if n == text.len() {
        assert(text.take(n) =~= text);
        assert(whole[at] == '"');
    } else {
        lemma_escaped_at(text, n);
        lemma_literal_end(before, text, after, n + 1);
        let i = escaped(text.take(n)).len() as int;
        assert(whole[at] == body[i]);
    }
}

proof fn lemma_unescaped(text: Seq<char>, n: int)
    requires
        0 <= n <= text.len(),
    ensures
        unescaped(escaped(text), escaped(text.take(n)).len() as int) == text.skip(n),
    decreases text.len() - n,
{
    let body = escaped(text);
    let at = escaped(text.take(n)).len() as int;
    if n == text.len() {
        assert(text.take(n) =~= text);
        assert(text.skip(n) =~= seq![]);
    } else {
        lemma_escaped_at(text, n);
        lemma_unescaped(text, n + 1);
        assert(text.skip(n) =~= seq![text[n]] + text.skip(n + 1));
    }
}

/// Appends a text as the body of a double-quoted literal.
pub fn push_escaped(out: &mut String, text: &str)
    ensures
        final(out)@ == old(out)@ + escaped(text@),
{
    let chars = to_chars(text);
    let ghost start = out@;
    let mut i: usize = 0;
    assert(text@.take(0) =~= seq![]);
    assert(start + escaped(text@.take(0)) =~= start);
    while i < chars.len()
        invariant
            i <= chars@.len(),
            chars@ == text@,
            out@ == start + escaped(text@.take(i as int)),
        decreases chars.len() - i,
    {
        let c = chars[i];
        if c == '\\' || c == '"' {
            out.push('\\');
        }
        out.push(c);
        assert(text@.take(i + 1).drop_last() =~= text@.take(i as int));
        assert(out@ =~= start + escaped(text@.take(i + 1)));
        i += 1;
    }
    assert(text@.take(i as int) =~= text@);
}

/// The failure for a path that cannot be in a profile.
fn invalid_path(message: &'static str, path: &SandboxPath) -> (error: Error)
    ensures
        error matches Error::Confinement {
            stage,
            source: ErrorSource::InvalidPath { message: m, path: p },
        } && stage@ == "seatbelt-profile"@ && m@ == message@ && p@ == path@,
{
    Error::confinement("seatbelt-profile", ErrorSource::InvalidPath { message, path: path.clone() })
}

/// Converts a policy path to the body of a double-quoted string literal.
///
/// Fails closed on paths that a quoted literal cannot carry faithfully, namely
/// relative paths, paths that are not UTF-8, and paths with control characters.
pub fn sbpl_string(path: &SandboxPath) -> (body: Result<String, Error>)
    ensures
        match body {
            Ok(body) => path_problem(path@) is None && body@ == literal(path@),
            Err(error) => is_path_error(error, path@),
        },
{
    if !is_absolute(path) {
        return Err(invalid_path("sandbox policy path is not absolute", path));
    }
    let text = match utf8_text(path.bytes.as_slice()) {
        Some(text) => text,
        None => {
            return Err(invalid_path("sandbox policy path is not valid UTF-8", path));
        },
    };
    let chars = to_chars(text.as_str());
    let mut i: usize = 0;
    while i < chars.len()
        invariant
            i <= chars@.len(),
            chars@ == decode_utf8(path@),
            starts_at_root(path@),
            valid_utf8(path@),
            forall|k: int| 0 <= k < i ==> !is_control_char(#[trigger] chars@[k]),
        decreases chars.len() - i,
    {
        if chars[i].is_control() {
            assert(is_control_char(decode_utf8(path@)[i as int]));
            return Err(invalid_path("sandbox policy path contains a control character", path));
        }
        i += 1;
    }
    assert(!has_control(decode_utf8(path@)));
    let mut body = String::new();
    push_escaped(&mut body, text.as_str());
    assert(body@ =~= literal(path@));
    Ok(body)
}

/// A path can be in a profile exactly where it is absolute, is UTF-8 and holds no control
/// character: none up to U+001F and none from U+007F to U+009F. What is said of any other
/// is the first of these that fails.
pub proof fn law_only_plain_absolute_paths_fit(path: Seq<u8>)
    ensures
        ({
            let absolute = path.len() > 0 && path[0] == 0x2f;
            let text = decode_utf8(path);
            let plain = forall|i: int|
                0 <= i < text.len() ==> 0x20 <= (#[trigger] text[i]) as u32 && !(0x7f <= text[i] as u32
                    <= 0x9f);
            &&& path_problem(path) is None <==> absolute && valid_utf8(path) && plain
            &&& !absolute ==> path_problem(path) == Some("sandbox policy path is not absolute"@)
            &&& absolute && !valid_utf8(path) ==> path_problem(path) == Some(
                "sandbox policy path is not valid UTF-8"@,
            )
            &&& absolute && valid_utf8(path) && !plain ==> path_problem(path) == Some(
                "sandbox policy path contains a control character"@,
            )
        }),
{
    let text = decode_utf8(path);
    assert forall|i: int| 0 <= i < text.len() implies (is_control_char(#[trigger] text[i]) <==> !(0x20
        <= text[i] as u32 && !(0x7f <= text[i] as u32 <= 0x9f))) by {}
}

} // verus!
