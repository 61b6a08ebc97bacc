//! Text helpers for the command layer: whitespace, tokens and messages.

use vstd::prelude::*;
use vstd::string::{StrSliceExecFns, StringExecFns};

verus! {

/// Whether `c` is one of the code points with the Unicode property
/// White_Space.
pub open spec fn is_whitespace(c: char) -> bool {
    let code = c as u32;
    ||| 0x09 <= code <= 0x0d
    ||| code == 0x20
    ||| code == 0x85
    ||| code == 0xa0
    ||| code == 0x1680
    ||| 0x2000 <= code <= 0x200a
    ||| code == 0x2028
    ||| code == 0x2029
    ||| code == 0x202f
    ||| code == 0x205f
    ||| code == 0x3000
}

/// Whether `c` is a whitespace character.
pub fn char_is_whitespace(c: char) -> (white: bool)
    ensures
        white == is_whitespace(c),
{
    let code = c as u32;
    (0x09 <= code && code <= 0x0d) || code == 0x20 || code == 0x85 || code == 0xa0 || code
        == 0x1680 || (0x2000 <= code && code <= 0x200a) || code == 0x2028 || code == 0x2029 || code
        == 0x202f || code == 0x205f || code == 0x3000
}

/// Number of whitespace characters at the front of `s`.
pub open spec fn leading_whitespace(s: Seq<char>) -> nat
    decreases s.len(),
{
    if s.len() > 0 && is_whitespace(s[0]) {
        1 + leading_whitespace(s.drop_first())
    } else {
        0
    }
}

/// Number of whitespace characters at the back of `s`.
pub open spec fn trailing_whitespace(s: Seq<char>) -> nat
    decreases s.len(),
{
    if s.len() > 0 && is_whitespace(s.last()) {
        1 + trailing_whitespace(s.drop_last())
    } else {
        0
    }
}

/// Number of characters at the front of `s` up to the first whitespace
/// character.
pub open spec fn token_len(s: Seq<char>) -> nat
    decreases s.len(),
{
    if s.len() > 0 && !is_whitespace(s[0]) {
        1 + token_len(s.drop_first())
    } else {
        0
    }
}

/// `s` without the whitespace at its front.
pub open spec fn trim_start(s: Seq<char>) -> Seq<char> {
    s.skip(leading_whitespace(s) as int)
}

/// `s` without the whitespace at its front and at its back.
pub open spec fn trim(s: Seq<char>) -> Seq<char> {
    let front = trim_start(s);
    front.take(front.len() - trailing_whitespace(front))
}

/// Whether `s` holds nothing but whitespace.
pub open spec fn is_blank(s: Seq<char>) -> bool {
    forall|i: int| 0 <= i < s.len() ==> is_whitespace(#[trigger] s[i])
}

/// The first token of `s` and what follows it. Whitespace before the token
/// is skipped; the token ends before the first whitespace character after
/// it, and the remainder begins behind that character. `None` when `s` holds
/// no token.
pub open spec fn first_token(s: Seq<char>) -> Option<(Seq<char>, Seq<char>)> {
    let input = trim_start(s);
    if input.len() == 0 {
        None
    } else {
        let n = token_len(input) as int;
        Some(
            (
                input.take(n),
                if n < input.len() {
                    input.skip(n + 1)
                } else {
                    Seq::empty()
                },
            ),
        )
    }
}

/// The whitespace at the front of `s` ends at the first character that is
/// none.
pub proof fn lemma_leading_whitespace(s: Seq<char>, n: int)
    requires
        0 <= n <= s.len(),
        forall|i: int| 0 <= i < n ==> is_whitespace(#[trigger] s[i]),
        n < s.len() ==> !is_whitespace(s[n]),
    ensures
        leading_whitespace(s) == n,
    decreases n,
{
    if n > 0 {
        let rest = s.drop_first();
        assert forall|i: int| 0 <= i < n - 1 implies is_whitespace(#[trigger] rest[i]) by {
            assert(rest[i] == s[i + 1]);
        }
        lemma_leading_whitespace(rest, n - 1);
    }
}

/// The whitespace at the back of `s` begins behind the last character that
/// is none.
pub proof fn lemma_trailing_whitespace(s: Seq<char>, n: int)
    requires
        0 <= n <= s.len(),
        forall|i: int| s.len() - n <= i < s.len() ==> is_whitespace(#[trigger] s[i]),
        n < s.len() ==> !is_whitespace(s[s.len() - n - 1]),
    ensures
        trailing_whitespace(s) == n,
    decreases n,
{
    if n > 0 {
        let rest = s.drop_last();
        assert forall|i: int| rest.len() - (n - 1) <= i < rest.len() implies is_whitespace(
            #[trigger] rest[i],
        ) by {
            assert(rest[i] == s[i]);
        }
        lemma_trailing_whitespace(rest, n - 1);
    }
}

/// A token ends at the first whitespace character.
pub proof fn lemma_token_len(s: Seq<char>, n: int)
    requires
        0 <= n <= s.len(),
        forall|i: int| 0 <= i < n ==> !is_whitespace(#[trigger] s[i]),
        n < s.len() ==> is_whitespace(s[n]),
    ensures
        token_len(s) == n,
    decreases n,
{
    if n > 0 {
        let rest = s.drop_first();
        assert forall|i: int| 0 <= i < n - 1 implies !is_whitespace(#[trigger] rest[i]) by {
            assert(rest[i] == s[i + 1]);
        }
        lemma_token_len(rest, n - 1);
    }
}

/// The whitespace at the front of `s` is whitespace, and what follows it is
/// none.
pub proof fn lemma_leading_whitespace_ends(s: Seq<char>)
    ensures
        leading_whitespace(s) <= s.len(),
        forall|i: int| 0 <= i < leading_whitespace(s) ==> is_whitespace(#[trigger] s[i]),
        leading_whitespace(s) < s.len() ==> !is_whitespace(s[leading_whitespace(s) as int]),
    decreases s.len(),
{
    if s.len() > 0 && is_whitespace(s[0]) {
        let rest = s.drop_first();
        lemma_leading_whitespace_ends(rest);
        assert forall|i: int| 0 <= i < leading_whitespace(s) implies is_whitespace(
            #[trigger] s[i],
        ) by {
            if i > 0 {
                assert(s[i] == rest[i - 1]);
            }
        }
        if leading_whitespace(s) < s.len() {
            assert(s[leading_whitespace(s) as int] == rest[leading_whitespace(rest) as int]);
        }
    }
}

/// A token holds no whitespace and ends where `s` ends or whitespace begins.
pub proof fn lemma_token_ends(s: Seq<char>)
    ensures
        token_len(s) <= s.len(),
        forall|i: int| 0 <= i < token_len(s) ==> !is_whitespace(#[trigger] s[i]),
        token_len(s) < s.len() ==> is_whitespace(s[token_len(s) as int]),
    decreases s.len(),
{
    if s.len() > 0 && !is_whitespace(s[0]) {
        let rest = s.drop_first();
        lemma_token_ends(rest);
        assert forall|i: int| 0 <= i < token_len(s) implies !is_whitespace(#[trigger] s[i]) by {
            if i > 0 {
                assert(s[i] == rest[i - 1]);
            }
        }
        if token_len(s) < s.len() {
            assert(s[token_len(s) as int] == rest[token_len(rest) as int]);
        }
    }
}

/// The first token is not empty and holds no whitespace; what follows it is
/// shorter than the text. Text without a token is blank.
pub proof fn lemma_first_token(s: Seq<char>)
    ensures
        match first_token(s) {
            Some((token, remainder)) => token.len() > 0 && token.len() + remainder.len() <= s.len()
                && forall|i: int| 0 <= i < token.len() ==> !is_whitespace(#[trigger] token[i]),
            None => is_blank(s),
        },
{
    let input = trim_start(s);
    lemma_leading_whitespace_ends(s);
    lemma_token_ends(input);
    if input.len() > 0 {
        assert(input[0] == s[leading_whitespace(s) as int]);
    }
}

/// Index of the first character of `s` at or after `from` that is
/// whitespace, if `white`, or that is none, if not; the length of `s` when
/// there is no such character.
fn scan(s: &str, from: usize, white: bool) -> (at: usize)
    requires
        from <= s@.len(),
    ensures
        from <= at <= s@.len(),
        forall|i: int| from <= i < at ==> is_whitespace(#[trigger] s@[i]) != white,
        at < s@.len() ==> is_whitespace(s@[at as int]) == white,
{
    let len = s.unicode_len();
    let mut at = from;
    while at < len
        invariant
            len == s@.len(),
            from <= at <= len,
            forall|i: int| from <= i < at ==> is_whitespace(#[trigger] s@[i]) != white,
        decreases len - at,
    {
        if char_is_whitespace(s.get_char(at)) == white {
            return at;
        }
        at += 1;
    }
    at
}

/// Splits `raw_input` at its first token: the token, and what follows the
/// whitespace character that ends it.
pub fn split_at_first_token(raw_input: &str) -> (parts: Option<(&str, &str)>)
    ensures
        match first_token(raw_input@) {
            Some((token, remainder)) => parts matches Some((t, r)) && t@ == token && r@
                == remainder && token.len() > 0 && forall|i: int|
                0 <= i < token.len() ==> !is_whitespace(#[trigger] token[i]),
            None => parts is None && is_blank(raw_input@),
        },
{
    let len = raw_input.unicode_len();
    let start = scan(raw_input, 0, false);
    proof {
        lemma_leading_whitespace(raw_input@, start as int);
    }
    if start == len {
        return None;
    }
    let end = scan(raw_input, start, true);
    let ghost input = trim_start(raw_input@);
    proof {
        assert forall|i: int| 0 <= i < end - start implies !is_whitespace(#[trigger] input[i]) by {
            assert(input[i] == raw_input@[start + i]);
        }
        lemma_token_len(input, end - start);
    }
    let token = raw_input.substring_char(start, end);
    assert(token@ =~= input.take(end - start));
    let remainder = if end < len {
        raw_input.substring_char(end + 1, len)
    } else {
        raw_input.substring_char(len, len)
    };
    assert(remainder@ =~= if end - start < input.len() {
        input.skip(end - start + 1)
    } else {
        Seq::empty()
    });
    Some((token, remainder))
}

/// `s` without the whitespace at its front and at its back.
pub fn trimmed(s: &str) -> (inner: &str)
    ensures
        inner@ == trim(s@),
        inner@.len() == 0 <==> is_blank(s@),
{
    let len = s.unicode_len();
    let start = scan(s, 0, false);
    proof {
        lemma_leading_whitespace(s@, start as int);
    }
    let ghost front = trim_start(s@);
    let mut end = len;
    while end > start && char_is_whitespace(s.get_char(end - 1))
        invariant
            len == s@.len(),
            start <= end <= len,
            forall|i: int| end <= i < len ==> is_whitespace(#[trigger] s@[i]),
        decreases end,
    {
        end -= 1;
    }
    proof {
        assert forall|i: int| front.len() - (len - end) <= i < front.len() implies is_whitespace(
            #[trigger] front[i],
        ) by {
            assert(front[i] == s@[start + i]);
        }
        if end > start {
            assert(front[front.len() - (len - end) - 1] == s@[end - 1]);
        }
        lemma_trailing_whitespace(front, len - end);
    }
    let inner = s.substring_char(start, end);
    assert(inner@ =~= trim(s@));
    inner
}

/// The end of a complaint: the advice to enter the help command `help`;
/// `gain` says what that command gives.
pub open spec fn advice(help: Seq<char>, gain: Seq<char>) -> Seq<char> {
    " Enter '"@ + help + "' for "@ + gain
}

/// Whether `help` is one of the help commands.
pub open spec fn is_help_command(help: Seq<char>) -> bool {
    ||| help == "help"@
    ||| help == "help seek"@
    ||| help == "help find"@
    ||| help == "help find nonzero"@
    ||| help == "help find bytes"@
    ||| help == "help find string"@
    ||| help == "help print"@
    ||| help == "help config"@
}

/// `complaint` with the advice to enter `help` behind it.
pub open spec fn advised(complaint: Seq<char>, help: Seq<char>, gain: Seq<char>) -> Seq<char> {
    complaint + advice(help, gain)
}

/// Whether `message` ends in the advice to enter a help command.
pub open spec fn advises(message: Seq<char>) -> bool {
    exists|complaint: Seq<char>, help: Seq<char>, gain: Seq<char>|
        is_help_command(help) && message == #[trigger] advised(complaint, help, gain)
}

/// `token` between `before` and `after`.
pub open spec fn around(before: Seq<char>, token: Seq<char>, after: Seq<char>) -> Seq<char> {
    before + token + after
}

/// Whether `token` stands in `message`.
pub open spec fn names(message: Seq<char>, token: Seq<char>) -> bool {
    exists|before: Seq<char>, after: Seq<char>| message == #[trigger] around(before, token, after)
}

/// Whether `result`, if it is a complaint, ends in the advice to enter a help
/// command.
pub open spec fn fails_advising<T>(result: Result<T, Seq<char>>) -> bool {
    result matches Err(message) ==> advises(message)
}

/// Whether `result`, if it is a complaint, names `token`.
pub open spec fn fails_naming<T>(result: Result<T, Seq<char>>, token: Seq<char>) -> bool {
    result matches Err(message) ==> names(message, token)
}

/// A complaint with advice behind it advises.
pub proof fn lemma_advises(complaint: Seq<char>, help: Seq<char>, gain: Seq<char>)
    requires
        is_help_command(help),
    ensures
        advises(complaint + advice(help, gain)),
{
    assert(complaint + advice(help, gain) == advised(complaint, help, gain));
}

/// A message names what stands in it.
pub proof fn lemma_names(before: Seq<char>, token: Seq<char>, after: Seq<char>)
    ensures
        names(before + token + after, token),
{
    assert(before + token + after == around(before, token, after));
}

/// `head`, `token` and a closing quote and full stop: a complaint about
/// `token`.
pub fn quoted(head: &str, token: &str) -> (complaint: String)
    ensures
        complaint@ == head@ + token@ + "'."@,
{
    String::from_str(head).concat(token).concat("'.")
}

/// `complaint` with the advice to enter `help` behind it.
pub fn advise(complaint: String, help: &str, gain: &str) -> (message: String)
    ensures
        message@ == complaint@ + advice(help@, gain@),
{
    let message = complaint.concat(" Enter '").concat(help).concat("' for ").concat(gain);
    assert(message@ =~= complaint@ + advice(help@, gain@));
    message
}

/// Whether `a` and `b` hold the same characters.
pub fn same_text(a: &str, b: &str) -> (same: bool)
    ensures
        same == (a@ == b@),
{
    let left = a.to_owned();
    let right = b.to_owned();
    left == right
}

} // verus!
