//! The client's text protocol: a line that starts with `/` is a command, its
//! first space parts the command word from one argument; any other line is
//! text for the room.

use vstd::prelude::*;
use vstd::string::*;
use vstd::utf8::*;

verus! {

broadcast use vstd::utf8::group_utf8_lib, vstd::string::group_string_axioms;

/// The byte of a space, which parts a command word from its argument.
pub const SPACE: u8 = 32;

/// The number of bytes before the first space, or all of them.
pub open spec fn token_end(b: Seq<u8>) -> nat
    decreases b.len(),
{
    if b.len() == 0 || b[0] == SPACE {
        0
    } else {
        1 + token_end(b.drop_first())
    }
}

/// The command word: the text before the first space.
pub open spec fn token_of(m: Seq<char>) -> Seq<char> {
    let b = encode_utf8(m);
    decode_utf8(b.subrange(0, token_end(b) as int))
}

/// The argument: all the text after the first space, if there is a space.
pub open spec fn argument_of(m: Seq<char>) -> Option<Seq<char>> {
    let b = encode_utf8(m);
    let k = token_end(b) as int;
    if k < b.len() {
        Some(decode_utf8(b.subrange(k + 1, b.len() as int)))
    } else {
        None
    }
}

/// A character with the Unicode `White_Space` property, which is what
/// `char::is_whitespace` tests.
pub open spec fn is_whitespace(c: char) -> bool {
    ('\u{9}' <= c && c <= '\u{d}') || c == ' ' || c == '\u{85}' || c == '\u{a0}' || c
        == '\u{1680}' || ('\u{2000}' <= c && c <= '\u{200a}') || c == '\u{2028}' || c
        == '\u{2029}' || c == '\u{202f}' || c == '\u{205f}' || c == '\u{3000}'
}

/// `r` is `s` without its leading and trailing whitespace: a contiguous
/// part of `s` that neither starts nor ends with whitespace, with only
/// whitespace before and after it in `s`.
pub open spec fn is_trim_of(r: Seq<char>, s: Seq<char>) -> bool {
    exists|i: int, j: int|
        0 <= i <= j <= s.len() && r == #[trigger] s.subrange(i, j) && (forall|k: int|
            0 <= k < i ==> is_whitespace(#[trigger] s[k])) && (forall|k: int|
            j <= k < s.len() ==> is_whitespace(#[trigger] s[k])) && (i < j ==> !is_whitespace(
            s[i],
        ) && !is_whitespace(s[j - 1]))
}

/// Relies on str::trim: it returns the slice of `s` without the leading and
/// trailing characters for which `char::is_whitespace` holds.
#[verifier::external_body]
pub(crate) fn trim_text(s: &str) -> (r: &str)
    ensures
        is_trim_of(r@, s@),
{
    s.trim()
}

/// A line from a client, sorted.
#[derive(Debug, PartialEq, Eq)]
pub enum Command {
    /// `/join`, with the room code if one was given
    Join(Option<String>),
    /// `/name`, with the display name if one was given
    Name(Option<String>),
    /// `/create`
    Create,
    /// `/ready`
    Ready,
    /// another word after `/`
    Unknown,
    /// not a command: text for the room
    Text,
}

/// What a `Command` holds, as character sequences.
pub enum CommandView {
    Join(Option<Seq<char>>),
    Name(Option<Seq<char>>),
    Create,
    Ready,
    Unknown,
    Text,
}

pub open spec fn opt_view(o: Option<String>) -> Option<Seq<char>> {
    match o {
        Some(s) => Some(s@),
        None => None,
    }
}

impl View for Command {
    type V = CommandView;

    open spec fn view(&self) -> CommandView {
        match self {
            Command::Join(a) => CommandView::Join(opt_view(*a)),
            Command::Name(a) => CommandView::Name(opt_view(*a)),
            Command::Create => CommandView::Create,
            Command::Ready => CommandView::Ready,
            Command::Unknown => CommandView::Unknown,
            Command::Text => CommandView::Text,
        }
    }
}

/// How a line reads.
pub open spec fn parse_spec(m: Seq<char>) -> CommandView {
    if m.len() == 0 || m[0] != '/' {
        CommandView::Text
    } else if token_of(m) == "/join"@ {
        CommandView::Join(argument_of(m))
    } else if token_of(m) == "/name"@ {
        CommandView::Name(argument_of(m))
    } else if token_of(m) == "/create"@ {
        CommandView::Create
    } else if token_of(m) == "/ready"@ {
        CommandView::Ready
    } else {
        CommandView::Unknown
    }
}

proof fn lemma_token_end(b: Seq<u8>, k: int)
    requires
        0 <= k <= b.len(),
        forall|j: int| 0 <= j < k ==> b[j] != SPACE,
        k == b.len() || b[k] == SPACE,
    ensures
        token_end(b) == k,
    decreases k,
{
    if k > 0 {
        lemma_token_end(b.drop_first(), k - 1);
    }
}

/// Sorts a (trimmed) line from a client.
pub fn parse_command(m: &str) -> (r: Command)
    ensures
        r@ == parse_spec(m@),
{
    let mut it = m.chars();
    let slash = match it.next() {
        Some(c) => c == '/',
        None => false,
    };
    if !slash {
        return Command::Text;
    }
    let b = m.as_bytes();
    let ghost bs = encode_utf8(m@);
    let mut k: usize = 0;
    while k < b.len() && b[k] != SPACE
        invariant
            b@ == bs,
            k <= bs.len(),
            forall|j: int| 0 <= j < k ==> bs[j] != SPACE,
        decreases bs.len() - k,
    {
        k = k + 1;
    }
    proof {
        lemma_token_end(bs, k as int);
        if k < bs.len() {
            assert(!is_continuation_byte(bs[k as int]));
        }
    }
    let (head, rest) = m.split_at(k);
    let tok = head.to_owned();
    proof {
        assert(decode_utf8(encode_utf8(head@)) == head@);
    }
    let arg: Option<String> = if k < b.len() {
        proof {
            let rb = rest.spec_bytes();
            assert(rb[0] == SPACE);
            reveal_with_fuel(is_char_boundary, 2);
        }
        let (_space, tail) = rest.split_at(1);
        proof {
            assert(tail.spec_bytes() =~= bs.subrange(k + 1, bs.len() as int));
            assert(decode_utf8(encode_utf8(tail@)) == tail@);
        }
        Some(tail.to_owned())
    } else {
        None
    };
    if tok == "/join".to_owned() {
        Command::Join(arg)
    } else if tok == "/name".to_owned() {
        Command::Name(arg)
    } else if tok == "/create".to_owned() {
        Command::Create
    } else if tok == "/ready".to_owned() {
        Command::Ready
    } else {
        Command::Unknown
    }
}

} // verus!
