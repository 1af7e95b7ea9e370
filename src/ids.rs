//! Session identities and room codes.

use rand::Rng;
use vstd::prelude::*;

use crate::GameId;

verus! {

/// Number of characters in a room code.
pub const GAME_ID_LEN: usize = 6;

/// How many random candidates are drawn before giving up on a fresh value.
pub const MAX_ATTEMPTS: usize = 64;

/// A byte of the alphabet that room codes are drawn from, before lowering.
pub open spec fn is_alphanumeric_byte(b: u8) -> bool {
    (65 <= b && b <= 90) || (97 <= b && b <= 122) || (48 <= b && b <= 57)
}

/// A character that may stand in a room code: a lowercase ASCII letter or a digit.
pub open spec fn is_code_char(c: char) -> bool {
    ('a' <= c && c <= 'z') || ('0' <= c && c <= '9')
}

/// A well-formed room code: `GAME_ID_LEN` lowercase alphanumeric characters.
pub open spec fn is_game_code(s: Seq<char>) -> bool {
    &&& s.len() == GAME_ID_LEN
    &&& forall|i: int| 0 <= i < s.len() ==> is_code_char(#[trigger] s[i])
}

/// The room codes held by a list, as character sequences.
pub open spec fn codes_of(v: Seq<String>) -> Seq<Seq<char>> {
    v.map_values(|s: String| s@)
}

/// Relies on rand::random: a value drawn from the thread-local generator.
/// Nothing is promised of which value comes back.
#[verifier::external_body]
pub(crate) fn random_usize() -> usize {
    rand::random::<usize>()
}

/// Relies on rand's `Alphanumeric` distribution, sampled `n` times through
/// `thread_rng`: each byte is one of `A-Z`, `a-z`, `0-9`.
#[verifier::external_body]
fn sample_alphanumeric(n: usize) -> (r: Vec<u8>)
    ensures
        r@.len() == n,
        forall|i: int| 0 <= i < n ==> is_alphanumeric_byte(#[trigger] r@[i]),
{
    rand::thread_rng().sample_iter(rand::distributions::Alphanumeric).take(n).collect()
}

/// Relies on String::from_utf8: ASCII bytes are valid UTF-8, and each becomes
/// the character of the same code.
#[verifier::external_body]
fn ascii_to_string(b: Vec<u8>) -> (r: String)
    requires
        forall|i: int| 0 <= i < b@.len() ==> #[trigger] b@[i] < 128,
    ensures
        r@ == b@.map_values(|x: u8| x as char),
{
    match String::from_utf8(b) {
        Ok(s) => s,
        Err(_) => String::new(),
    }
}

/// A byte with an ASCII capital letter lowered; any other byte as it is.
pub open spec fn lower_byte(b: u8) -> u8 {
    if 65 <= b && b <= 90 {
        (b + 32) as u8
    } else {
        b
    }
}

/// No code in the list is a well-formed room code, so no drawn code can
/// collide with one of them.
pub open spec fn holds_no_game_code(codes: Seq<Seq<char>>) -> bool {
    forall|i: int| 0 <= i < codes.len() ==> !is_game_code(#[trigger] codes[i])
}

/// Lowers an ASCII capital letter; leaves any other byte as it is.
pub fn lower_ascii(b: u8) -> (r: u8)
    ensures
        r == lower_byte(b),
        is_alphanumeric_byte(b) ==> is_code_char(r as char),
{
    if 65 <= b && b <= 90 {
        b + 32
    } else {
        b
    }
}

/// The room code spelled by the drawn bytes `raw`, each lowered.
pub fn lower_code(raw: Vec<u8>) -> (r: String)
    requires
        forall|i: int| 0 <= i < raw@.len() ==> is_alphanumeric_byte(#[trigger] raw@[i]),
    ensures
        r@ == raw@.map_values(|b: u8| lower_byte(b) as char),
{
    let mut low: Vec<u8> = Vec::new();
    let mut i: usize = 0;
    while i < raw.len()
        invariant
            forall|j: int| 0 <= j < raw@.len() ==> is_alphanumeric_byte(#[trigger] raw@[j]),
            i <= raw@.len(),
            low@ == raw@.take(i as int).map_values(|b: u8| lower_byte(b)),
        decreases raw@.len() - i,
    {
        low.push(lower_ascii(raw[i]));
        assert(raw@.take(i + 1).map_values(|b: u8| lower_byte(b)) =~= raw@.take(
            i as int,
        ).map_values(|b: u8| lower_byte(b)).push(lower_byte(raw@[i as int])));
        i = i + 1;
    }
    assert(raw@.take(i as int) =~= raw@);
    assert forall|j: int| 0 <= j < low@.len() implies #[trigger] low@[j] < 128 by {
        assert(is_alphanumeric_byte(raw@[j]));
    }
    let r = ascii_to_string(low);
    assert(r@ =~= raw@.map_values(|b: u8| lower_byte(b) as char));
    r
}

/// Draws a random room code.
pub fn gen_game_id() -> (r: String)
    ensures
        is_game_code(r@),
{
    let r = lower_code(sample_alphanumeric(GAME_ID_LEN));
    assert forall|j: int| 0 <= j < r@.len() implies is_code_char(#[trigger] r@[j]) by {}
    r
}

/// Whether `candidate` is one of the codes in `existing`.
pub fn is_taken(existing: &Vec<GameId>, candidate: &GameId) -> (r: bool)
    ensures
        r == codes_of(existing@).contains(candidate@),
{
    let mut i: usize = 0;
    while i < existing.len()
        invariant
            i <= existing@.len(),
            forall|j: int| 0 <= j < i ==> codes_of(existing@)[j] != candidate@,
        decreases existing@.len() - i,
    {
        if existing[i] == *candidate {
            assert(codes_of(existing@)[i as int] == candidate@);
            return true;
        }
        i = i + 1;
    }
    proof {
        if codes_of(existing@).contains(candidate@) {
            let j = codes_of(existing@).index_of(candidate@);
            assert(codes_of(existing@)[j] == candidate@);
        }
    }
    false
}

/// Draws room codes until one is not among `existing`, at most
/// `MAX_ATTEMPTS` times; `None` when every draw collided, which cannot
/// happen when `existing` holds no well-formed code (an empty list, say).
pub fn fresh_game_id(existing: &Vec<GameId>) -> (r: Option<GameId>)
    ensures
        r matches Some(c) ==> is_game_code(c@) && !codes_of(existing@).contains(c@),
        holds_no_game_code(codes_of(existing@)) ==> r is Some,
{
    let mut attempt: usize = 0;
    while attempt < MAX_ATTEMPTS
        invariant
            attempt > 0 ==> !holds_no_game_code(codes_of(existing@)),
        decreases MAX_ATTEMPTS - attempt,
    {
        let candidate = gen_game_id();
        if !is_taken(existing, &candidate) {
            return Some(candidate);
        }
        proof {
            let j = codes_of(existing@).index_of(candidate@);
            assert(codes_of(existing@)[j] == candidate@);
        }
        attempt = attempt + 1;
    }
    None
}

} // verus!
