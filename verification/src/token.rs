//! Api token generation: ten characters, consonants at even positions and
//! vowels at odd ones, so tokens stay pronounceable and low-collision.
use vstd::prelude::*;
use crate::text::chars_to_string;

verus! {

/// The consonant alphabet, by index.
pub open spec fn consonant(i: int) -> char {
    if i == 0 {
        'b'
    } else if i == 1 {
        'c'
    } else if i == 2 {
        'd'
    } else if i == 3 {
        'f'
    } else if i == 4 {
        'g'
    } else if i == 5 {
        'h'
    } else if i == 6 {
        'j'
    } else if i == 7 {
        'k'
    } else if i == 8 {
        'l'
    } else if i == 9 {
        'm'
    } else if i == 10 {
        'n'
    } else if i == 11 {
        'p'
    } else if i == 12 {
        'q'
    } else if i == 13 {
        'r'
    } else if i == 14 {
        's'
    } else if i == 15 {
        't'
    } else if i == 16 {
        'v'
    } else if i == 17 {
        'w'
    } else if i == 18 {
        'x'
    } else {
        'z'
    }
}

/// The vowel alphabet, by index.
pub open spec fn vowel(i: int) -> char {
    if i == 0 {
        'a'
    } else if i == 1 {
        'e'
    } else if i == 2 {
        'i'
    } else if i == 3 {
        'o'
    } else if i == 4 {
        'u'
    } else {
        'y'
    }
}

pub open spec fn is_consonant(c: char) -> bool {
    exists|i: int| 0 <= i < 20 && c == consonant(i)
}

pub open spec fn is_vowel(c: char) -> bool {
    exists|i: int| 0 <= i < 6 && c == vowel(i)
}

/// The length of every api token.
pub open spec fn token_len() -> int {
    10
}

/// The shape of every issued api token: fixed length, consonants at even
/// positions, vowels at odd ones.
pub open spec fn token_wf(t: Seq<char>) -> bool {
    &&& t.len() == token_len()
    &&& forall|i: int| 0 <= i < t.len() && i % 2 == 0 ==> is_consonant(#[trigger] t[i])
    &&& forall|i: int| 0 <= i < t.len() && i % 2 == 1 ==> is_vowel(#[trigger] t[i])
}

fn consonant_char(i: usize) -> (c: char)
    requires
        i < 20,
    ensures
        c == consonant(i as int),
        is_consonant(c),
{
    let c = match i {
        0 => 'b',
        1 => 'c',
        2 => 'd',
        3 => 'f',
        4 => 'g',
        5 => 'h',
        6 => 'j',
        7 => 'k',
        8 => 'l',
        9 => 'm',
        10 => 'n',
        11 => 'p',
        12 => 'q',
        13 => 'r',
        14 => 's',
        15 => 't',
        16 => 'v',
        17 => 'w',
        18 => 'x',
        _ => 'z',
    };
    assert(c == consonant(i as int));
    c
}

fn vowel_char(i: usize) -> (c: char)
    requires
        i < 6,
    ensures
        c == vowel(i as int),
        is_vowel(c),
{
    let c = match i {
        0 => 'a',
        1 => 'e',
        2 => 'i',
        3 => 'o',
        4 => 'u',
        _ => 'y',
    };
    assert(c == vowel(i as int));
    c
}

/// Relies on `rand::random_range`: a uniform sample over `0..bound` lies
/// within that range (the call panics only on an empty range).
#[verifier::external_body]
fn random_below(bound: usize) -> (r: usize)
    requires
        0 < bound,
    ensures
        r < bound,
{
    rand::random_range(0..bound)
}

/// Draws a fresh api token: ten random characters, alternating consonant
/// and vowel.
pub fn generate_api_token() -> (t: String)
    ensures
        token_wf(t@),
{
    let mut out: Vec<char> = Vec::new();
    let mut n: usize = 0;
    while n < 10
        invariant
            n <= 10,
            out@.len() == n,
            forall|i: int| 0 <= i < n && i % 2 == 0 ==> is_consonant(#[trigger] out@[i]),
            forall|i: int| 0 <= i < n && i % 2 == 1 ==> is_vowel(#[trigger] out@[i]),
        decreases 10 - n,
    {
        if n % 2 == 0 {
            let idx = random_below(20);
            out.push(consonant_char(idx));
        } else {
            let idx = random_below(6);
            out.push(vowel_char(idx));
        }
        n = n + 1;
    }
    chars_to_string(&out)
}

} // verus!
