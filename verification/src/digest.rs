//! The digest under which a password may be kept in a configuration.

use sha3::{Digest, Sha3_256};
use vstd::prelude::*;
use vstd::string::{StringExecFns, StringSliceAdditionalSpecFns};

verus! {

/// The SHA3-256 digest of `data`.
pub uninterp spec fn sha3_256_spec(data: Seq<u8>) -> Seq<u8>;

/// `sha3::Sha3_256::digest`: the SHA3-256 digest of `data`. The contract only
/// gives the digest a name.
#[verifier::external_body]
fn sha3_256(data: &[u8]) -> (digest: Vec<u8>)
    ensures
        digest@ == sha3_256_spec(data@),
{
    Sha3_256::digest(data).to_vec()
}

/// The digit that stands for `n` in lower-case hexadecimal.
pub open spec fn hex_digit_spec(n: int) -> char {
    if n == 0 {
        '0'
    } else if n == 1 {
        '1'
    } else if n == 2 {
        '2'
    } else if n == 3 {
        '3'
    } else if n == 4 {
        '4'
    } else if n == 5 {
        '5'
    } else if n == 6 {
        '6'
    } else if n == 7 {
        '7'
    } else if n == 8 {
        '8'
    } else if n == 9 {
        '9'
    } else if n == 10 {
        'a'
    } else if n == 11 {
        'b'
    } else if n == 12 {
        'c'
    } else if n == 13 {
        'd'
    } else if n == 14 {
        'e'
    } else {
        'f'
    }
}

/// `data` in lower-case hexadecimal: two digits for each byte, the high
/// half first.
pub open spec fn hex_spec(data: Seq<u8>) -> Seq<char> {
    Seq::new(
        2 * data.len(),
        |i: int|
            if i % 2 == 0 {
                hex_digit_spec(data[i / 2] as int / 16)
            } else {
                hex_digit_spec(data[i / 2] as int % 16)
            },
    )
}

/// The digit for `n`, as a string of one character.
fn hex_digit(n: u8) -> (digit: &'static str)
    requires
        n < 16,
    ensures
        digit@ == seq![hex_digit_spec(n as int)],
{
    proof {
        reveal_strlit("0");
        reveal_strlit("1");
        reveal_strlit("2");
        reveal_strlit("3");
        reveal_strlit("4");
        reveal_strlit("5");
        reveal_strlit("6");
        reveal_strlit("7");
        reveal_strlit("8");
        reveal_strlit("9");
        reveal_strlit("a");
        reveal_strlit("b");
        reveal_strlit("c");
        reveal_strlit("d");
        reveal_strlit("e");
        reveal_strlit("f");
    }
    let digit = match n {
        0 => "0",
        1 => "1",
        2 => "2",
        3 => "3",
        4 => "4",
        5 => "5",
        6 => "6",
        7 => "7",
        8 => "8",
        9 => "9",
        10 => "a",
        11 => "b",
        12 => "c",
        13 => "d",
        14 => "e",
        _ => "f",
    };
    assert(digit@ =~= seq![hex_digit_spec(n as int)]);
    digit
}

/// Writes `data` in lower-case hexadecimal.
pub fn to_hex(data: &[u8]) -> (text: String)
    ensures
        text@ == hex_spec(data@),
{
    let mut text = String::new();
    let mut i: usize = 0;
    assert(text@ =~= hex_spec(data@.take(0)));
    while i < data.len()
        invariant
            i <= data.len(),
            text@ == hex_spec(data@.take(i as int)),
        decreases data.len() - i,
    {
        let byte: u8 = data[i];
        let ghost before = text@;
        text.append(hex_digit(byte / 16));
        text.append(hex_digit(byte % 16));
        assert(text@ =~= hex_spec(data@.take(i + 1))) by {
            let next = hex_spec(data@.take(i + 1));
            assert(text@.len() == next.len());
            assert forall|k: int| 0 <= k < next.len() implies text@[k] == next[k] by {
                if k < 2 * i {
                    assert(text@[k] == before[k]);
                    assert(data@.take(i as int)[k / 2] == data@.take(i + 1)[k / 2]);
                } else {
                    assert(data@.take(i + 1)[k / 2] == byte);
                }
            }
        }
        i = i + 1;
    }
    assert(data@.take(i as int) =~= data@);
    text
}

/// The SHA3-256 digest of `pw`, in lower-case hexadecimal.
pub fn hash(pw: &str) -> (digest: String)
    ensures
        digest@ == hex_spec(sha3_256_spec(pw.spec_bytes())),
{
    let digest = sha3_256(pw.as_bytes());
    to_hex(digest.as_slice())
}

} // verus!
