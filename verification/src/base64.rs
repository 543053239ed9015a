//! Base64 text without padding, over the standard alphabet.
//!
//! Salt and digest stand in a hash record in this form. Only canonical text is
//! read back: the bits of the last character that carry no data must be zero.

use vstd::prelude::*;

verus! {

/// The character that stands for the six-bit value `v`.
pub open spec fn sextet_char(v: int) -> u8 {
    if v < 26 {
        (65 + v) as u8
    } else if v < 52 {
        (71 + v) as u8
    } else if v < 62 {
        (v - 4) as u8
    } else if v == 62 {
        43
    } else {
        47
    }
}

/// The six-bit value that the character `c` stands for, if it is in the alphabet.
pub open spec fn char_sextet(c: u8) -> Option<int> {
    if 65 <= c <= 90 {
        Some(c - 65)
    } else if 97 <= c <= 122 {
        Some(c - 71)
    } else if 48 <= c <= 57 {
        Some(c + 4)
    } else if c == 43 {
        Some(62)
    } else if c == 47 {
        Some(63)
    } else {
        None
    }
}

/// Whether `c` belongs to the alphabet: a letter, a digit, `+` or `/`.
pub open spec fn in_alphabet(c: u8) -> bool {
    char_sextet(c) is Some
}

/// The unpadded base64 text of `bytes`.
pub open spec fn base64(bytes: Seq<u8>) -> Seq<u8>
    decreases bytes.len(),
{
    if bytes.len() == 0 {
        Seq::<u8>::empty()
    } else if bytes.len() == 1 {
        seq![sextet_char((bytes[0] / 4) as int), sextet_char((bytes[0] % 4) * 16)]
    } else if bytes.len() == 2 {
        seq![
            sextet_char((bytes[0] / 4) as int),
            sextet_char((bytes[0] % 4) * 16 + bytes[1] / 16),
            sextet_char((bytes[1] % 16) * 4),
        ]
    } else {
        seq![
            sextet_char((bytes[0] / 4) as int),
            sextet_char((bytes[0] % 4) * 16 + bytes[1] / 16),
            sextet_char((bytes[1] % 16) * 4 + bytes[2] / 64),
            sextet_char((bytes[2] % 64) as int),
        ] + base64(bytes.skip(3))
    }
}

/// The bytes that canonical unpadded base64 `text` stands for, if it is such text.
pub open spec fn base64_decoded(text: Seq<u8>) -> Option<Seq<u8>>
    decreases text.len(),
{
    if text.len() == 0 {
        Some(Seq::<u8>::empty())
    } else if text.len() == 1 {
        None
    } else if text.len() == 2 {
        match (char_sextet(text[0]), char_sextet(text[1])) {
            (Some(a), Some(b)) => if b % 16 == 0 {
                Some(seq![(a * 4 + b / 16) as u8])
            } else {
                None
            },
            _ => None,
        }
    } else if text.len() == 3 {
        match (char_sextet(text[0]), char_sextet(text[1]), char_sextet(text[2])) {
            (Some(a), Some(b), Some(c)) => if c % 4 == 0 {
                Some(seq![(a * 4 + b / 16) as u8, ((b % 16) * 16 + c / 4) as u8])
            } else {
                None
            },
            _ => None,
        }
    } else {
        match (
            char_sextet(text[0]),
            char_sextet(text[1]),
            char_sextet(text[2]),
            char_sextet(text[3]),
            base64_decoded(text.skip(4)),
        ) {
            (Some(a), Some(b), Some(c), Some(d), Some(rest)) => Some(
                seq![
                    (a * 4 + b / 16) as u8,
                    ((b % 16) * 16 + c / 4) as u8,
                    ((c % 4) * 64 + d) as u8,
                ] + rest,
            ),
            _ => None,
        }
    }
}

/// Each six-bit value and its character stand for one another.
pub proof fn lemma_sextet_round_trip(v: int)
    requires
        0 <= v < 64,
    ensures
        char_sextet(sextet_char(v)) == Some(v),
{
}

/// A character of the alphabet is the character of its own value.
pub proof fn lemma_char_round_trip(c: u8)
    requires
        in_alphabet(c),
    ensures
        0 <= char_sextet(c).unwrap() < 64,
        sextet_char(char_sextet(c).unwrap()) == c,
{
}

/// Base64 text holds characters of the alphabet only.
pub proof fn lemma_base64_alphabet(bytes: Seq<u8>)
    ensures
        forall|i: int| 0 <= i < base64(bytes).len() ==> in_alphabet(#[trigger] base64(bytes)[i]),
    decreases bytes.len(),
{
    let text = base64(bytes);
    if bytes.len() >= 3 {
        lemma_base64_alphabet(bytes.skip(3));
        let tail = base64(bytes.skip(3));
        assert forall|i: int| 0 <= i < text.len() implies in_alphabet(#[trigger] text[i]) by {
            if i >= 4 {
                assert(text[i] == tail[i - 4]);
            }
        }
    }
}

/// Reading back the base64 text of some bytes gives those bytes.
pub proof fn lemma_decode_of_encode(bytes: Seq<u8>)
    ensures
        base64_decoded(base64(bytes)) == Some(bytes),
    decreases bytes.len(),
{
    let text = base64(bytes);
    if bytes.len() == 0 {
        assert(bytes =~= Seq::<u8>::empty());
    } else if bytes.len() == 1 {
        let x = bytes[0] as int;
        lemma_sextet_round_trip(x / 4);
        lemma_sextet_round_trip((x % 4) * 16);
        assert(seq![((x / 4) * 4 + ((x % 4) * 16) / 16) as u8] =~= bytes);
    } else if bytes.len() == 2 {
        let x = bytes[0] as int;
        let y = bytes[1] as int;
        lemma_sextet_round_trip(x / 4);
        lemma_sextet_round_trip((x % 4) * 16 + y / 16);
        lemma_sextet_round_trip((y % 16) * 4);
        let b = (x % 4) * 16 + y / 16;
        let c = (y % 16) * 4;
        assert(b / 16 == x % 4);
        assert(b % 16 == y / 16);
        assert(seq![((x / 4) * 4 + b / 16) as u8, ((b % 16) * 16 + c / 4) as u8] =~= bytes);
    } else {
        let x = bytes[0] as int;
        let y = bytes[1] as int;
        let z = bytes[2] as int;
        let a = x / 4;
        let b = (x % 4) * 16 + y / 16;
        let c = (y % 16) * 4 + z / 64;
        let d = z % 64;
        lemma_sextet_round_trip(a);
        lemma_sextet_round_trip(b);
        lemma_sextet_round_trip(c);
        lemma_sextet_round_trip(d);
        lemma_decode_of_encode(bytes.skip(3));
        assert(text.skip(4) =~= base64(bytes.skip(3)));
        assert(b / 16 == x % 4);
        assert(b % 16 == y / 16);
        assert(c / 4 == y % 16);
        assert(c % 4 == z / 64);
        assert(seq![
            (a * 4 + b / 16) as u8,
            ((b % 16) * 16 + c / 4) as u8,
            ((c % 4) * 64 + d) as u8,
        ] + bytes.skip(3) =~= bytes);
    }
}

/// Text that reads back as some bytes is the base64 text of those bytes.
pub proof fn lemma_encode_of_decode(text: Seq<u8>)
    requires
        base64_decoded(text) is Some,
    ensures
        base64(base64_decoded(text).unwrap()) == text,
    decreases text.len(),
{
    let bytes = base64_decoded(text).unwrap();
    if text.len() == 0 {
        assert(base64(bytes) =~= text);
    } else if text.len() == 2 {
        lemma_char_round_trip(text[0]);
        lemma_char_round_trip(text[1]);
        let a = char_sextet(text[0]).unwrap();
        let b = char_sextet(text[1]).unwrap();
        let x = a * 4 + b / 16;
        assert(bytes[0] == x);
        assert(x / 4 == a);
        assert((x % 4) * 16 == b);
        assert(base64(bytes) =~= text);
    } else if text.len() == 3 {
        lemma_char_round_trip(text[0]);
        lemma_char_round_trip(text[1]);
        lemma_char_round_trip(text[2]);
        let a = char_sextet(text[0]).unwrap();
        let b = char_sextet(text[1]).unwrap();
        let c = char_sextet(text[2]).unwrap();
        let x = a * 4 + b / 16;
        let y = (b % 16) * 16 + c / 4;
        assert(bytes[0] == x);
        assert(bytes[1] == y);
        assert(x / 4 == a);
        assert((x % 4) * 16 + y / 16 == b);
        assert((y % 16) * 4 == c);
        assert(base64(bytes) =~= text);
    } else {
        lemma_char_round_trip(text[0]);
        lemma_char_round_trip(text[1]);
        lemma_char_round_trip(text[2]);
        lemma_char_round_trip(text[3]);
        let a = char_sextet(text[0]).unwrap();
        let b = char_sextet(text[1]).unwrap();
        let c = char_sextet(text[2]).unwrap();
        let d = char_sextet(text[3]).unwrap();
        let rest = base64_decoded(text.skip(4)).unwrap();
        lemma_encode_of_decode(text.skip(4));
        let x = a * 4 + b / 16;
        let y = (b % 16) * 16 + c / 4;
        let z = (c % 4) * 64 + d;
        assert(bytes[0] == x);
        assert(bytes[1] == y);
        assert(bytes[2] == z);
        assert(bytes.skip(3) =~= rest);
        assert(x / 4 == a);
        assert((x % 4) * 16 + y / 16 == b);
        assert((y % 16) * 4 + z / 64 == c);
        assert(z % 64 == d);
        assert(base64(bytes) =~= text);
    }
}

/// Different bytes have different base64 text.
pub proof fn lemma_base64_injective(a: Seq<u8>, b: Seq<u8>)
    requires
        base64(a) == base64(b),
    ensures
        a == b,
{
    lemma_decode_of_encode(a);
    lemma_decode_of_encode(b);
}

/// The character for a six-bit value.
fn encode_sextet(v: u8) -> (c: u8)
    requires
        v < 64,
    ensures
        c == sextet_char(v as int),
{
    if v < 26 {
        65 + v
    } else if v < 52 {
        71 + v
    } else if v < 62 {
        v - 4
    } else if v == 62 {
        43
    } else {
        47
    }
}

/// The six-bit value of a character, if the alphabet has it.
fn decode_sextet(c: u8) -> (r: Option<u8>)
    ensures
        match r {
            Some(v) => char_sextet(c) == Some(v as int) && v < 64,
            None => char_sextet(c) is None,
        },
{
    if 65 <= c && c <= 90 {
        Some(c - 65)
    } else if 97 <= c && c <= 122 {
        Some(c - 71)
    } else if 48 <= c && c <= 57 {
        Some(c + 4)
    } else if c == 43 {
        Some(62)
    } else if c == 47 {
        Some(63)
    } else {
        None
    }
}

/// Appends the unpadded base64 text of `bytes` to `out`.
pub fn push_base64(out: &mut Vec<u8>, bytes: &[u8])
    ensures
        final(out)@ == old(out)@ + base64(bytes@),
{
    let len = bytes.len();
    let mut i: usize = 0;
    assert(bytes@.skip(0) =~= bytes@);
    while len - i >= 3
        invariant
            len == bytes@.len(),
            0 <= i <= len,
            out@ + base64(bytes@.skip(i as int)) == old(out)@ + base64(bytes@),
        decreases len - i,
    {
        let x = bytes[i];
        let y = bytes[i + 1];
        let z = bytes[i + 2];
        let ghost before = out@;
        out.push(encode_sextet(x / 4));
        out.push(encode_sextet((x % 4) * 16 + y / 16));
        out.push(encode_sextet((y % 16) * 4 + z / 64));
        out.push(encode_sextet(z % 64));
        proof {
            let rest = bytes@.skip(i as int);
            assert(rest.skip(3) =~= bytes@.skip(i + 3));
            assert(out@ + base64(rest.skip(3)) =~= before + base64(rest));
        }
        i = i + 3;
    }
    let ghost before = out@;
    let ghost rest = bytes@.skip(i as int);
    if len - i == 1 {
        let x = bytes[i];
        out.push(encode_sextet(x / 4));
        out.push(encode_sextet((x % 4) * 16));
        assert(out@ =~= before + base64(rest));
    } else if len - i == 2 {
        let x = bytes[i];
        let y = bytes[i + 1];
        out.push(encode_sextet(x / 4));
        out.push(encode_sextet((x % 4) * 16 + y / 16));
        out.push(encode_sextet((y % 16) * 4));
        assert(out@ =~= before + base64(rest));
    } else {
        assert(out@ =~= before + base64(rest));
    }
}

/// Reads bytes back from unpadded base64 text.
///
/// Only the text that `push_base64` writes is accepted.
pub fn decode_base64(text: &[u8]) -> (r: Option<Vec<u8>>)
    ensures
        match r {
            Some(bytes) => base64(bytes@) == text@,
            None => forall|bytes: Seq<u8>| #[trigger] base64(bytes) != text@,
        },
        r matches Some(bytes) ==> base64_decoded(text@) == Some(bytes@),
        r is None ==> base64_decoded(text@) is None,
{
    let r = decode_groups(text);
    proof {
        if r is Some {
            lemma_encode_of_decode(text@);
        } else {
            assert forall|bytes: Seq<u8>| #[trigger] base64(bytes) != text@ by {
                lemma_decode_of_encode(bytes);
            }
        }
    }
    r
}

/// What reading `text` gives, once what reading its part from `i` on gives is
/// put behind the bytes `done` read so far.
spec fn continued(done: Seq<u8>, text: Seq<u8>, i: int) -> Option<Seq<u8>> {
    match base64_decoded(text.skip(i)) {
        Some(rest) => Some(done + rest),
        None => None,
    }
}

fn decode_groups(text: &[u8]) -> (r: Option<Vec<u8>>)
    ensures
        match r {
            Some(bytes) => base64_decoded(text@) == Some(bytes@),
            None => base64_decoded(text@) is None,
        },
{
    let len = text.len();
    let mut out: Vec<u8> = Vec::new();
    let mut i: usize = 0;
    proof {
        assert(text@.skip(0) =~= text@);
        match base64_decoded(text@) {
            Some(all) => {
                assert(out@ + all =~= all);
            },
            None => {},
        }
    }
    while len - i >= 4
        invariant
            len == text@.len(),
            0 <= i <= len,
            base64_decoded(text@) == continued(out@, text@, i as int),
        decreases len - i,
    {
        let ghost rest = text@.skip(i as int);
        let ghost before = out@;
        proof {
            assert(rest.skip(4) =~= text@.skip(i + 4));
        }
        let a = match decode_sextet(text[i]) {
            Some(v) => v,
            None => {
                return None;
            },
        };
        let b = match decode_sextet(text[i + 1]) {
            Some(v) => v,
            None => {
                return None;
            },
        };
        let c = match decode_sextet(text[i + 2]) {
            Some(v) => v,
            None => {
                return None;
            },
        };
        let d = match decode_sextet(text[i + 3]) {
            Some(v) => v,
            None => {
                return None;
            },
        };
        out.push(a * 4 + b / 16);
        out.push((b % 16) * 16 + c / 4);
        out.push((c % 4) * 64 + d);
        proof {
            match base64_decoded(rest.skip(4)) {
                Some(tail) => {
                    let group = seq![
                        (a * 4 + b / 16) as u8,
                        ((b % 16) * 16 + c / 4) as u8,
                        ((c % 4) * 64 + d) as u8,
                    ];
                    assert(before + (group + tail) =~= out@ + tail);
                },
                None => {},
            }
        }
        i = i + 4;
    }
    let ghost rest = text@.skip(i as int);
    let ghost before = out@;
    if len - i == 0 {
        assert(before + Seq::<u8>::empty() =~= before);
        Some(out)
    } else if len - i == 1 {
        None
    } else if len - i == 2 {
        let a = match decode_sextet(text[i]) {
            Some(v) => v,
            None => {
                return None;
            },
        };
        let b = match decode_sextet(text[i + 1]) {
            Some(v) => v,
            None => {
                return None;
            },
        };
        if b % 16 != 0 {
            return None;
        }
        out.push(a * 4 + b / 16);
        assert(before + seq![(a * 4 + b / 16) as u8] =~= out@);
        Some(out)
    } else {
        let a = match decode_sextet(text[i]) {
            Some(v) => v,
            None => {
                return None;
            },
        };
        let b = match decode_sextet(text[i + 1]) {
            Some(v) => v,
            None => {
                return None;
            },
        };
        let c = match decode_sextet(text[i + 2]) {
            Some(v) => v,
            None => {
                return None;
            },
        };
        if c % 4 != 0 {
            return None;
        }
        out.push(a * 4 + b / 16);
        out.push((b % 16) * 16 + c / 4);
        assert(before + seq![(a * 4 + b / 16) as u8, ((b % 16) * 16 + c / 4) as u8] =~= out@);
        Some(out)
    }
}

} // verus!
