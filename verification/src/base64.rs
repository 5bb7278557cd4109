//! Base64 with the standard alphabet and mandatory padding.
//!
//! The format is defined by [`encode`]; [`decode`] is proved to be its
//! inverse: it returns the one byte sequence whose encoding is the text it was
//! given, and refuses every text that is the encoding of nothing.

use vstd::prelude::*;

verus! {

/// The padding symbol, `=`.
pub const PAD: u8 = 61;

/// The symbol that stands for the six-bit value `v`: `A` to `Z`, `a` to `z`,
/// `0` to `9`, `+` and `/`, in this order.
pub open spec fn symbol(v: u8) -> u8 {
    if v < 26 {
        (v + 65) as u8
    } else if v < 52 {
        (v + 71) as u8
    } else if v < 62 {
        (v - 4) as u8
    } else if v == 62 {
        43u8
    } else {
        47u8
    }
}

/// `c` is one of the sixty-four symbols of the alphabet.
pub open spec fn is_symbol(c: u8) -> bool {
    ||| 65 <= c <= 90
    ||| 97 <= c <= 122
    ||| 48 <= c <= 57
    ||| c == 43
    ||| c == 47
}

/// The six-bit value that the symbol `c` stands for.
pub open spec fn value_of(c: u8) -> u8 {
    if 65 <= c <= 90 {
        (c - 65) as u8
    } else if 97 <= c <= 122 {
        (c - 71) as u8
    } else if 48 <= c <= 57 {
        (c + 4) as u8
    } else if c == 43 {
        62u8
    } else {
        63u8
    }
}

/// Length of the encoding of `n` bytes: four symbols for every three bytes,
/// the last group filled up.
pub open spec fn encoded_len(n: nat) -> nat {
    4 * ((n + 2) / 3)
}

/// The byte at `i`, or zero past the end.
pub open spec fn byte_or_zero(bytes: Seq<u8>, i: int) -> u8 {
    if 0 <= i < bytes.len() {
        bytes[i]
    } else {
        0u8
    }
}

/// The symbol at position `k` of the encoding of `bytes`. Group `k / 4` of
/// the text spells bytes `3 * (k / 4)` and the two that follow, six bits to a
/// symbol, most significant bits first; where bytes are missing, their bits
/// count as zero and the symbols that would hold nothing else are padding.
pub open spec fn encoded_symbol(bytes: Seq<u8>, k: int) -> u8 {
    let g = k / 4;
    let b0 = byte_or_zero(bytes, 3 * g);
    let b1 = byte_or_zero(bytes, 3 * g + 1);
    let b2 = byte_or_zero(bytes, 3 * g + 2);
    if k % 4 == 0 {
        symbol(b0 >> 2)
    } else if k % 4 == 1 {
        symbol(((b0 & 3) << 4) | (b1 >> 4))
    } else if k % 4 == 2 {
        if 3 * g + 1 < bytes.len() {
            symbol(((b1 & 15) << 2) | (b2 >> 6))
        } else {
            PAD
        }
    } else {
        if 3 * g + 2 < bytes.len() {
            symbol(b2 & 63)
        } else {
            PAD
        }
    }
}

/// The base64 text of `bytes`.
pub open spec fn encode(bytes: Seq<u8>) -> Seq<u8> {
    Seq::new(encoded_len(bytes.len()), |k: int| encoded_symbol(bytes, k))
}

/// Number of padding symbols at the end of `text`.
pub open spec fn padding(text: Seq<u8>) -> nat {
    let n = text.len() as int;
    if n >= 4 && text[n - 1] == PAD {
        if text[n - 2] == PAD {
            2
        } else {
            1
        }
    } else {
        0
    }
}

/// `text` has the shape of an encoding: whole groups of four, symbols of the
/// alphabet up to the padding, and no bit set that no byte accounts for.
pub open spec fn well_formed(text: Seq<u8>) -> bool {
    let n = text.len() as int;
    let p = padding(text);
    &&& n % 4 == 0
    &&& forall|k: int| 0 <= k < n - p ==> is_symbol(#[trigger] text[k])
    &&& p == 2 ==> value_of(text[n - 3]) & 15 == 0
    &&& p == 1 ==> value_of(text[n - 2]) & 3 == 0
}

/// Number of bytes that `text` spells.
pub open spec fn decoded_len(text: Seq<u8>) -> nat {
    (3 * (text.len() / 4) - padding(text)) as nat
}

/// Byte `i` of what `text` spells.
pub open spec fn decoded_byte(text: Seq<u8>, i: int) -> u8 {
    let g = i / 3;
    let s0 = value_of(text[4 * g]);
    let s1 = value_of(text[4 * g + 1]);
    let s2 = value_of(text[4 * g + 2]);
    let s3 = value_of(text[4 * g + 3]);
    if i % 3 == 0 {
        (s0 << 2) | (s1 >> 4)
    } else if i % 3 == 1 {
        ((s1 & 15) << 4) | (s2 >> 2)
    } else {
        ((s2 & 3) << 6) | s3
    }
}

/// The bytes that a well-formed `text` spells.
pub open spec fn decoded(text: Seq<u8>) -> Seq<u8> {
    Seq::new(decoded_len(text), |i: int| decoded_byte(text, i))
}

/// Cutting three bytes into four six-bit values loses nothing.
proof fn lemma_split(b0: u8, b1: u8, b2: u8)
    ensures
        b0 >> 2 < 64,
        ((b0 & 3) << 4) | (b1 >> 4) < 64,
        ((b1 & 15) << 2) | (b2 >> 6) < 64,
        b2 & 63 < 64,
        ((b0 >> 2) << 2) | ((((b0 & 3) << 4) | (b1 >> 4)) >> 4) == b0,
        (((((b0 & 3) << 4) | (b1 >> 4)) & 15) << 4) | ((((b1 & 15) << 2) | (b2 >> 6)) >> 2) == b1,
        (((((b1 & 15) << 2) | (b2 >> 6)) & 3) << 6) | (b2 & 63) == b2,
        b1 == 0 ==> (((b0 & 3) << 4) | (b1 >> 4)) & 15 == 0,
        b2 == 0 ==> (((b1 & 15) << 2) | (b2 >> 6)) & 3 == 0,
{
    assert(b0 >> 2 < 64 && ((b0 & 3) << 4) | (b1 >> 4) < 64 && ((b1 & 15) << 2) | (b2 >> 6) < 64
        && b2 & 63 < 64) by (bit_vector);
    assert(((b0 >> 2) << 2) | ((((b0 & 3) << 4) | (b1 >> 4)) >> 4) == b0) by (bit_vector);
    assert((((((b0 & 3) << 4) | (b1 >> 4)) & 15) << 4) | ((((b1 & 15) << 2) | (b2 >> 6)) >> 2)
        == b1) by (bit_vector);
    assert((((((b1 & 15) << 2) | (b2 >> 6)) & 3) << 6) | (b2 & 63) == b2) by (bit_vector);
    assert(b1 == 0 ==> (((b0 & 3) << 4) | (b1 >> 4)) & 15 == 0) by (bit_vector);
    assert(b2 == 0 ==> (((b1 & 15) << 2) | (b2 >> 6)) & 3 == 0) by (bit_vector);
}

/// Putting four six-bit values together into three bytes loses nothing.
proof fn lemma_join(s0: u8, s1: u8, s2: u8, s3: u8)
    requires
        s0 < 64,
        s1 < 64,
        s2 < 64,
        s3 < 64,
    ensures
        ((s0 << 2) | (s1 >> 4)) >> 2 == s0,
        ((((s0 << 2) | (s1 >> 4)) & 3) << 4) | ((((s1 & 15) << 4) | (s2 >> 2)) >> 4) == s1,
        (((((s1 & 15) << 4) | (s2 >> 2)) & 15) << 2) | ((((s2 & 3) << 6) | s3) >> 6) == s2,
        (((s2 & 3) << 6) | s3) & 63 == s3,
        s1 & 15 == 0 ==> ((((s0 << 2) | (s1 >> 4)) & 3) << 4) | (0u8 >> 4) == s1,
        s2 & 3 == 0 ==> (((((s1 & 15) << 4) | (s2 >> 2)) & 15) << 2) | (0u8 >> 6) == s2,
{
    assert(s0 < 64 && s1 < 64 ==> ((s0 << 2) | (s1 >> 4)) >> 2 == s0) by (bit_vector);
    assert(s0 < 64 && s1 < 64 && s2 < 64 ==> ((((s0 << 2) | (s1 >> 4)) & 3) << 4) | ((((s1 & 15)
        << 4) | (s2 >> 2)) >> 4) == s1) by (bit_vector);
    assert(s1 < 64 && s2 < 64 && s3 < 64 ==> (((((s1 & 15) << 4) | (s2 >> 2)) & 15) << 2) | ((((s2
        & 3) << 6) | s3) >> 6) == s2) by (bit_vector);
    assert(s2 < 64 && s3 < 64 ==> (((s2 & 3) << 6) | s3) & 63 == s3) by (bit_vector);
    assert(s0 < 64 && s1 < 64 && s1 & 15 == 0 ==> ((((s0 << 2) | (s1 >> 4)) & 3) << 4) | (0u8
        >> 4) == s1) by (bit_vector);
    assert(s1 < 64 && s2 < 64 && s2 & 3 == 0 ==> (((((s1 & 15) << 4) | (s2 >> 2)) & 15) << 2) | (
    0u8 >> 6) == s2) by (bit_vector);
}

/// The alphabet and the six-bit values correspond one to one, and padding is
/// no symbol of the alphabet.
proof fn lemma_alphabet()
    ensures
        forall|v: u8| v < 64 ==> is_symbol(#[trigger] symbol(v)) && value_of(symbol(v)) == v,
        forall|c: u8| is_symbol(c) ==> #[trigger] value_of(c) < 64 && symbol(value_of(c)) == c,
        !is_symbol(PAD),
{
}

/// A well-formed text is the encoding of the bytes that it spells.
pub proof fn lemma_encode_decoded(text: Seq<u8>)
    requires
        well_formed(text),
    ensures
        encode(decoded(text)) == text,
{
    lemma_alphabet();
    let d = decoded(text);
    let n = text.len() as int;
    let q = n / 4;
    let p = padding(text) as int;
    let m = d.len() as int;
    assert(m == 3 * q - p);
    assert(encoded_len(d.len()) == n);
    assert forall|k: int| 0 <= k < n implies encoded_symbol(d, k) == text[k] by {
        let g = k / 4;
        let s0 = value_of(text[4 * g]);
        let s1 = value_of(text[4 * g + 1]);
        let s2 = value_of(text[4 * g + 2]);
        let s3 = value_of(text[4 * g + 3]);
        assert(is_symbol(text[4 * g]));
        assert(is_symbol(text[4 * g + 1]));
        assert(d[3 * g] == decoded_byte(text, 3 * g));
        if 3 * g + 2 < m {
            assert(is_symbol(text[4 * g + 2]));
            assert(is_symbol(text[4 * g + 3]));
            assert(d[3 * g + 1] == decoded_byte(text, 3 * g + 1));
            assert(d[3 * g + 2] == decoded_byte(text, 3 * g + 2));
            lemma_join(s0, s1, s2, s3);
        } else if 3 * g + 1 < m {
            assert(is_symbol(text[4 * g + 2]));
            assert(d[3 * g + 1] == decoded_byte(text, 3 * g + 1));
            lemma_join(s0, s1, s2, 0);
        } else {
            lemma_join(s0, s1, 0, 0);
        }
    }
    assert(encode(d) =~= text);
}

/// Every encoding is well formed and spells the bytes that were encoded.
pub proof fn lemma_decoded_encode(bytes: Seq<u8>)
    ensures
        well_formed(encode(bytes)),
        decoded(encode(bytes)) == bytes,
{
    lemma_alphabet();
    let e = encode(bytes);
    let len = bytes.len() as int;
    let q = (len + 2) / 3;
    let n = e.len() as int;
    assert(n == 4 * q);
    assert forall|g: int| 0 <= g < q implies {
        &&& is_symbol(#[trigger] e[4 * g]) && value_of(e[4 * g]) == byte_or_zero(bytes, 3 * g) >> 2
        &&& is_symbol(e[4 * g + 1]) && value_of(e[4 * g + 1]) == ((byte_or_zero(bytes, 3 * g) & 3)
            << 4) | (byte_or_zero(bytes, 3 * g + 1) >> 4)
        &&& 3 * g + 1 < len ==> is_symbol(e[4 * g + 2]) && value_of(e[4 * g + 2]) == ((
        byte_or_zero(bytes, 3 * g + 1) & 15) << 2) | (byte_or_zero(bytes, 3 * g + 2) >> 6)
        &&& 3 * g + 1 >= len ==> e[4 * g + 2] == PAD && value_of(e[4 * g + 1]) & 15 == 0
        &&& 3 * g + 2 < len ==> is_symbol(e[4 * g + 3]) && value_of(e[4 * g + 3]) == byte_or_zero(
            bytes,
            3 * g + 2,
        ) & 63
        &&& 3 * g + 2 >= len ==> e[4 * g + 3] == PAD && (3 * g + 1 < len ==> value_of(e[4 * g + 2])
            & 3 == 0)
    } by {
        lemma_split(
            byte_or_zero(bytes, 3 * g),
            byte_or_zero(bytes, 3 * g + 1),
            byte_or_zero(bytes, 3 * g + 2),
        );
        assert(e[4 * g] == encoded_symbol(bytes, 4 * g));
        assert(e[4 * g + 1] == encoded_symbol(bytes, 4 * g + 1));
        assert(e[4 * g + 2] == encoded_symbol(bytes, 4 * g + 2));
        assert(e[4 * g + 3] == encoded_symbol(bytes, 4 * g + 3));
    }
    let p = 3 * q - len;
    if q > 0 {
        assert(is_symbol(e[4 * (q - 1)]));
    }
    assert(padding(e) == p);
    assert forall|k: int| 0 <= k < n - p implies is_symbol(#[trigger] e[k]) by {
        let g = k / 4;
        assert(is_symbol(e[4 * g]));
    }
    assert(well_formed(e));
    assert(decoded_len(e) == len);
    assert forall|i: int| 0 <= i < len implies decoded_byte(e, i) == bytes[i] by {
        let g = i / 3;
        assert(is_symbol(e[4 * g]));
        lemma_split(
            byte_or_zero(bytes, 3 * g),
            byte_or_zero(bytes, 3 * g + 1),
            byte_or_zero(bytes, 3 * g + 2),
        );
    }
    assert(decoded(e) =~= bytes);
}

/// Two byte sequences with the same encoding are the same.
pub proof fn encoding_is_injective(a: Seq<u8>, b: Seq<u8>)
    requires
        encode(a) == encode(b),
    ensures
        a == b,
{
    lemma_decoded_encode(a);
    lemma_decoded_encode(b);
}

/// The six-bit value of `c`, where `c` is a symbol of the alphabet.
fn sextet(c: u8) -> (v: Option<u8>)
    ensures
        match v {
            Some(s) => is_symbol(c) && s == value_of(c) && s < 64,
            None => !is_symbol(c),
        },
{
    if c >= 65 && c <= 90 {
        Some(c - 65)
    } else if c >= 97 && c <= 122 {
        Some(c - 71)
    } else if c >= 48 && c <= 57 {
        Some(c + 4)
    } else if c == 43 {
        Some(62)
    } else if c == 47 {
        Some(63)
    } else {
        None
    }
}

/// Decodes `text` where it is well formed.
fn decode_well_formed(text: &[u8]) -> (result: Option<Vec<u8>>)
    ensures
        match result {
            Some(bytes) => well_formed(text@) && bytes@ == decoded(text@),
            None => !well_formed(text@),
        },
{
    let n: usize = text.len();
    if n % 4 != 0 {
        return None;
    }
    let pad: usize = if n >= 4 && text[n - 1] == PAD {
        if text[n - 2] == PAD {
            2
        } else {
            1
        }
    } else {
        0
    };
    let whole: usize = if pad == 0 {
        n / 4
    } else {
        n / 4 - 1
    };
    let mut out: Vec<u8> = Vec::new();
    let mut g: usize = 0;
    while g < whole
        invariant
            n == text@.len(),
            n % 4 == 0,
            pad == padding(text@),
            pad == 0 ==> whole == n / 4,
            pad > 0 ==> whole + 1 == n / 4,
            g <= whole,
            out@.len() == 3 * g,
            forall|k: int| 0 <= k < 4 * g ==> is_symbol(#[trigger] text@[k]),
            forall|i: int| 0 <= i < 3 * g ==> out@[i] == decoded_byte(text@, i),
        decreases whole - g,
    {
        let s0 = sextet(text[4 * g]);
        let s1 = sextet(text[4 * g + 1]);
        let s2 = sextet(text[4 * g + 2]);
        let s3 = sextet(text[4 * g + 3]);
        match (s0, s1, s2, s3) {
            (Some(s0), Some(s1), Some(s2), Some(s3)) => {
                out.push((s0 << 2) | (s1 >> 4));
                out.push(((s1 & 15) << 4) | (s2 >> 2));
                out.push(((s2 & 3) << 6) | s3);
            },
            _ => {
                assert(!is_symbol(text@[4 * g as int]) || !is_symbol(text@[4 * g + 1])
                    || !is_symbol(text@[4 * g + 2]) || !is_symbol(text@[4 * g + 3]));
                return None;
            },
        }
        assert forall|k: int| 0 <= k < 4 * (g + 1) implies is_symbol(#[trigger] text@[k]) by {
            if k >= 4 * g {
                assert(k == 4 * g || k == 4 * g + 1 || k == 4 * g + 2 || k == 4 * g + 3);
            }
        }
        assert forall|i: int| 0 <= i < 3 * (g + 1) implies out@[i] == decoded_byte(text@, i) by {
            if i >= 3 * g {
                assert(i == 3 * g || i == 3 * g + 1 || i == 3 * g + 2);
            }
        }
        g += 1;
    }
    if pad == 1 {
        let s0 = sextet(text[n - 4]);
        let s1 = sextet(text[n - 3]);
        let s2 = sextet(text[n - 2]);
        match (s0, s1, s2) {
            (Some(s0), Some(s1), Some(s2)) => {
                if s2 & 3 != 0 {
                    return None;
                }
                out.push((s0 << 2) | (s1 >> 4));
                out.push(((s1 & 15) << 4) | (s2 >> 2));
            },
            _ => {
                assert(!is_symbol(text@[n - 4]) || !is_symbol(text@[n - 3]) || !is_symbol(
                    text@[n - 2],
                ));
                return None;
            },
        }
    } else if pad == 2 {
        let s0 = sextet(text[n - 4]);
        let s1 = sextet(text[n - 3]);
        match (s0, s1) {
            (Some(s0), Some(s1)) => {
                if s1 & 15 != 0 {
                    return None;
                }
                out.push((s0 << 2) | (s1 >> 4));
            },
            _ => {
                assert(!is_symbol(text@[n - 4]) || !is_symbol(text@[n - 3]));
                return None;
            },
        }
    }
    proof {
        assert forall|k: int| 0 <= k < n - pad implies is_symbol(#[trigger] text@[k]) by {
            if k >= 4 * whole {
                assert(k == n - 4 || k == n - 3 || k == n - 2);
            }
        }
        assert forall|i: int| 0 <= i < out@.len() implies out@[i] == decoded_byte(text@, i) by {
            if i >= 3 * whole {
                assert(i == 3 * whole || i == 3 * whole + 1);
            }
        }
        assert(out@ =~= decoded(text@));
    }
    Some(out)
}

/// Decodes base64 `text`. The result is the one byte sequence that `text` is
/// the encoding of; there is none where `text` is the encoding of nothing.
pub fn decode(text: &[u8]) -> (result: Option<Vec<u8>>)
    ensures
        match result {
            Some(bytes) => encode(bytes@) == text@,
            None => forall|bytes: Seq<u8>| #[trigger] encode(bytes) != text@,
        },
{
    let result = decode_well_formed(text);
    proof {
        if result is Some {
            lemma_encode_decoded(text@);
        } else {
            assert forall|bytes: Seq<u8>| #[trigger] encode(bytes) != text@ by {
                lemma_decoded_encode(bytes);
            }
        }
    }
    result
}

} // verus!
