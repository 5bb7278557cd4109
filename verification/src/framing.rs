//! The end-of-message marker and what it means for a stream of bytes.
//!
//! A message on the wire is its payload followed by the three ASCII bytes
//! `EOF`. There is no length prefix and no escaping: the payload of a stream
//! is everything before the first place where the marker occurs, or the whole
//! stream where it never does.

use vstd::prelude::*;

verus! {

/// Number of bytes in the marker.
pub const TERMINATOR_LEN: usize = 3;

/// The marker itself: `E`, `O`, `F`.
pub open spec fn terminator() -> Seq<u8> {
    seq![69u8, 79u8, 70u8]
}

/// The marker occupies positions `i`, `i + 1` and `i + 2` of `s`.
pub open spec fn terminator_at(s: Seq<u8>, i: int) -> bool {
    &&& 0 <= i
    &&& i + 3 <= s.len()
    &&& s[i] == 69u8
    &&& s[i + 1] == 79u8
    &&& s[i + 2] == 70u8
}

/// The marker occurs somewhere in `s`.
pub open spec fn has_terminator(s: Seq<u8>) -> bool {
    exists|i: int| terminator_at(s, i)
}

/// The marker occurs at `i` and nowhere before.
pub open spec fn is_first_terminator(s: Seq<u8>, i: int) -> bool {
    &&& terminator_at(s, i)
    &&& forall|j: int| 0 <= j < i ==> !terminator_at(s, j)
}

/// Where the marker first occurs in `s`, if it occurs at all.
pub open spec fn first_terminator(s: Seq<u8>) -> Option<int> {
    if has_terminator(s) {
        Some(choose|i: int| is_first_terminator(s, i))
    } else {
        None
    }
}

/// The payload carried by `stream`: the bytes before the first marker, or all
/// of them where there is no marker.
pub open spec fn payload_of(stream: Seq<u8>) -> Seq<u8> {
    match first_terminator(stream) {
        Some(i) => stream.take(i),
        None => stream,
    }
}

/// A payload as it goes on the wire: followed by the marker.
pub open spec fn framed(payload: Seq<u8>) -> Seq<u8> {
    payload + terminator()
}

/// Among the positions up to `i` that hold the marker there is a least one.
proof fn lemma_least_terminator(s: Seq<u8>, i: int) -> (k: int)
    requires
        terminator_at(s, i),
    ensures
        0 <= k <= i,
        is_first_terminator(s, k),
    decreases i,
{
    if exists|j: int| 0 <= j < i && terminator_at(s, j) {
        let j = choose|j: int| 0 <= j < i && terminator_at(s, j);
        lemma_least_terminator(s, j)
    } else {
        i
    }
}

/// `first_terminator` names the one position that `is_first_terminator`
/// describes.
pub proof fn lemma_first_terminator(s: Seq<u8>, i: int)
    ensures
        is_first_terminator(s, i) <==> first_terminator(s) == Some(i),
{
    if is_first_terminator(s, i) {
        let k = choose|k: int| is_first_terminator(s, k);
        assert(terminator_at(s, k));
        if k < i {
            assert(!terminator_at(s, k));
        }
        if i < k {
            assert(!terminator_at(s, i));
        }
    }
    if first_terminator(s) == Some(i) {
        let w = choose|w: int| terminator_at(s, w);
        let k = lemma_least_terminator(s, w);
    }
}

/// Bytes that follow do not move the first marker.
pub proof fn lemma_first_terminator_stays(s: Seq<u8>, more: Seq<u8>, i: int)
    requires
        first_terminator(s) == Some(i),
    ensures
        first_terminator(s + more) == Some(i),
{
    lemma_first_terminator(s, i);
    let t = s + more;
    assert(terminator_at(t, i));
    assert forall|j: int| 0 <= j < i implies !terminator_at(t, j) by {
        if terminator_at(t, j) {
            assert(t[j] == s[j] && t[j + 1] == s[j + 1] && t[j + 2] == s[j + 2]);
            assert(terminator_at(s, j));
        }
    }
    lemma_first_terminator(t, i);
}

/// A marker that shows up only once more bytes have arrived ends in them.
pub proof fn lemma_new_terminator_is_late(s: Seq<u8>, more: Seq<u8>, i: int)
    requires
        first_terminator(s) is None,
        terminator_at(s + more, i),
    ensures
        i + TERMINATOR_LEN > s.len(),
{
    let t = s + more;
    if i + 3 <= s.len() {
        assert(t[i] == s[i] && t[i + 1] == s[i + 1] && t[i + 2] == s[i + 2]);
        assert(terminator_at(s, i));
    }
}

/// A payload without the marker in it is what its frame carries, whatever
/// follows the frame.
pub proof fn lemma_payload_of_framed(payload: Seq<u8>, tail: Seq<u8>)
    requires
        !has_terminator(payload),
    ensures
        first_terminator(framed(payload) + tail) == Some(payload.len() as int),
        payload_of(framed(payload) + tail) == payload,
{
    let t = framed(payload) + tail;
    let n = payload.len() as int;
    assert(t[n] == terminator()[0] && t[n + 1] == terminator()[1] && t[n + 2] == terminator()[2]);
    assert(terminator_at(t, n));
    assert forall|j: int| 0 <= j < n implies !terminator_at(t, j) by {
        if terminator_at(t, j) {
            if j + 3 <= n {
                assert(t[j] == payload[j] && t[j + 1] == payload[j + 1] && t[j + 2] == payload[j
                    + 2]);
                assert(terminator_at(payload, j));
            } else if j + 2 == n {
                assert(t[j + 2] == terminator()[0]);
            } else {
                assert(t[j + 1] == terminator()[0]);
            }
        }
    }
    lemma_first_terminator(t, n);
    assert(t.take(n) =~= payload);
}

/// Scans `buf` from the start for the marker.
pub fn find_terminator(buf: &[u8]) -> (found: Option<usize>)
    ensures
        match found {
            Some(i) => first_terminator(buf@) == Some(i as int),
            None => first_terminator(buf@) is None,
        },
{
    let n: usize = buf.len();
    if n < TERMINATOR_LEN {
        assert(forall|j: int| !terminator_at(buf@, j));
        return None;
    }
    let mut i: usize = 0;
    while i <= n - TERMINATOR_LEN
        invariant
            n == buf@.len(),
            n >= TERMINATOR_LEN,
            i <= n - TERMINATOR_LEN + 1,
            forall|j: int| 0 <= j < i ==> !terminator_at(buf@, j),
        decreases n - i,
    {
        if buf[i] == 69u8 && buf[i + 1] == 79u8 && buf[i + 2] == 70u8 {
            proof {
                lemma_first_terminator(buf@, i as int);
            }
            return Some(i);
        }
        i += 1;
    }
    assert(forall|j: int| !terminator_at(buf@, j));
    None
}

} // verus!
