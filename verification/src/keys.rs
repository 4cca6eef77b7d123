//! Position keys: the fixed-width big-endian byte strings under which queue
//! entries are stored, and the lexicographic order the store keeps them in.

use vstd::prelude::*;

verus! {

/// The width of a position key in bytes.
pub const KEY_WIDTH: usize = 8;

/// The largest position a key can encode.
pub const MAX_POSITION: i64 = 0x7fff_ffff_ffff_ffff;

/// `a` and `b` agree before index `i`, and at `i` either `a` ends while `b`
/// goes on, or `a` holds the smaller byte.
pub open spec fn lex_lt_at(a: Seq<u8>, b: Seq<u8>, i: int) -> bool {
    &&& 0 <= i <= a.len()
    &&& i < b.len()
    &&& forall|j: int| 0 <= j < i ==> a[j] == b[j]
    &&& (i < a.len() ==> a[i] < b[i])
}

/// Strict lexicographic order on byte strings, the order in which the durable
/// store keeps its keys.
pub open spec fn lex_lt(a: Seq<u8>, b: Seq<u8>) -> bool {
    exists|i: int| lex_lt_at(a, b, i)
}

/// Lexicographic order on byte strings.
pub open spec fn lex_le(a: Seq<u8>, b: Seq<u8>) -> bool {
    a == b || lex_lt(a, b)
}

/// Whether `n` is a position that a key can encode.
pub open spec fn is_position(n: u64) -> bool {
    n <= 0x7fff_ffff_ffff_ffff
}

/// The byte at index `i` of the big-endian encoding of `n`.
pub open spec fn key_byte(n: u64, i: int) -> u8 {
    if i == 0 {
        ((n >> 56) & 0xff) as u8
    } else if i == 1 {
        ((n >> 48) & 0xff) as u8
    } else if i == 2 {
        ((n >> 40) & 0xff) as u8
    } else if i == 3 {
        ((n >> 32) & 0xff) as u8
    } else if i == 4 {
        ((n >> 24) & 0xff) as u8
    } else if i == 5 {
        ((n >> 16) & 0xff) as u8
    } else if i == 6 {
        ((n >> 8) & 0xff) as u8
    } else {
        (n & 0xff) as u8
    }
}

/// The position key of `n`: its eight bytes, most significant first.
pub open spec fn key_seq(n: u64) -> Seq<u8> {
    Seq::new(8, |i: int| key_byte(n, i))
}

/// Whether `key` is the position key of some position.
pub open spec fn is_key(key: Seq<u8>) -> bool {
    exists|n: u64| is_position(n) && key == #[trigger] key_seq(n)
}

/// The position that `key` encodes, where it is a position key.
pub open spec fn key_position(key: Seq<u8>) -> u64 {
    choose|n: u64| is_position(n) && key == #[trigger] key_seq(n)
}

/// The position given to the next appended entry when `last` is the greatest
/// key present: zero in an empty region, one past the greatest position
/// otherwise. There is none when the greatest key is no position key or
/// encodes the largest position.
pub open spec fn next_position(last: Option<Seq<u8>>) -> Option<u64> {
    match last {
        None => Some(0u64),
        Some(key) => if is_key(key) && key_position(key) < 0x7fff_ffff_ffff_ffff {
            Some((key_position(key) + 1) as u64)
        } else {
            None
        },
    }
}

/// Two positions with the same key are the same position.
pub proof fn lemma_key_seq_injective(a: u64, b: u64)
    requires
        key_seq(a) == key_seq(b),
    ensures
        a == b,
{
    assert(forall|i: int| 0 <= i < 8 ==> key_seq(a)[i] == key_byte(a, i));
    assert(forall|i: int| 0 <= i < 8 ==> key_seq(b)[i] == key_byte(b, i));
    assert(key_byte(a, 0) == key_byte(b, 0));
    assert(key_byte(a, 1) == key_byte(b, 1));
    assert(key_byte(a, 2) == key_byte(b, 2));
    assert(key_byte(a, 3) == key_byte(b, 3));
    assert(key_byte(a, 4) == key_byte(b, 4));
    assert(key_byte(a, 5) == key_byte(b, 5));
    assert(key_byte(a, 6) == key_byte(b, 6));
    assert(key_byte(a, 7) == key_byte(b, 7));
    assert(a == b) by (bit_vector)
        requires
            ((a >> 56) & 0xff) as u8 == ((b >> 56) & 0xff) as u8,
            ((a >> 48) & 0xff) as u8 == ((b >> 48) & 0xff) as u8,
            ((a >> 40) & 0xff) as u8 == ((b >> 40) & 0xff) as u8,
            ((a >> 32) & 0xff) as u8 == ((b >> 32) & 0xff) as u8,
            ((a >> 24) & 0xff) as u8 == ((b >> 24) & 0xff) as u8,
            ((a >> 16) & 0xff) as u8 == ((b >> 16) & 0xff) as u8,
            ((a >> 8) & 0xff) as u8 == ((b >> 8) & 0xff) as u8,
            (a & 0xff) as u8 == (b & 0xff) as u8,
    ;
}

/// Key order is position order: the key of a smaller position comes first in
/// the store's lexicographic order.
pub proof fn lemma_key_order(a: u64, b: u64)
    requires
        a < b,
    ensures
        lex_lt(key_seq(a), key_seq(b)),
{
    let x = key_seq(a);
    let y = key_seq(b);
    assert(forall|i: int| 0 <= i < 8 ==> x[i] == key_byte(a, i));
    assert(forall|i: int| 0 <= i < 8 ==> y[i] == key_byte(b, i));
    assert({
        ||| (((a >> 56) & 0xff) as u8) > (((b >> 56) & 0xff) as u8)
        ||| (a >> 56) == (b >> 56) && (((a >> 48) & 0xff) as u8) > (((b >> 48) & 0xff) as u8)
        ||| (a >> 48) == (b >> 48) && (((a >> 40) & 0xff) as u8) > (((b >> 40) & 0xff) as u8)
        ||| (a >> 40) == (b >> 40) && (((a >> 32) & 0xff) as u8) > (((b >> 32) & 0xff) as u8)
        ||| (a >> 32) == (b >> 32) && (((a >> 24) & 0xff) as u8) > (((b >> 24) & 0xff) as u8)
        ||| (a >> 24) == (b >> 24) && (((a >> 16) & 0xff) as u8) > (((b >> 16) & 0xff) as u8)
        ||| (a >> 16) == (b >> 16) && (((a >> 8) & 0xff) as u8) > (((b >> 8) & 0xff) as u8)
        ||| (a >> 8) == (b >> 8) && ((a & 0xff) as u8) >= ((b & 0xff) as u8)
    } ==> a >= b) by (bit_vector);
    assert(((a >> 56) & 0xff) as u8 == ((b >> 56) & 0xff) as u8 ==> (a >> 56) == (b >> 56))
        by (bit_vector);
    assert((a >> 56) == (b >> 56) && ((a >> 48) & 0xff) as u8 == ((b >> 48) & 0xff) as u8 ==> (a
        >> 48) == (b >> 48)) by (bit_vector);
    assert((a >> 48) == (b >> 48) && ((a >> 40) & 0xff) as u8 == ((b >> 40) & 0xff) as u8 ==> (a
        >> 40) == (b >> 40)) by (bit_vector);
    assert((a >> 40) == (b >> 40) && ((a >> 32) & 0xff) as u8 == ((b >> 32) & 0xff) as u8 ==> (a
        >> 32) == (b >> 32)) by (bit_vector);
    assert((a >> 32) == (b >> 32) && ((a >> 24) & 0xff) as u8 == ((b >> 24) & 0xff) as u8 ==> (a
        >> 24) == (b >> 24)) by (bit_vector);
    assert((a >> 24) == (b >> 24) && ((a >> 16) & 0xff) as u8 == ((b >> 16) & 0xff) as u8 ==> (a
        >> 16) == (b >> 16)) by (bit_vector);
    assert((a >> 16) == (b >> 16) && ((a >> 8) & 0xff) as u8 == ((b >> 8) & 0xff) as u8 ==> (a
        >> 8) == (b >> 8)) by (bit_vector);
    if key_byte(a, 0) != key_byte(b, 0) {
        assert(lex_lt_at(x, y, 0));
    } else if key_byte(a, 1) != key_byte(b, 1) {
        assert(lex_lt_at(x, y, 1));
    } else if key_byte(a, 2) != key_byte(b, 2) {
        assert(lex_lt_at(x, y, 2));
    } else if key_byte(a, 3) != key_byte(b, 3) {
        assert(lex_lt_at(x, y, 3));
    } else if key_byte(a, 4) != key_byte(b, 4) {
        assert(lex_lt_at(x, y, 4));
    } else if key_byte(a, 5) != key_byte(b, 5) {
        assert(lex_lt_at(x, y, 5));
    } else if key_byte(a, 6) != key_byte(b, 6) {
        assert(lex_lt_at(x, y, 6));
    } else {
        assert(lex_lt_at(x, y, 7));
    }
}

/// No byte string comes strictly before itself or before one that comes
/// before it.
pub proof fn lemma_lex_lt_asymmetric(a: Seq<u8>, b: Seq<u8>)
    requires
        lex_lt(a, b),
    ensures
        !lex_le(b, a),
{
    let i = choose|i: int| lex_lt_at(a, b, i);
    if a == b {
        assert(false);
    }
    if lex_lt(b, a) {
        let j = choose|j: int| lex_lt_at(b, a, j);
        if i < j {
            assert(b[i] == a[i]);
        } else if j < i {
            assert(a[j] == b[j]);
        }
        assert(false);
    }
}

/// The lexicographic order is transitive.
pub proof fn lemma_lex_lt_transitive(a: Seq<u8>, b: Seq<u8>, c: Seq<u8>)
    requires
        lex_lt(a, b),
        lex_lt(b, c),
    ensures
        lex_lt(a, c),
{
    let i = choose|i: int| lex_lt_at(a, b, i);
    let j = choose|j: int| lex_lt_at(b, c, j);
    let k = if i <= j { i } else { j };
    assert(lex_lt_at(a, c, k));
}

/// Encodes a position as its key.
pub fn position_key(n: i64) -> (key: Vec<u8>)
    requires
        n >= 0,
    ensures
        key@ == key_seq(n as u64),
{
    let m: u64 = n as u64;
    let mut key: Vec<u8> = Vec::new();
    key.push(((m >> 56) & 0xff) as u8);
    key.push(((m >> 48) & 0xff) as u8);
    key.push(((m >> 40) & 0xff) as u8);
    key.push(((m >> 32) & 0xff) as u8);
    key.push(((m >> 24) & 0xff) as u8);
    key.push(((m >> 16) & 0xff) as u8);
    key.push(((m >> 8) & 0xff) as u8);
    key.push((m & 0xff) as u8);
    assert(key@ =~= key_seq(m));
    key
}

/// Decodes a key: the position it encodes, or nothing where the bytes are no
/// position key (another width, or the sign bit set).
pub fn key_to_position(key: &[u8]) -> (position: Option<i64>)
    ensures
        match position {
            Some(n) => n >= 0 && key@ == key_seq(n as u64) && is_key(key@) && key_position(key@)
                == n as u64,
            None => !is_key(key@),
        },
{
    if key.len() != KEY_WIDTH {
        proof {
            if is_key(key@) {
                let n = choose|n: u64| is_position(n) && key@ == #[trigger] key_seq(n);
                assert(key_seq(n).len() == 8);
            }
        }
        return None;
    }
    let b0: u64 = key[0] as u64;
    if b0 >= 128 {
        proof {
            if is_key(key@) {
                let n = choose|n: u64| is_position(n) && key@ == #[trigger] key_seq(n);
                assert(key_seq(n)[0] == key_byte(n, 0));
                assert(n <= 0x7fff_ffff_ffff_ffff ==> (((n >> 56) & 0xff) as u8) < 128)
                    by (bit_vector);
            }
        }
        return None;
    }
    let b1: u64 = key[1] as u64;
    let b2: u64 = key[2] as u64;
    let b3: u64 = key[3] as u64;
    let b4: u64 = key[4] as u64;
    let b5: u64 = key[5] as u64;
    let b6: u64 = key[6] as u64;
    let b7: u64 = key[7] as u64;
    let m: u64 = (b0 << 56) | (b1 << 48) | (b2 << 40) | (b3 << 32) | (b4 << 24) | (b5 << 16) | (b6
        << 8) | b7;
    proof {
        assert({
            &&& m <= 0x7fff_ffff_ffff_ffff
            &&& ((m >> 56) & 0xff) == b0
            &&& ((m >> 48) & 0xff) == b1
            &&& ((m >> 40) & 0xff) == b2
            &&& ((m >> 32) & 0xff) == b3
            &&& ((m >> 24) & 0xff) == b4
            &&& ((m >> 16) & 0xff) == b5
            &&& ((m >> 8) & 0xff) == b6
            &&& (m & 0xff) == b7
        }) by (bit_vector)
            requires
                b0 < 128,
                b1 < 256,
                b2 < 256,
                b3 < 256,
                b4 < 256,
                b5 < 256,
                b6 < 256,
                b7 < 256,
                m == (b0 << 56) | (b1 << 48) | (b2 << 40) | (b3 << 32) | (b4 << 24) | (b5 << 16)
                    | (b6 << 8) | b7,
        ;
        assert(key@ =~= key_seq(m));
        assert(is_position(m));
        lemma_key_seq_injective(key_position(key@), m);
    }
    let n: i64 = m as i64;
    Some(n)
}

/// Computes the position for the next appended entry from the greatest key
/// present, if any.
pub fn next_after(last: Option<&[u8]>) -> (next: Option<i64>)
    ensures
        match next {
            Some(n) => n >= 0 && next_position(
                match last {
                    Some(k) => Some(k@),
                    None => None,
                },
            ) == Some(n as u64),
            None => next_position(
                match last {
                    Some(k) => Some(k@),
                    None => None,
                },
            ) is None,
        },
{
    match last {
        None => Some(0),
        Some(key) => match key_to_position(key) {
            Some(n) => if n < MAX_POSITION {
                Some(n + 1)
            } else {
                None
            },
            None => None,
        },
    }
}

} // verus!
