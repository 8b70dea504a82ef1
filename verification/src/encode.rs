//! Query-string and form encoding.
//!
//! Key/value pairs are encoded under the standard
//! `application/x-www-form-urlencoded` rules: ASCII alphanumerics and
//! `*`, `-`, `.`, `_` stand for themselves, a space becomes `+`, and every
//! other byte becomes `%XX` with upper-case hex digits; pairs are written
//! `key=value` and joined with `&`. A spec-level decoder is defined here as
//! well, so that the encoder can be proved invertible.

use vstd::prelude::*;

use crate::ascii::{
    AMPERSAND, DIGIT_0, DIGIT_9, DOT, EQUALS, HYPHEN, LOWER_A, LOWER_F, LOWER_Z, PERCENT, PLUS,
    SPACE, STAR, UNDERSCORE, UPPER_A, UPPER_F, UPPER_Z,
};

verus! {

/// Bytes that the encoding leaves unchanged: ASCII alphanumerics and `*-._`.
pub open spec fn is_unreserved_byte(b: u8) -> bool {
    (DIGIT_0 <= b && b <= DIGIT_9) || (LOWER_A <= b && b <= LOWER_Z) || (UPPER_A <= b && b <= UPPER_Z) || b == STAR
        || b == HYPHEN || b == DOT || b == UNDERSCORE
}

/// Upper-case hex digit for a nibble.
pub open spec fn hex_digit(n: u8) -> u8
    recommends
        n < 16,
{
    if n < 10 {
        (DIGIT_0 + n) as u8
    } else {
        (UPPER_A + (n - 10)) as u8
    }
}

/// Encoding of a single byte: itself, `+` for a space, or `%XX`.
pub open spec fn enc_byte(b: u8) -> Seq<u8> {
    if is_unreserved_byte(b) {
        seq![b]
    } else if b == SPACE {
        seq![PLUS]
    } else {
        seq![PERCENT, hex_digit(b / 16), hex_digit(b % 16)]
    }
}

/// Encoding of a byte string: each byte encoded in turn.
pub open spec fn enc_bytes(s: Seq<u8>) -> Seq<u8>
    decreases s.len(),
{
    if s.len() == 0 {
        Seq::empty()
    } else {
        enc_byte(s[0]) + enc_bytes(s.skip(1))
    }
}

/// Encoding of one `key=value` pair.
pub open spec fn enc_pair(k: Seq<u8>, v: Seq<u8>) -> Seq<u8> {
    enc_bytes(k) + seq![EQUALS] + enc_bytes(v)
}

/// Encoding of a pair list: pairs joined with `&`; an empty list yields
/// the empty string.
pub open spec fn enc_pairs(ps: Seq<(Seq<u8>, Seq<u8>)>) -> Seq<u8>
    decreases ps.len(),
{
    if ps.len() == 0 {
        Seq::empty()
    } else if ps.len() == 1 {
        enc_pair(ps[0].0, ps[0].1)
    } else {
        enc_pair(ps[0].0, ps[0].1) + seq![AMPERSAND] + enc_pairs(ps.skip(1))
    }
}

/// The byte-sequence view of a vector of byte-vector pairs.
pub open spec fn pairs_view(v: Seq<(Vec<u8>, Vec<u8>)>) -> Seq<(Seq<u8>, Seq<u8>)> {
    Seq::new(v.len(), |i: int| (v[i].0@, v[i].1@))
}

proof fn lemma_enc_bytes_push(s: Seq<u8>, b: u8)
    ensures
        enc_bytes(s.push(b)) == enc_bytes(s) + enc_byte(b),
    decreases s.len(),
{
    if s.len() == 0 {
        assert(s.push(b).skip(1) =~= Seq::<u8>::empty());
        assert(s.push(b)[0] == b);
        assert(enc_bytes(s.push(b)) == enc_byte(b) + enc_bytes(s.push(b).skip(1)));
        assert(enc_bytes(s.push(b)) =~= enc_bytes(s) + enc_byte(b));
    } else {
        assert(s.push(b).skip(1) =~= s.skip(1).push(b));
        lemma_enc_bytes_push(s.skip(1), b);
        assert(s.push(b)[0] == s[0]);
        assert(s.push(b).len() > 0);
        assert(enc_bytes(s.push(b)) == enc_byte(s[0]) + enc_bytes(s.skip(1).push(b)));
        assert(enc_bytes(s) == enc_byte(s[0]) + enc_bytes(s.skip(1)));
        assert(enc_bytes(s.push(b)) =~= enc_bytes(s) + enc_byte(b));
    }
}

proof fn lemma_enc_pairs_push(ps: Seq<(Seq<u8>, Seq<u8>)>, p: (Seq<u8>, Seq<u8>))
    ensures
        ps.len() == 0 ==> enc_pairs(ps.push(p)) == enc_pair(p.0, p.1),
        ps.len() > 0 ==> enc_pairs(ps.push(p)) == enc_pairs(ps) + seq![AMPERSAND] + enc_pair(p.0, p.1),
    decreases ps.len(),
{
    if ps.len() == 0 {
    } else if ps.len() == 1 {
        assert(ps.push(p).skip(1) =~= seq![p]);
        assert(ps.push(p)[0] == ps[0]);
        assert(ps.push(p).len() == 2);
        assert(enc_pairs(ps.push(p)) == enc_pair(ps[0].0, ps[0].1) + seq![AMPERSAND]
            + enc_pairs(seq![p]));
        assert(enc_pairs(seq![p]) == enc_pair(p.0, p.1));
        assert(enc_pairs(ps) == enc_pair(ps[0].0, ps[0].1));
        assert(enc_pairs(ps.push(p)) =~= enc_pairs(ps) + seq![AMPERSAND] + enc_pair(p.0, p.1));
    } else {
        assert(ps.push(p).skip(1) =~= ps.skip(1).push(p));
        lemma_enc_pairs_push(ps.skip(1), p);
        assert(ps.push(p)[0] == ps[0]);
        assert(ps.push(p).len() > 1);
        assert(enc_pairs(ps.push(p)) == enc_pair(ps[0].0, ps[0].1) + seq![AMPERSAND]
            + enc_pairs(ps.skip(1).push(p)));
        assert(ps.skip(1).len() > 0);
        assert(enc_pairs(ps.skip(1).push(p)) == enc_pairs(ps.skip(1)) + seq![AMPERSAND]
            + enc_pair(p.0, p.1));
        assert(enc_pairs(ps) == enc_pair(ps[0].0, ps[0].1) + seq![AMPERSAND]
            + enc_pairs(ps.skip(1)));
        assert(enc_pairs(ps.push(p)) =~= enc_pairs(ps) + seq![AMPERSAND] + enc_pair(p.0, p.1));
    }
}

/// A hex digit, upper or lower case.
pub open spec fn is_hex_digit(b: u8) -> bool {
    (DIGIT_0 <= b && b <= DIGIT_9) || (UPPER_A <= b && b <= UPPER_F) || (LOWER_A <= b && b
        <= LOWER_F)
}

/// The value of a hex digit.
pub open spec fn hex_value(b: u8) -> u8
    recommends
        is_hex_digit(b),
{
    if DIGIT_0 <= b && b <= DIGIT_9 {
        (b - DIGIT_0) as u8
    } else if UPPER_A <= b && b <= UPPER_F {
        (b - UPPER_A + 10) as u8
    } else {
        (b - LOWER_A + 10) as u8
    }
}

/// Percent-decoding of a byte string: `+` yields a space, `%XX` the byte
/// with hex value `XX`, and any other byte stands for itself.
pub open spec fn pct_decode(s: Seq<u8>) -> Seq<u8>
    decreases s.len(),
{
    if s.len() == 0 {
        Seq::empty()
    } else if s[0] == PLUS {
        seq![SPACE] + pct_decode(s.skip(1))
    } else if s[0] == PERCENT && s.len() >= 3 && is_hex_digit(s[1]) && is_hex_digit(s[2]) {
        seq![(16 * hex_value(s[1]) + hex_value(s[2])) as u8] + pct_decode(s.skip(3))
    } else {
        seq![s[0]] + pct_decode(s.skip(1))
    }
}

/// Index of the first occurrence of `b` in `s`, or `s.len()` if absent.
pub open spec fn find_byte(s: Seq<u8>, b: u8) -> int
    decreases s.len(),
{
    if s.len() == 0 {
        0
    } else if s[0] == b {
        0
    } else {
        1 + find_byte(s.skip(1), b)
    }
}

/// Splits one `key=value` chunk on its first `=` and percent-decodes both
/// halves; a chunk without `=` is all key, with an empty value.
pub open spec fn dec_pair(s: Seq<u8>) -> (Seq<u8>, Seq<u8>) {
    let j = find_byte(s, EQUALS);
    if 0 <= j && j < s.len() {
        (pct_decode(s.take(j)), pct_decode(s.skip(j + 1)))
    } else {
        (pct_decode(s), Seq::empty())
    }
}

/// Parses a form-urlencoded byte string back into its key/value pairs:
/// chunks split on `&`, each chunk split on its first `=`.
pub open spec fn dec_pairs(s: Seq<u8>) -> Seq<(Seq<u8>, Seq<u8>)>
    decreases s.len(),
{
    if s.len() == 0 {
        Seq::empty()
    } else {
        let i = find_byte(s, AMPERSAND);
        if 0 <= i && i < s.len() {
            seq![dec_pair(s.take(i))] + dec_pairs(s.skip(i + 1))
        } else {
            seq![dec_pair(s)]
        }
    }
}

pub proof fn lemma_find_byte_spec(s: Seq<u8>, b: u8)
    ensures
        0 <= find_byte(s, b) <= s.len(),
        find_byte(s, b) < s.len() ==> s[find_byte(s, b)] == b,
        forall|i: int| 0 <= i < find_byte(s, b) ==> s[i] != b,
    decreases s.len(),
{
    if s.len() == 0 {
    } else if s[0] == b {
    } else {
        lemma_find_byte_spec(s.skip(1), b);
        assert forall|i: int| 0 <= i < find_byte(s, b) implies s[i] != b by {
            if i > 0 {
                assert(s.skip(1)[i - 1] == s[i]);
            }
        }
    }
}

proof fn lemma_enc_bytes_free(s: Seq<u8>)
    ensures
        forall|i: int|
            0 <= i < enc_bytes(s).len() ==> enc_bytes(s)[i] != AMPERSAND && enc_bytes(s)[i]
                != EQUALS,
    decreases s.len(),
{
    if s.len() == 0 {
    } else {
        lemma_enc_bytes_free(s.skip(1));
        assert forall|i: int| 0 <= i < enc_bytes(s).len() implies enc_bytes(s)[i] != AMPERSAND
            && enc_bytes(s)[i] != EQUALS by {
            assert(enc_bytes(s) == enc_byte(s[0]) + enc_bytes(s.skip(1)));
            if i < enc_byte(s[0]).len() {
                assert(enc_bytes(s)[i] == enc_byte(s[0])[i]);
            } else {
                assert(enc_bytes(s)[i] == enc_bytes(s.skip(1))[i - enc_byte(s[0]).len()]);
            }
        }
    }
}

proof fn lemma_find_byte_absent(s: Seq<u8>, b: u8)
    requires
        forall|i: int| 0 <= i < s.len() ==> s[i] != b,
    ensures
        find_byte(s, b) == s.len(),
    decreases s.len(),
{
    if s.len() == 0 {
    } else {
        assert(forall|i: int| 0 <= i < s.skip(1).len() ==> s.skip(1)[i] == s[i + 1]);
        lemma_find_byte_absent(s.skip(1), b);
    }
}

proof fn lemma_find_byte_concat(a: Seq<u8>, b: u8, c: Seq<u8>)
    requires
        forall|i: int| 0 <= i < a.len() ==> a[i] != b,
    ensures
        find_byte(a + seq![b] + c, b) == a.len(),
    decreases a.len(),
{
    let s = a + seq![b] + c;
    if a.len() == 0 {
        assert(s[0] == b);
    } else {
        assert(s[0] == a[0]);
        assert(s.skip(1) =~= a.skip(1) + seq![b] + c);
        assert(forall|i: int| 0 <= i < a.skip(1).len() ==> a.skip(1)[i] == a[i + 1]);
        lemma_find_byte_concat(a.skip(1), b, c);
    }
}

proof fn lemma_pct_decode_enc(s: Seq<u8>)
    ensures
        pct_decode(enc_bytes(s)) == s,
    decreases s.len(),
{
    if s.len() == 0 {
        assert(pct_decode(enc_bytes(s)) =~= s);
    } else {
        let b = s[0];
        let e = enc_bytes(s);
        let rest = enc_bytes(s.skip(1));
        lemma_pct_decode_enc(s.skip(1));
        assert(e == enc_byte(b) + rest);
        if is_unreserved_byte(b) {
            assert(e[0] == b);
            assert(b != PLUS && b != PERCENT);
            assert(e.skip(1) =~= rest);
            assert(pct_decode(e) == seq![b] + pct_decode(rest));
            assert(pct_decode(e) =~= s);
        } else if b == SPACE {
            assert(e[0] == PLUS);
            assert(e.skip(1) =~= rest);
            assert(pct_decode(e) == seq![SPACE] + pct_decode(rest));
            assert(pct_decode(e) =~= s);
        } else {
            let h1 = hex_digit(b / 16);
            let h2 = hex_digit(b % 16);
            assert(e[0] == PERCENT && e[1] == h1 && e[2] == h2);
            assert(b / 16 < 16 && b % 16 < 16);
            assert(is_hex_digit(h1) && is_hex_digit(h2));
            assert(hex_value(h1) == b / 16 && hex_value(h2) == b % 16);
            assert(16 * (b / 16) + b % 16 == b);
            assert(e.len() >= 3);
            assert(e.skip(3) =~= rest);
            assert(pct_decode(e) == seq![b] + pct_decode(rest));
            assert(pct_decode(e) =~= s);
        }
    }
}

proof fn lemma_dec_enc_pair(k: Seq<u8>, v: Seq<u8>)
    ensures
        dec_pair(enc_pair(k, v)) == (k, v),
{
    let e = enc_pair(k, v);
    lemma_enc_bytes_free(k);
    lemma_find_byte_concat(enc_bytes(k), EQUALS, enc_bytes(v));
    assert(e =~= enc_bytes(k) + seq![EQUALS] + enc_bytes(v));
    let j = find_byte(e, EQUALS);
    assert(j == enc_bytes(k).len());
    assert(0 <= j && j < e.len());
    assert(e.take(j) =~= enc_bytes(k));
    assert(e.skip(j + 1) =~= enc_bytes(v));
    lemma_pct_decode_enc(k);
    lemma_pct_decode_enc(v);
}

proof fn lemma_enc_pair_no_amp(k: Seq<u8>, v: Seq<u8>)
    ensures
        forall|i: int| 0 <= i < enc_pair(k, v).len() ==> enc_pair(k, v)[i] != AMPERSAND,
{
    lemma_enc_bytes_free(k);
    lemma_enc_bytes_free(v);
    assert forall|i: int| 0 <= i < enc_pair(k, v).len() implies enc_pair(k, v)[i]
        != AMPERSAND by {
        let e = enc_pair(k, v);
        if i < enc_bytes(k).len() {
            assert(e[i] == enc_bytes(k)[i]);
        } else if i == enc_bytes(k).len() {
            assert(e[i] == EQUALS);
        } else {
            assert(e[i] == enc_bytes(v)[i - enc_bytes(k).len() - 1]);
        }
    }
}

/// The round trip at the level of pair lists: parsing an encoded pair
/// list back yields exactly the original pairs, in order.
pub proof fn lemma_urlencode_roundtrip(ps: Seq<(Seq<u8>, Seq<u8>)>)
    ensures
        dec_pairs(enc_pairs(ps)) == ps,
    decreases ps.len(),
{
    if ps.len() == 0 {
        assert(dec_pairs(enc_pairs(ps)) =~= ps);
    } else if ps.len() == 1 {
        let p = ps[0];
        let e = enc_pairs(ps);
        assert(e == enc_pair(p.0, p.1));
        lemma_enc_pair_no_amp(p.0, p.1);
        lemma_find_byte_absent(e, AMPERSAND);
        assert(e.len() > 0);
        assert(dec_pairs(e) == seq![dec_pair(e)]);
        lemma_dec_enc_pair(p.0, p.1);
        assert(p == (p.0, p.1));
        assert(dec_pairs(enc_pairs(ps)) =~= ps);
    } else {
        let p = ps[0];
        let e = enc_pairs(ps);
        let tail = enc_pairs(ps.skip(1));
        assert(e == enc_pair(p.0, p.1) + seq![AMPERSAND] + tail);
        lemma_enc_pair_no_amp(p.0, p.1);
        lemma_find_byte_concat(enc_pair(p.0, p.1), AMPERSAND, tail);
        let i = find_byte(e, AMPERSAND);
        assert(i == enc_pair(p.0, p.1).len());
        assert(e.len() > i);
        assert(e.take(i) =~= enc_pair(p.0, p.1));
        assert(e.skip(i + 1) =~= tail);
        lemma_dec_enc_pair(p.0, p.1);
        lemma_urlencode_roundtrip(ps.skip(1));
        assert(dec_pairs(e) == seq![dec_pair(e.take(i))] + dec_pairs(e.skip(i + 1)));
        assert(p == (p.0, p.1));
        assert(dec_pairs(enc_pairs(ps)) =~= ps);
    }
}

/// One or more pairs encode to a non-empty string: each pair holds at
/// least its `=`.
pub proof fn lemma_enc_pairs_nonempty(ps: Seq<(Seq<u8>, Seq<u8>)>)
    requires
        ps.len() > 0,
    ensures
        enc_pairs(ps).len() > 0,
{
    if ps.len() == 1 {
        assert(enc_pairs(ps) == enc_pair(ps[0].0, ps[0].1));
    } else {
        assert(enc_pairs(ps) == enc_pair(ps[0].0, ps[0].1) + seq![AMPERSAND] + enc_pairs(
            ps.skip(1),
        ));
    }
}

fn unreserved(b: u8) -> (r: bool)
    ensures
        r == is_unreserved_byte(b),
{
    (DIGIT_0 <= b && b <= DIGIT_9) || (LOWER_A <= b && b <= LOWER_Z) || (UPPER_A <= b && b <= UPPER_Z) || b == STAR
        || b == HYPHEN || b == DOT || b == UNDERSCORE
}

fn hex_digit_exec(n: u8) -> (r: u8)
    requires
        n < 16,
    ensures
        r == hex_digit(n),
{
    if n < 10 {
        DIGIT_0 + n
    } else {
        UPPER_A + (n - 10)
    }
}

/// Appends the encoding of `s` to `out`.
fn encode_bytes_into(out: &mut Vec<u8>, s: &Vec<u8>)
    ensures
        final(out)@ == old(out)@ + enc_bytes(s@),
{
    let mut i: usize = 0;
    while i < s.len()
        invariant
            i <= s@.len(),
            out@ == old(out)@ + enc_bytes(s@.take(i as int)),
        decreases s@.len() - i,
    {
        let b = s[i];
        proof {
            lemma_enc_bytes_push(s@.take(i as int), b);
            assert(s@.take(i as int).push(b) =~= s@.take(i + 1));
        }
        if unreserved(b) {
            out.push(b);
        } else if b == SPACE {
            out.push(PLUS);
        } else {
            out.push(PERCENT);
            out.push(hex_digit_exec(b / 16));
            out.push(hex_digit_exec(b % 16));
        }
        i += 1;
        assert(out@ =~= old(out)@ + enc_bytes(s@.take(i as int)));
    }
    proof {
        assert(s@.take(s@.len() as int) =~= s@);
    }
}

/// Encodes a list of key/value pairs as a form-urlencoded byte string.
pub fn encode_form_pairs(ps: &Vec<(Vec<u8>, Vec<u8>)>) -> (r: Vec<u8>)
    ensures
        r@ == enc_pairs(pairs_view(ps@)),
{
    let mut out: Vec<u8> = Vec::new();
    let mut i: usize = 0;
    while i < ps.len()
        invariant
            i <= ps@.len(),
            out@ == enc_pairs(pairs_view(ps@.take(i as int))),
        decreases ps@.len() - i,
    {
        proof {
            lemma_enc_pairs_push(
                pairs_view(ps@.take(i as int)),
                (ps@[i as int].0@, ps@[i as int].1@),
            );
            assert(pairs_view(ps@.take(i as int)).push((ps@[i as int].0@, ps@[i as int].1@))
                =~= pairs_view(ps@.take(i + 1)));
        }
        if i > 0 {
            out.push(AMPERSAND);
        }
        encode_bytes_into(&mut out, &ps[i].0);
        out.push(EQUALS);
        encode_bytes_into(&mut out, &ps[i].1);
        i += 1;
        assert(out@ =~= enc_pairs(pairs_view(ps@.take(i as int))));
    }
    proof {
        assert(ps@.take(ps@.len() as int) =~= ps@);
    }
    out
}

} // verus!
