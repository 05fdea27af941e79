//! Percent-encoding of bytes for use in a URL query value.

use vstd::prelude::*;

verus! {

/// Bytes that stand for themselves in a query value: ASCII letters,
/// digits, and `-`, `.`, `_`, `~`. Every other byte is written as a
/// percent sign followed by two uppercase hexadecimal digits.
pub open spec fn is_unreserved(b: u8) -> bool {
    (65 <= b <= 90) || (97 <= b <= 122) || (48 <= b <= 57) || b == 45 || b == 46 || b == 95
        || b == 126
}

/// The ASCII code of the uppercase hexadecimal digit for `n`.
pub open spec fn hex_digit(n: int) -> u8
    recommends
        0 <= n < 16,
{
    if n < 10 {
        (48 + n) as u8
    } else {
        (55 + n) as u8
    }
}

/// The numeric value of an ASCII hexadecimal digit, or -1 where `b` is none.
pub open spec fn hex_value(b: u8) -> int {
    if 48 <= b <= 57 {
        b - 48
    } else if 65 <= b <= 70 {
        b - 55
    } else if 97 <= b <= 102 {
        b - 87
    } else {
        -1
    }
}

/// Whether `b` is an ASCII hexadecimal digit, of either case.
pub open spec fn is_hex(b: u8) -> bool {
    hex_value(b) >= 0
}

/// How one byte is written in a query value.
pub open spec fn encode_byte(b: u8) -> Seq<u8> {
    if is_unreserved(b) {
        seq![b]
    } else {
        seq![37u8, hex_digit(b as int / 16), hex_digit(b as int % 16)]
    }
}

/// The percent-encoding of a byte sequence.
pub open spec fn percent_encoding(s: Seq<u8>) -> Seq<u8>
    decreases s.len(),
{
    if s.len() == 0 {
        Seq::empty()
    } else {
        encode_byte(s[0]) + percent_encoding(s.subrange(1, s.len() as int))
    }
}

/// The decoding of a percent-encoded sequence: `None` where a percent
/// sign is not followed by two hexadecimal digits.
pub open spec fn percent_decoding(s: Seq<u8>) -> Option<Seq<u8>>
    decreases s.len(),
{
    if s.len() == 0 {
        Some(Seq::empty())
    } else if s[0] == 37 {
        if s.len() >= 3 && is_hex(s[1]) && is_hex(s[2]) {
            match percent_decoding(s.subrange(3, s.len() as int)) {
                Some(rest) => Some(seq![(hex_value(s[1]) * 16 + hex_value(s[2])) as u8] + rest),
                None => None,
            }
        } else {
            None
        }
    } else {
        match percent_decoding(s.subrange(1, s.len() as int)) {
            Some(rest) => Some(seq![s[0]] + rest),
            None => None,
        }
    }
}

fn byte_is_unreserved(b: u8) -> (r: bool)
    ensures
        r == is_unreserved(b),
{
    (65 <= b && b <= 90) || (97 <= b && b <= 122) || (48 <= b && b <= 57) || b == 45 || b == 46
        || b == 95 || b == 126
}

fn hex_digit_of(n: u8) -> (r: u8)
    requires
        n < 16,
    ensures
        r == hex_digit(n as int),
{
    if n < 10 {
        48 + n
    } else {
        55 + n
    }
}

fn hex_value_of(b: u8) -> (r: Option<u8>)
    ensures
        is_hex(b) ==> (r matches Some(v) && v == hex_value(b)),
        !is_hex(b) ==> r is None,
{
    if 48 <= b && b <= 57 {
        Some(b - 48)
    } else if 65 <= b && b <= 70 {
        Some(b - 55)
    } else if 97 <= b && b <= 102 {
        Some(b - 87)
    } else {
        None
    }
}

proof fn lemma_percent_encoding_snoc(s: Seq<u8>, b: u8)
    ensures
        percent_encoding(s.push(b)) == percent_encoding(s) + encode_byte(b),
    decreases s.len(),
{
    if s.len() == 0 {
        assert(s.push(b)[0] == b);
        assert(s.push(b).subrange(1, s.push(b).len() as int) =~= Seq::<u8>::empty());
        assert(percent_encoding(Seq::<u8>::empty()) == Seq::<u8>::empty());
        assert(percent_encoding(s.push(b)) == encode_byte(b) + Seq::<u8>::empty());
        assert(encode_byte(b) + Seq::<u8>::empty() =~= Seq::<u8>::empty() + encode_byte(b));
    } else {
        lemma_percent_encoding_snoc(s.subrange(1, s.len() as int), b);
        assert(s.push(b).subrange(1, s.push(b).len() as int) =~= s.subrange(
            1,
            s.len() as int,
        ).push(b));
        assert(percent_encoding(s.push(b)) =~= percent_encoding(s) + encode_byte(b));
    }
}

/// Percent-encode `input` for use as a URL query value.
pub fn percent_encode(input: &[u8]) -> (out: Vec<u8>)
    ensures
        out@ == percent_encoding(input@),
{
    let mut out: Vec<u8> = Vec::new();
    let mut i: usize = 0;
    while i < input.len()
        invariant
            i <= input@.len(),
            out@ == percent_encoding(input@.take(i as int)),
        decreases input@.len() - i,
    {
        let b = input[i];
        proof {
            lemma_percent_encoding_snoc(input@.take(i as int), b);
            assert(input@.take(i as int).push(b) =~= input@.take(i as int + 1));
        }
        if byte_is_unreserved(b) {
            out.push(b);
            assert(out@ =~= percent_encoding(input@.take(i as int)) + encode_byte(b));
        } else {
            out.push(37);
            out.push(hex_digit_of(b / 16));
            out.push(hex_digit_of(b % 16));
            assert(out@ =~= percent_encoding(input@.take(i as int)) + encode_byte(b));
        }
        i = i + 1;
    }
    proof {
        assert(input@.take(input@.len() as int) =~= input@);
    }
    out
}

/// `rest` with `prefix` already decoded in front of it, or `None` where
/// the remainder does not decode.
spec fn decode_prepend(prefix: Seq<u8>, rest: Option<Seq<u8>>) -> Option<Seq<u8>> {
    match rest {
        Some(t) => Some(prefix + t),
        None => None,
    }
}

/// Decode a percent-encoded query value back to the bytes it was built
/// from; `None` where a percent sign is not followed by two hexadecimal
/// digits.
pub fn percent_decode(input: &[u8]) -> (out: Option<Vec<u8>>)
    ensures
        out matches Some(v) ==> percent_decoding(input@) == Some(v@),
        out is None ==> percent_decoding(input@) is None,
{
    let mut out: Vec<u8> = Vec::new();
    let mut i: usize = 0;
    proof {
        assert(input@.skip(0) =~= input@);
        match percent_decoding(input@) {
            Some(t) => {
                assert(Seq::<u8>::empty() + t =~= t);
            },
            None => {},
        }
    }
    while i < input.len()
        invariant
            i <= input@.len(),
            percent_decoding(input@) == decode_prepend(
                out@,
                percent_decoding(input@.skip(i as int)),
            ),
        decreases input@.len() - i,
    {
        let ghost s = input@.skip(i as int);
        proof {
            assert(s.len() == input@.len() - i);
            assert(s[0] == input@[i as int]);
        }
        let b = input[i];
        if b == 37 {
            if input.len() - i < 3 {
                proof {
                    assert(percent_decoding(s) is None);
                }
                return None;
            }
            proof {
                assert(s[1] == input@[i as int + 1]);
                assert(s[2] == input@[i as int + 2]);
                assert(s.subrange(3, s.len() as int) =~= input@.skip(i as int + 3));
            }
            let h1 = hex_value_of(input[i + 1]);
            let h2 = hex_value_of(input[i + 2]);
            match (h1, h2) {
                (Some(v1), Some(v2)) => {
                    let v: u8 = v1 * 16 + v2;
                    proof {
                        match percent_decoding(input@.skip(i as int + 3)) {
                            Some(rest) => {
                                assert(out@.push(v) + rest =~= out@ + (seq![v] + rest));
                            },
                            None => {},
                        }
                    }
                    out.push(v);
                    i = i + 3;
                },
                _ => {
                    proof {
                        assert(percent_decoding(s) is None);
                    }
                    return None;
                },
            }
        } else {
            proof {
                assert(s.subrange(1, s.len() as int) =~= input@.skip(i as int + 1));
                match percent_decoding(input@.skip(i as int + 1)) {
                    Some(rest) => {
                        assert(out@.push(b) + rest =~= out@ + (seq![b] + rest));
                    },
                    None => {},
                }
            }
            out.push(b);
            i = i + 1;
        }
    }
    proof {
        assert(input@.skip(input@.len() as int) =~= Seq::<u8>::empty());
        assert(out@ + Seq::<u8>::empty() =~= out@);
    }
    Some(out)
}

proof fn lemma_hex_digit_value(n: int)
    requires
        0 <= n < 16,
    ensures
        is_hex(hex_digit(n)),
        hex_value(hex_digit(n)) == n,
{
}

/// Decoding inverts encoding: the bytes written into a query value come
/// back exactly, whatever they were.
pub proof fn lemma_percent_round_trip(s: Seq<u8>)
    ensures
        percent_decoding(percent_encoding(s)) == Some(s),
    decreases s.len(),
{
    if s.len() == 0 {
        assert(percent_encoding(s) =~= Seq::<u8>::empty());
        assert(Seq::<u8>::empty() =~= s);
    } else {
        let b = s[0];
        let rest = s.subrange(1, s.len() as int);
        lemma_percent_round_trip(rest);
        let e = percent_encoding(s);
        if is_unreserved(b) {
            assert(b != 37);
            assert(e[0] == b);
            assert(e.subrange(1, e.len() as int) =~= percent_encoding(rest));
            assert(seq![b] + rest =~= s);
        } else {
            lemma_hex_digit_value(b as int / 16);
            lemma_hex_digit_value(b as int % 16);
            assert(e.len() >= 3);
            assert(e[0] == 37);
            assert(e[1] == hex_digit(b as int / 16));
            assert(e[2] == hex_digit(b as int % 16));
            assert(hex_value(e[1]) * 16 + hex_value(e[2]) == b as int);
            assert(e.subrange(3, e.len() as int) =~= percent_encoding(rest));
            assert(seq![b] + rest =~= s);
        }
    }
}

/// Encoding is injective: two terms with the same encoding are the same
/// term.
pub proof fn lemma_percent_encoding_injective(a: Seq<u8>, b: Seq<u8>)
    requires
        percent_encoding(a) == percent_encoding(b),
    ensures
        a == b,
{
    lemma_percent_round_trip(a);
    lemma_percent_round_trip(b);
}

} // verus!
