//! Base64 text.

use base64::Engine;

use vstd::prelude::*;

verus! {

/// The character that stands for six bits.
pub open spec fn base64_char(v: int) -> char {
    if v < 26 {
        (65 + v) as char
    } else if v < 52 {
        (97 + (v - 26)) as char
    } else if v < 62 {
        (48 + (v - 52)) as char
    } else if v == 62 {
        '+'
    } else {
        '/'
    }
}

/// The `i`-th group of six bits, most significant bits first; zero bits follow the
/// last byte.
pub open spec fn sextet(d: Seq<u8>, i: int) -> int {
    let k = i * 3 / 4;
    let hi = d[k] as int;
    let lo = if k + 1 < d.len() {
        d[k + 1] as int
    } else {
        0
    };
    if i % 4 == 0 {
        hi / 4
    } else if i % 4 == 1 {
        hi % 4 * 16 + lo / 16
    } else if i % 4 == 2 {
        hi % 16 * 4 + lo / 64
    } else {
        hi % 64
    }
}

/// The base64 text of some bytes, without padding.
pub open spec fn base64_text(d: Seq<u8>) -> Seq<char> {
    Seq::new(((d.len() * 4 + 2) / 3) as nat, |i: int| base64_char(sextet(d, i)))
}

pub open spec fn is_base64_char(c: char) -> bool {
    ||| 'A' <= c <= 'Z'
    ||| 'a' <= c <= 'z'
    ||| '0' <= c <= '9'
    ||| c == '+'
    ||| c == '/'
}

proof fn lemma_sextet_range(d: Seq<u8>, i: int)
    requires
        0 <= i < (d.len() * 4 + 2) / 3,
    ensures
        0 <= i * 3 / 4 < d.len(),
        0 <= sextet(d, i) < 64,
{
    let k = i * 3 / 4;
    assert(k < d.len());
}

/// Base64 text is made of letters, digits, `+` and `/`.
pub proof fn law_base64_alphabet(d: Seq<u8>, i: int)
    requires
        0 <= i < base64_text(d).len(),
    ensures
        is_base64_char(base64_text(d)[i]),
{
    lemma_sextet_range(d, i);
}

proof fn lemma_base64_char_injective(a: int, b: int)
    requires
        0 <= a < 64,
        0 <= b < 64,
        base64_char(a) == base64_char(b),
    ensures
        a == b,
{
    assert((base64_char(a) as int) == (base64_char(b) as int));
}

/// A byte is decided by the two groups that it reaches into.
proof fn lemma_byte_from_sextets(d: Seq<u8>, k: int)
    requires
        0 <= k < d.len(),
    ensures
        ({
            let i = k * 4 / 3;
            &&& 0 <= i
            &&& i + 1 < (d.len() * 4 + 2) / 3
            &&& d[k] == (if k % 3 == 0 {
                sextet(d, i) * 4 + sextet(d, i + 1) / 16
            } else if k % 3 == 1 {
                sextet(d, i) % 16 * 16 + sextet(d, i + 1) / 4
            } else {
                sextet(d, i) % 4 * 64 + sextet(d, i + 1)
            })
        }),
{
    let i = k * 4 / 3;
    if k % 3 == 0 {
        assert(i % 4 == 0 && i * 3 / 4 == k && (i + 1) * 3 / 4 == k && (i + 1) % 4 == 1);
    } else if k % 3 == 1 {
        assert(i % 4 == 1 && i * 3 / 4 == k - 1 && (i + 1) * 3 / 4 == k && (i + 1) % 4 == 2);
    } else {
        assert(i % 4 == 2 && i * 3 / 4 == k - 1 && (i + 1) * 3 / 4 == k && (i + 1) % 4 == 3);
    }
}

/// Different bytes have different base64 texts.
pub proof fn law_base64_is_injective(a: Seq<u8>, b: Seq<u8>)
    requires
        base64_text(a) == base64_text(b),
    ensures
        a == b,
{
    let n = base64_text(a).len();
    assert(n == ((a.len() * 4 + 2) / 3) as nat);
    assert(n == ((b.len() * 4 + 2) / 3) as nat);
    assert(a.len() == b.len());
    assert forall|i: int| 0 <= i < n implies sextet(a, i) == #[trigger] sextet(b, i) by {
        lemma_sextet_range(a, i);
        lemma_sextet_range(b, i);
        assert(base64_text(a)[i] == base64_char(sextet(a, i)));
        assert(base64_text(b)[i] == base64_char(sextet(b, i)));
        lemma_base64_char_injective(sextet(a, i), sextet(b, i));
    }
    assert forall|k: int| 0 <= k < a.len() implies a[k] == b[k] by {
        lemma_byte_from_sextets(a, k);
        lemma_byte_from_sextets(b, k);
        assert(sextet(a, k * 4 / 3) == sextet(b, k * 4 / 3));
        assert(sextet(a, k * 4 / 3 + 1) == sextet(b, k * 4 / 3 + 1));
    }
    assert(a =~= b);
}

/// Encodes without padding: `Engine::encode` of `base64`'s `STANDARD_NO_PAD`. The
/// text is the standard alphabet's, six bits to a character, with zero bits behind
/// the last byte. The bound keeps the length of the text in a machine word.
#[verifier::external_body]
pub(crate) fn base64_encode(data: &[u8]) -> (res: String)
    requires
        data@.len() <= 0x3FFF_FFFF,
    ensures
        res@ == base64_text(data@),
{
    base64::engine::general_purpose::STANDARD_NO_PAD.encode(data)
}

/// How many `=` make the text of `n` bytes a whole number of fours.
pub open spec fn padding(n: nat) -> nat {
    ((3 - n as int % 3) % 3) as nat
}

/// The base64 text of some bytes, with padding.
pub open spec fn padded_text(d: Seq<u8>) -> Seq<char> {
    base64_text(d) + Seq::new(padding(d.len()), |i: int| '=')
}

/// Different bytes have different padded texts.
pub proof fn law_padded_base64_is_injective(a: Seq<u8>, b: Seq<u8>)
    requires
        padded_text(a) == padded_text(b),
    ensures
        a == b,
{
    lemma_padding_starts_late(a, b);
    lemma_padding_starts_late(b, a);
    let n = base64_text(a).len() as int;
    assert(padded_text(a).take(n) =~= base64_text(a));
    assert(padded_text(b).take(n) =~= base64_text(b));
    law_base64_is_injective(a, b);
}

proof fn lemma_padding_starts_late(a: Seq<u8>, b: Seq<u8>)
    requires
        padded_text(a) == padded_text(b),
    ensures
        base64_text(a).len() >= base64_text(b).len(),
{
    let n = base64_text(a).len() as int;
    if n < base64_text(b).len() {
        law_base64_alphabet(b, n);
        assert(padded_text(b)[n] == base64_text(b)[n]);
        assert(padded_text(a)[n] == '=');
    }
}

/// The bytes that a text is the padded base64 text of, if it is that of any.
pub open spec fn base64_decoded(text: Seq<char>) -> Option<Seq<u8>> {
    if exists|d: Seq<u8>| text == #[trigger] padded_text(d) {
        Some(choose|d: Seq<u8>| text == #[trigger] padded_text(d))
    } else {
        None
    }
}

/// Decoding gives back what was encoded and padded.
pub proof fn law_decoding_undoes_encoding(d: Seq<u8>)
    ensures
        base64_decoded(padded_text(d)) == Some(d),
{
    let other = choose|e: Seq<u8>| padded_text(d) == #[trigger] padded_text(e);
    law_padded_base64_is_injective(d, other);
}

/// Decodes padded base64: `Engine::decode` of `base64`'s `STANDARD`. It asks for the
/// padding and for zero bits behind the last byte, so it gives exactly the bytes that the
/// text is the padded text of, and fails on every other text.
#[verifier::external_body]
fn decode_standard(text: &str) -> (res: Option<Vec<u8>>)
    ensures
        match res {
            Some(d) => text@ == padded_text(d@),
            None => forall|d: Seq<u8>| text@ != #[trigger] padded_text(d),
        },
{
    base64::engine::general_purpose::STANDARD.decode(text.as_bytes()).ok()
}

/// Decodes padded base64.
pub fn base64_decode(text: &str) -> (res: Option<Vec<u8>>)
    ensures
        match res {
            Some(d) => base64_decoded(text@) == Some(d@),
            None => base64_decoded(text@) is None,
        },
{
    let res = decode_standard(text);
    proof {
        if res is Some {
            let other = choose|e: Seq<u8>| text@ == #[trigger] padded_text(e);
            law_padded_base64_is_injective(res->0@, other);
        }
    }
    res
}

} // verus!
