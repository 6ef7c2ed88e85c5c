use base64::Engine;
use vstd::prelude::*;

use crate::error::PipelineError;

verus! {

/// Code point of the symbol that stands for a six-bit value in the standard
/// base64 alphabet (`A-Z`, `a-z`, `0-9`, `+`, `/`).
pub open spec fn symbol_code(v: u8) -> u32 {
    if v < 26 {
        (65 + v) as u32
    } else if v < 52 {
        (71 + v) as u32
    } else if v < 62 {
        (v - 4) as u32
    } else if v == 62 {
        43
    } else {
        47
    }
}

pub open spec fn symbol(v: u8) -> char {
    symbol_code(v) as char
}

/// The padding symbol.
pub open spec fn pad() -> char {
    '='
}

/// The four symbols for a full group of three bytes.
pub open spec fn full_group(a: u8, b: u8, c: u8) -> Seq<char> {
    seq![
        symbol(a >> 2),
        symbol(((a & 3) << 4) | (b >> 4)),
        symbol(((b & 15) << 2) | (c >> 6)),
        symbol(c & 63),
    ]
}

/// Standard padded base64 (RFC 4648, section 4): each group of three bytes
/// becomes four symbols; a last group of one or two bytes is padded with `=`.
pub open spec fn base64_encoding(b: Seq<u8>) -> Seq<char>
    decreases b.len(),
{
    if b.len() == 0 {
        seq![]
    } else if b.len() == 1 {
        seq![symbol(b[0] >> 2), symbol((b[0] & 3) << 4), pad(), pad()]
    } else if b.len() == 2 {
        seq![symbol(b[0] >> 2), symbol(((b[0] & 3) << 4) | (b[1] >> 4)), symbol((b[1] & 15) << 2), pad()]
    } else {
        full_group(b[0], b[1], b[2]) + base64_encoding(b.subrange(3, b.len() as int))
    }
}

/// The text is the encoding of some byte sequence.
pub open spec fn is_base64(s: Seq<char>) -> bool {
    exists|b: Seq<u8>| base64_encoding(b) == s
}

/// The bytes that a text encodes, if it encodes any.
pub open spec fn base64_decoding(s: Seq<char>) -> Option<Seq<u8>> {
    if is_base64(s) {
        Some(choose|b: Seq<u8>| base64_encoding(b) == s)
    } else {
        None
    }
}

proof fn lemma_symbol_injective(a: u8, b: u8)
    requires
        a < 64,
        b < 64,
        symbol(a) == symbol(b),
    ensures
        a == b,
{
    assert(symbol_code(a) as char == symbol_code(b) as char);
}

proof fn lemma_symbol_not_pad(a: u8)
    requires
        a < 64,
    ensures
        symbol(a) != pad(),
{
    if symbol(a) == pad() {
        assert(symbol_code(a) as char == 61u32 as char);
    }
}

/// The length of an encoding is four symbols per started group of three bytes.
pub proof fn lemma_encoding_len(b: Seq<u8>)
    ensures
        base64_encoding(b).len() == 4 * ((b.len() + 2) / 3),
    decreases b.len(),
{
    if b.len() >= 3 {
        lemma_encoding_len(b.subrange(3, b.len() as int));
    }
}

/// Every symbol of an encoding is a letter, a digit, `+`, `/` or `=`.
pub proof fn lemma_encoding_alphabet(b: Seq<u8>, i: int)
    requires
        0 <= i < base64_encoding(b).len(),
    ensures
        base64_encoding(b)[i] == pad() || exists|v: u8| v < 64 && base64_encoding(b)[i] == symbol(v),
    decreases b.len(),
{
    let e = base64_encoding(b);
    if b.len() == 1 {
        let x = b[0];
        lemma_sextets_below(x, 0, 0);
        if i == 0 {
            assert(e[i] == symbol(x >> 2));
        } else if i == 1 {
            assert(e[i] == symbol((x & 3) << 4));
        }
    } else if b.len() == 2 {
        let (x, y) = (b[0], b[1]);
        lemma_sextets_below(x, y, 0);
        if i == 0 {
            assert(e[i] == symbol(x >> 2));
        } else if i == 1 {
            assert(e[i] == symbol(((x & 3) << 4) | (y >> 4)));
        } else if i == 2 {
            assert(e[i] == symbol((y & 15) << 2));
        }
    } else if b.len() >= 3 {
        let (x, y, z) = (b[0], b[1], b[2]);
        let rest = b.subrange(3, b.len() as int);
        lemma_sextets_below(x, y, z);
        if i == 0 {
            assert(e[i] == symbol(x >> 2));
        } else if i == 1 {
            assert(e[i] == symbol(((x & 3) << 4) | (y >> 4)));
        } else if i == 2 {
            assert(e[i] == symbol(((y & 15) << 2) | (z >> 6)));
        } else if i == 3 {
            assert(e[i] == symbol(z & 63));
        } else {
            lemma_encoding_alphabet(rest, i - 4);
            assert(e[i] == base64_encoding(rest)[i - 4]);
        }
    }
}

proof fn lemma_sextets_below(x: u8, y: u8, z: u8)
    ensures
        x >> 2 < 64,
        (x & 3) << 4 < 64,
        ((x & 3) << 4) | (y >> 4) < 64,
        (y & 15) << 2 < 64,
        ((y & 15) << 2) | (z >> 6) < 64,
        z & 63 < 64,
{
    assert(x >> 2 < 64 && (x & 3) << 4 < 64 && ((x & 3) << 4) | (y >> 4) < 64 && (y & 15) << 2 < 64
        && ((y & 15) << 2) | (z >> 6) < 64 && z & 63 < 64) by (bit_vector);
}

/// Distinct byte sequences have distinct encodings.
pub proof fn lemma_encoding_injective(a: Seq<u8>, b: Seq<u8>)
    requires
        base64_encoding(a) == base64_encoding(b),
    ensures
        a == b,
    decreases a.len(),
{
    let e = base64_encoding(a);
    lemma_encoding_len(a);
    lemma_encoding_len(b);
    if a.len() == 0 || b.len() == 0 {
        assert(a.len() == 0 && b.len() == 0);
        assert(a =~= b);
        return;
    }
    let (x, y, z) = (a[0], if a.len() > 1 { a[1] } else { 0u8 }, if a.len() > 2 { a[2] } else { 0u8 });
    let (p, q, r) = (b[0], if b.len() > 1 { b[1] } else { 0u8 }, if b.len() > 2 { b[2] } else { 0u8 });
    lemma_sextets_below(x, y, z);
    lemma_sextets_below(p, q, r);
    if a.len() >= 3 && b.len() >= 3 {
        let ra = a.subrange(3, a.len() as int);
        let rb = b.subrange(3, b.len() as int);
        assert(e[0] == symbol(x >> 2) && e[0] == symbol(p >> 2));
        assert(e[1] == symbol(((x & 3) << 4) | (y >> 4)) && e[1] == symbol(((p & 3) << 4) | (q >> 4)));
        assert(e[2] == symbol(((y & 15) << 2) | (z >> 6)) && e[2] == symbol(((q & 15) << 2) | (r >> 6)));
        assert(e[3] == symbol(z & 63) && e[3] == symbol(r & 63));
        lemma_symbol_injective(x >> 2, p >> 2);
        lemma_symbol_injective(((x & 3) << 4) | (y >> 4), ((p & 3) << 4) | (q >> 4));
        lemma_symbol_injective(((y & 15) << 2) | (z >> 6), ((q & 15) << 2) | (r >> 6));
        lemma_symbol_injective(z & 63, r & 63);
        assert(x == p && y == q && z == r) by (bit_vector)
            requires
                x >> 2 == p >> 2,
                ((x & 3) << 4) | (y >> 4) == ((p & 3) << 4) | (q >> 4),
                ((y & 15) << 2) | (z >> 6) == ((q & 15) << 2) | (r >> 6),
                z & 63 == r & 63,
        ;
        assert(base64_encoding(ra) =~= e.subrange(4, e.len() as int));
        assert(base64_encoding(rb) =~= e.subrange(4, e.len() as int));
        lemma_encoding_injective(ra, rb);
        assert forall|i: int| 0 <= i < a.len() implies a[i] == b[i] by {
            if i >= 3 {
                assert(a[i] == ra[i - 3] && b[i] == rb[i - 3]);
            }
        }
        assert(a =~= b);
        return;
    }
    // A last group of one or two bytes shows its length by its padding.
    if a.len() == 1 {
        lemma_symbol_not_pad(((q & 15) << 2) | (r >> 6));
        lemma_symbol_not_pad((q & 15) << 2);
        assert(e[2] == pad());
    } else if a.len() == 2 {
        lemma_symbol_not_pad(((y & 15) << 2) | (z >> 6));
        lemma_symbol_not_pad((y & 15) << 2);
        lemma_symbol_not_pad(r & 63);
        assert(e[3] == pad());
        assert(e[2] == symbol((y & 15) << 2));
    } else {
        lemma_symbol_not_pad(z & 63);
        lemma_symbol_not_pad(((y & 15) << 2) | (z >> 6));
        assert(e[3] == symbol(z & 63));
    }
    assert(a.len() == b.len());
    assert(e[0] == symbol(x >> 2) && e[0] == symbol(p >> 2));
    lemma_symbol_injective(x >> 2, p >> 2);
    if a.len() == 1 {
        assert(e[1] == symbol((x & 3) << 4) && e[1] == symbol((p & 3) << 4));
        lemma_symbol_injective((x & 3) << 4, (p & 3) << 4);
        assert(x == p) by (bit_vector)
            requires
                x >> 2 == p >> 2,
                (x & 3) << 4 == (p & 3) << 4,
        ;
    } else {
        assert(e[1] == symbol(((x & 3) << 4) | (y >> 4)) && e[1] == symbol(((p & 3) << 4) | (q >> 4)));
        assert(e[2] == symbol((y & 15) << 2) && e[2] == symbol((q & 15) << 2));
        lemma_symbol_injective(((x & 3) << 4) | (y >> 4), ((p & 3) << 4) | (q >> 4));
        lemma_symbol_injective((y & 15) << 2, (q & 15) << 2);
        assert(x == p && y == q) by (bit_vector)
            requires
                x >> 2 == p >> 2,
                ((x & 3) << 4) | (y >> 4) == ((p & 3) << 4) | (q >> 4),
                (y & 15) << 2 == (q & 15) << 2,
        ;
    }
    assert(a =~= b);
}

/// Decoding the encoding of a byte sequence gives that sequence back.
pub proof fn lemma_round_trip(b: Seq<u8>)
    ensures
        base64_decoding(base64_encoding(b)) == Some(b),
{
    let s = base64_encoding(b);
    assert(is_base64(s));
    let c = choose|c: Seq<u8>| base64_encoding(c) == s;
    lemma_encoding_injective(c, b);
}

/// A letter, a digit, `+` or `/`: the symbols of the standard alphabet.
pub open spec fn in_alphabet(c: char) -> bool {
    ('A' <= c && c <= 'Z') || ('a' <= c && c <= 'z') || ('0' <= c && c <= '9') || c == '+' || c == '/'
}

proof fn lemma_symbol_in_alphabet(v: u8)
    requires
        v < 64,
    ensures
        in_alphabet(symbol(v)),
{
    vstd::utf8::char_u32_cast(symbol(v), symbol_code(v));
}

/// A text that holds a character outside the alphabet and the padding symbol
/// (a space, say) encodes nothing.
pub proof fn lemma_foreign_char_rejected(s: Seq<char>, i: int)
    requires
        0 <= i < s.len(),
        s[i] != pad(),
        !in_alphabet(s[i]),
    ensures
        base64_decoding(s) is None,
{
    if is_base64(s) {
        let b = choose|b: Seq<u8>| base64_encoding(b) == s;
        lemma_encoding_alphabet(b, i);
        if s[i] != pad() {
            let v = choose|v: u8| v < 64 && base64_encoding(b)[i] == symbol(v);
            lemma_symbol_in_alphabet(v);
        }
    }
}

#[verifier::external_type_specification]
#[verifier::external_body]
pub struct ExDecodeError(base64::DecodeError);

/// Relies on base64's `STANDARD` engine, `Engine::decode`: with canonical
/// padding required and trailing bits refused, it accepts exactly the padded
/// encodings of byte sequences and returns the bytes encoded.
#[verifier::external_body]
fn standard_decode(text: &str) -> (r: Result<Vec<u8>, base64::DecodeError>)
    ensures
        r matches Ok(v) ==> base64_encoding(v@) == text@,
        r is Err ==> !is_base64(text@),
{
    base64::engine::general_purpose::STANDARD.decode(text)
}

/// Relies on base64's `STANDARD` engine, `Engine::encode`: standard alphabet,
/// padded with `=`. It panics only where the output length overflows `usize`.
#[verifier::external_body]
fn standard_encode(bytes: &[u8]) -> (r: String)
    requires
        bytes@.len() <= usize::MAX / 4,
    ensures
        r@ == base64_encoding(bytes@),
{
    base64::engine::general_purpose::STANDARD.encode(bytes)
}

/// Turns base64 text into the bytes it encodes; fails with `MalformedInput`
/// on any text that is not a canonical padded encoding (a length that is not
/// a multiple of four, a foreign character, misplaced padding).
pub fn decode_text(text: &str) -> (r: Result<Vec<u8>, PipelineError>)
    ensures
        r is Ok <==> base64_decoding(text@) is Some,
        r matches Ok(v) ==> base64_decoding(text@) == Some(v@),
        r matches Err(e) ==> e == PipelineError::MalformedInput,
{
    match standard_decode(text) {
        Ok(v) => {
            proof {
                lemma_round_trip(v@);
            }
            Ok(v)
        },
        Err(_) => Err(PipelineError::MalformedInput),
    }
}

/// Turns bytes into padded base64 text. Never fails.
pub fn encode_bytes(bytes: &[u8]) -> (r: String)
    requires
        bytes@.len() <= usize::MAX / 4,
    ensures
        r@ == base64_encoding(bytes@),
{
    standard_encode(bytes)
}

} // verus!
