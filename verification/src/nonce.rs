//! Random identifiers: session ids in hexadecimal, client nonces in base64.

use crate::frame::fits_wrapper;
use vstd::prelude::*;

verus! {

/// `getrandom::getrandom` fills a buffer from the random source of the system.
/// The sixteen bytes are whatever came; where the source fails, the buffer may
/// be left at zero or filled in part. Nothing is claimed but their number.
#[verifier::external_body]
fn random_bytes() -> (r: Vec<u8>)
    ensures
        r@.len() == 16,
{
    let mut buf = [0u8; 16];
    getrandom::getrandom(&mut buf).unwrap_or(());
    buf.to_vec()
}

// -- Hexadecimal -----------------------------------------------------------------

/// The lowercase hexadecimal digit for `d`, which is below sixteen.
pub open spec fn hex_digit(d: u8) -> char {
    if d < 10 {
        ((48 + d) as u8) as char
    } else {
        ((87 + d) as u8) as char
    }
}

/// Two lowercase hexadecimal digits a byte.
pub open spec fn hex(bytes: Seq<u8>) -> Seq<char>
    decreases bytes.len(),
{
    if bytes.len() == 0 {
        Seq::empty()
    } else {
        hex(bytes.drop_last()) + seq![hex_digit(bytes.last() / 16), hex_digit(bytes.last() % 16)]
    }
}

fn hex_char(d: u8) -> (r: char)
    requires
        d < 16,
    ensures
        r == hex_digit(d),
{
    if d < 10 {
        (48 + d) as char
    } else {
        (87 + d) as char
    }
}

/// Lowercase hexadecimal text of `bytes`.
pub fn hex_text(bytes: &[u8]) -> (r: String)
    ensures
        r@ == hex(bytes@),
{
    let mut out: String = String::new();
    let mut i: usize = 0;
    while i < bytes.len()
        invariant
            i <= bytes@.len(),
            out@ == hex(bytes@.take(i as int)),
        decreases bytes@.len() - i,
    {
        let b: u8 = bytes[i];
        let ghost before = out@;
        out.push(hex_char(b / 16));
        out.push(hex_char(b % 16));
        proof {
            assert(bytes@.take(i + 1).drop_last() == bytes@.take(i as int));
            assert(out@ == before + seq![hex_digit(b / 16), hex_digit(b % 16)]);
        }
        i = i + 1;
    }
    assert(bytes@.take(i as int) == bytes@);
    out
}

/// `id` is a session id: the hexadecimal text of sixteen bytes.
pub open spec fn is_session_id(id: Seq<char>) -> bool {
    exists|bytes: Seq<u8>| bytes.len() == 16 && id == #[trigger] hex(bytes)
}

/// Generates a 16-byte random session id as a lowercase hex string.
pub fn make_session_id() -> (r: String)
    ensures
        is_session_id(r@),
{
    let bytes: Vec<u8> = random_bytes();
    hex_text(bytes.as_slice())
}

/// Hexadecimal text has two digits a byte, and nothing else.
pub proof fn law_hex_digits(bytes: Seq<u8>)
    ensures
        hex(bytes).len() == 2 * bytes.len(),
        forall|i: int|
            0 <= i < hex(bytes).len() ==> ('0' <= #[trigger] hex(bytes)[i] <= '9' || 'a'
                <= hex(bytes)[i] <= 'f'),
    decreases bytes.len(),
{
    if bytes.len() > 0 {
        law_hex_digits(bytes.drop_last());
        let b = bytes.last();
        assert(b / 16 < 16 && b % 16 < 16);
        let before = hex(bytes.drop_last());
        assert(hex(bytes) == before + seq![hex_digit(b / 16), hex_digit(b % 16)]);
        assert forall|i: int| 0 <= i < hex(bytes).len() implies ('0' <= #[trigger] hex(bytes)[i]
            <= '9' || 'a' <= hex(bytes)[i] <= 'f') by {
            if i < before.len() {
                assert(hex(bytes)[i] == before[i]);
            }
        }
    }
}

/// A session id is thirty-two characters long, and can stand in a wrapper.
pub proof fn law_session_id_fits(id: Seq<char>)
    requires
        is_session_id(id),
    ensures
        id.len() == 32,
        fits_wrapper(id),
{
    let bytes = choose|bytes: Seq<u8>| bytes.len() == 16 && id == #[trigger] hex(bytes);
    law_hex_digits(bytes);
}

// -- Base64 ----------------------------------------------------------------------

/// The base64 character for `d`, which is below sixty-four.
pub open spec fn b64_digit(d: nat) -> char {
    if d < 26 {
        ((65 + d) as u8) as char
    } else if d < 52 {
        ((71 + d) as u8) as char
    } else if d < 62 {
        ((d - 4) as u8) as char
    } else if d == 62 {
        '+'
    } else {
        '/'
    }
}

/// One group of one to three bytes: four characters, of which those that stand
/// for no byte are `=`.
pub open spec fn b64_group(g: Seq<u8>) -> Seq<char> {
    let a = g[0] as nat;
    let b = if g.len() > 1 {
        g[1] as nat
    } else {
        0
    };
    let c = if g.len() > 2 {
        g[2] as nat
    } else {
        0
    };
    let n = a * 65536 + b * 256 + c;
    seq![
        b64_digit(n / 262144),
        b64_digit(n / 4096 % 64),
        if g.len() > 1 {
            b64_digit(n / 64 % 64)
        } else {
            '='
        },
        if g.len() > 2 {
            b64_digit(n % 64)
        } else {
            '='
        },
    ]
}

/// Standard padded base64.
pub open spec fn base64(bytes: Seq<u8>) -> Seq<char>
    decreases bytes.len(),
{
    if bytes.len() == 0 {
        Seq::empty()
    } else if bytes.len() <= 3 {
        b64_group(bytes)
    } else {
        b64_group(bytes.take(3)) + base64(bytes.skip(3))
    }
}

fn b64_char(d: u32) -> (r: char)
    requires
        d < 64,
    ensures
        r == b64_digit(d as nat),
{
    if d < 26 {
        ((65 + d) as u8) as char
    } else if d < 52 {
        ((71 + d) as u8) as char
    } else if d < 62 {
        ((d - 4) as u8) as char
    } else if d == 62 {
        '+'
    } else {
        '/'
    }
}

/// Standard padded base64, for the client nonce.
pub fn b64(input: &[u8]) -> (r: String)
    ensures
        r@ == base64(input@),
{
    let len: usize = input.len();
    let mut out: String = String::new();
    let mut i: usize = 0;
    assert(input@.skip(0) == input@);
    while i < len
        invariant
            len == input@.len(),
            i <= len,
            base64(input@) == out@ + base64(input@.skip(i as int)),
        decreases len - i,
    {
        let left: usize = len - i;
        let a: u32 = input[i] as u32;
        let b: u32 = if left > 1 {
            input[i + 1] as u32
        } else {
            0
        };
        let c: u32 = if left > 2 {
            input[i + 2] as u32
        } else {
            0
        };
        let n: u32 = a * 65536 + b * 256 + c;
        let ghost before = out@;
        let ghost tail = input@.skip(i as int);
        out.push(b64_char(n / 262144));
        out.push(b64_char(n / 4096 % 64));
        out.push(
            if left > 1 {
                b64_char(n / 64 % 64)
            } else {
                '='
            },
        );
        out.push(
            if left > 2 {
                b64_char(n % 64)
            } else {
                '='
            },
        );
        let step: usize = if left > 3 {
            3
        } else {
            left
        };
        proof {
            let g = if left > 3 {
                tail.take(3)
            } else {
                tail
            };
            assert(out@ == before + b64_group(g));
            assert(tail.skip(step as int) == input@.skip(i + step));
            if left > 3 {
                assert(base64(tail) == b64_group(g) + base64(input@.skip(i + step)));
            } else {
                assert(input@.skip(i + step) == Seq::<u8>::empty());
                assert(base64(tail) == b64_group(g));
                assert(base64(input@.skip(i + step)) == Seq::<char>::empty());
            }
            assert(before + (b64_group(g) + base64(input@.skip(i + step))) == (before + b64_group(
                g,
            )) + base64(input@.skip(i + step)));
        }
        i = i + step;
    }
    assert(base64(input@.skip(i as int)) == Seq::<char>::empty());
    out
}

/// Base64 has four characters for each group of three bytes, the last of which
/// may be short.
pub proof fn law_base64_length(bytes: Seq<u8>)
    ensures
        base64(bytes).len() == 4 * ((bytes.len() + 2) / 3),
    decreases bytes.len(),
{
    if bytes.len() > 3 {
        law_base64_length(bytes.skip(3));
    }
}

/// A base64 character stands for one number, and is not the padding.
proof fn lemma_b64_digit(d: nat, e: nat)
    requires
        d < 64,
        e < 64,
    ensures
        b64_digit(d) == b64_digit(e) ==> d == e,
        b64_digit(d) != '=',
{
}

/// The twelve, eighteen or twenty-four highest bits of three bytes give the
/// first, the first two, or all three.
proof fn lemma_three_bytes(a: nat, b: nat, c: nat, n: nat)
    requires
        a < 256,
        b < 256,
        c < 256,
        n == a * 65536 + b * 256 + c,
    ensures
        n < 16777216,
        n / 4096 == 64 * (n / 262144) + n / 4096 % 64,
        n / 64 == 64 * (n / 4096) + n / 64 % 64,
        n == 64 * (n / 64) + n % 64,
        a == n / 4096 / 16,
        a * 256 + b == n / 64 / 4,
{
}

/// The number that three bytes make, of which those that are missing are zero.
spec fn group_number(g: Seq<u8>) -> nat {
    g[0] as nat * 65536 + (if g.len() > 1 {
        g[1] as nat
    } else {
        0
    }) * 256 + (if g.len() > 2 {
        g[2] as nat
    } else {
        0
    })
}

/// Two groups with the same text are the same.
proof fn lemma_b64_group_injective(g: Seq<u8>, h: Seq<u8>)
    requires
        1 <= g.len() <= 3,
        1 <= h.len() <= 3,
        b64_group(g) == b64_group(h),
    ensures
        g == h,
{
    let x = b64_group(g);
    let y = b64_group(h);
    let n = group_number(g);
    let m = group_number(h);
    let b: nat = if g.len() > 1 {
        g[1] as nat
    } else {
        0
    };
    let c: nat = if g.len() > 2 {
        g[2] as nat
    } else {
        0
    };
    let e: nat = if h.len() > 1 {
        h[1] as nat
    } else {
        0
    };
    let f: nat = if h.len() > 2 {
        h[2] as nat
    } else {
        0
    };
    lemma_three_bytes(g[0] as nat, b, c, n);
    lemma_three_bytes(h[0] as nat, e, f, m);
    assert(x[0] == y[0] && x[1] == y[1] && x[2] == y[2] && x[3] == y[3]);
    lemma_b64_digit(n / 262144, m / 262144);
    lemma_b64_digit(n / 4096 % 64, m / 4096 % 64);
    lemma_b64_digit(n / 64 % 64, m / 64 % 64);
    lemma_b64_digit(m / 64 % 64, n / 64 % 64);
    lemma_b64_digit(n % 64, m % 64);
    lemma_b64_digit(m % 64, n % 64);
    assert(g.len() == h.len());
    assert(n / 4096 == m / 4096);
    assert(g[0] == h[0]);
    if g.len() > 1 {
        assert(n / 64 == m / 64);
        assert(g[1] == h[1]);
    }
    if g.len() > 2 {
        assert(n == m);
        assert(g[2] == h[2]);
    }
    assert(g =~= h);
}

/// Base64 loses nothing: bytes with the same text are the same.
pub proof fn law_base64_is_injective(a: Seq<u8>, b: Seq<u8>)
    requires
        base64(a) == base64(b),
    ensures
        a == b,
    decreases a.len(),
{
    law_base64_length(a);
    law_base64_length(b);
    if a.len() == 0 || b.len() == 0 {
        assert(a =~= b);
    } else {
        let g = if a.len() > 3 {
            a.take(3)
        } else {
            a
        };
        let h = if b.len() > 3 {
            b.take(3)
        } else {
            b
        };
        assert(base64(a).take(4) =~= b64_group(g));
        assert(base64(b).take(4) =~= b64_group(h));
        lemma_b64_group_injective(g, h);
        if a.len() > 3 {
            assert(b.len() > 3);
            assert(base64(a).skip(4) =~= base64(a.skip(3)));
            assert(base64(b).skip(4) =~= base64(b.skip(3)));
            law_base64_is_injective(a.skip(3), b.skip(3));
            assert(a =~= a.take(3) + a.skip(3));
            assert(b =~= b.take(3) + b.skip(3));
        } else {
            assert(b.len() <= 3);
        }
    }
}

/// `nonce` is a client nonce: the base64 text of sixteen bytes.
pub open spec fn is_cnonce(nonce: Seq<char>) -> bool {
    exists|bytes: Seq<u8>| bytes.len() == 16 && nonce == #[trigger] base64(bytes)
}

/// A fresh 16-byte client nonce, base64-encoded, as a session's authentication
/// wants it.
pub fn make_cnonce() -> (r: String)
    ensures
        is_cnonce(r@),
{
    let bytes: Vec<u8> = random_bytes();
    b64(bytes.as_slice())
}

/// A client nonce is twenty-four characters long.
pub proof fn law_cnonce_length(nonce: Seq<char>)
    requires
        is_cnonce(nonce),
    ensures
        nonce.len() == 24,
{
    let bytes = choose|bytes: Seq<u8>| bytes.len() == 16 && nonce == #[trigger] base64(bytes);
    law_base64_length(bytes);
}

// -- What the digits stand for ---------------------------------------------------

/// The value of a hexadecimal digit.
pub open spec fn hex_value(c: char) -> int {
    if '0' <= c <= '9' {
        c as int - 48
    } else {
        c as int - 87
    }
}

/// Each byte is written as its two digits, the higher one first.
pub proof fn law_hex_writes_each_byte(bytes: Seq<u8>, i: int)
    requires
        0 <= i < bytes.len(),
    ensures
        hex(bytes).len() == 2 * bytes.len(),
        hex_value(hex(bytes)[2 * i]) * 16 + hex_value(hex(bytes)[2 * i + 1]) == bytes[i],
    decreases bytes.len(),
{
    law_hex_digits(bytes);
    law_hex_digits(bytes.drop_last());
    let before = hex(bytes.drop_last());
    let b = bytes.last();
    assert(b / 16 < 16 && b % 16 < 16 && b == (b / 16) * 16 + b % 16);
    assert(hex(bytes) == before + seq![hex_digit(b / 16), hex_digit(b % 16)]);
    if i < bytes.len() - 1 {
        law_hex_writes_each_byte(bytes.drop_last(), i);
        assert(hex(bytes)[2 * i] == before[2 * i]);
        assert(hex(bytes)[2 * i + 1] == before[2 * i + 1]);
    } else {
        assert(hex(bytes)[2 * i] == hex_digit(b / 16));
        assert(hex(bytes)[2 * i + 1] == hex_digit(b % 16));
    }
}

/// The value of a base64 digit, in the standard alphabet: the capital letters, the
/// small ones, the decimal digits, plus and slash.
pub open spec fn b64_value(c: char) -> int {
    if 'A' <= c <= 'Z' {
        c as int - 65
    } else if 'a' <= c <= 'z' {
        c as int - 97 + 26
    } else if '0' <= c <= '9' {
        c as int - 48 + 52
    } else if c == '+' {
        62
    } else {
        63
    }
}

/// Three bytes are written as four digits of six bits each, then the rest is
/// written.
pub proof fn law_base64_writes_three_bytes(a: u8, b: u8, c: u8, rest: Seq<u8>)
    ensures
        ({
            let text = base64(seq![a, b, c] + rest);
            &&& text.len() == 4 + base64(rest).len()
            &&& text.skip(4) == base64(rest)
            &&& b64_value(text[0]) == a / 4 && is_b64(text[0])
            &&& b64_value(text[1]) == (a % 4) * 16 + b / 16 && is_b64(text[1])
            &&& b64_value(text[2]) == (b % 16) * 4 + c / 64 && is_b64(text[2])
            &&& b64_value(text[3]) == c % 64 && is_b64(text[3])
        }),
{
    let three = seq![a, b, c];
    let all = three + rest;
    lemma_six_bits(a as u32, b as u32, c as u32);
    let n = a as nat * 65536 + b as nat * 256 + c as nat;
    lemma_b64_value(n / 262144);
    lemma_b64_value(n / 4096 % 64);
    lemma_b64_value(n / 64 % 64);
    lemma_b64_value(n % 64);
    assert(b64_group(three).len() == 4);
    if rest.len() == 0 {
        assert(all =~= three);
        assert(rest =~= Seq::empty());
    } else {
        assert(all.take(3) =~= three);
        assert(all.skip(3) =~= rest);
    }
    assert(base64(all) =~= b64_group(three) + base64(rest));
    assert(base64(all).skip(4) =~= base64(rest));
}

/// One or two bytes at the end are filled up with `=`.
pub proof fn law_base64_fills_up_the_end(a: u8, b: u8)
    ensures
        ({
            let text = base64(seq![a, b]);
            &&& text.len() == 4 && text[3] == '='
            &&& b64_value(text[0]) == a / 4 && is_b64(text[0])
            &&& b64_value(text[1]) == (a % 4) * 16 + b / 16 && is_b64(text[1])
            &&& b64_value(text[2]) == (b % 16) * 4 && is_b64(text[2])
        }),
        ({
            let text = base64(seq![a]);
            &&& text.len() == 4 && text[2] == '=' && text[3] == '='
            &&& b64_value(text[0]) == a / 4 && is_b64(text[0])
            &&& b64_value(text[1]) == (a % 4) * 16 && is_b64(text[1])
        }),
        base64(Seq::empty()).len() == 0,
{
    lemma_six_bits(a as u32, b as u32, 0);
    lemma_six_bits(a as u32, 0, 0);
    let m = a as nat * 65536 + b as nat * 256;
    lemma_b64_value(m / 262144);
    lemma_b64_value(m / 4096 % 64);
    lemma_b64_value(m / 64 % 64);
    let l = a as nat * 65536;
    lemma_b64_value(l / 262144);
    lemma_b64_value(l / 4096 % 64);
    assert(base64(seq![a, b]) == b64_group(seq![a, b]));
    assert(base64(seq![a]) == b64_group(seq![a]));
}

proof fn lemma_b64_value(d: nat)
    requires
        d < 64,
    ensures
        b64_value(b64_digit(d)) == d,
        is_b64(b64_digit(d)),
{
}

proof fn lemma_six_bits(a: u32, b: u32, c: u32)
    requires
        a < 256,
        b < 256,
        c < 256,
    ensures
        ({
            let n = a as nat * 65536 + b as nat * 256 + c as nat;
            &&& n / 262144 == a / 4
            &&& n / 4096 % 64 == (a % 4) * 16 + b / 16
            &&& n / 64 % 64 == (b % 16) * 4 + c / 64
            &&& n % 64 == c % 64
        }),
{
    let n: u32 = (a * 65536 + b * 256 + c) as u32;
    assert(n / 262144 == a / 4 && (n / 4096) % 64 == (a % 4) * 16 + b / 16 && (n / 64) % 64 == (b
        % 16) * 4 + c / 64 && n % 64 == c % 64) by (bit_vector)
        requires
            a < 256,
            b < 256,
            c < 256,
            n == a * 65536 + b * 256 + c,
    ;
}

/// `c` is a base64 digit.
pub open spec fn is_b64(c: char) -> bool {
    'A' <= c <= 'Z' || 'a' <= c <= 'z' || '0' <= c <= '9' || c == '+' || c == '/'
}

} // verus!
