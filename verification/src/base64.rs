//! The standard base64 alphabet with `=` padding, as a bijection between
//! byte strings and their encodings.

use vstd::prelude::*;
use vstd::string::*;
use crate::text::push_char;

verus! {

/// The character that stands for the six-bit value `v`.
pub open spec fn sextet_char(v: u8) -> char {
    if v < 26 {
        ((65 + v) as u8) as char
    } else if v < 52 {
        ((97 + (v - 26)) as u8) as char
    } else if v < 62 {
        ((48 + (v - 52)) as u8) as char
    } else if v == 62 {
        '+'
    } else {
        '/'
    }
}

/// The six-bit value that `c` stands for, if it is in the alphabet.
pub open spec fn char_sextet(c: char) -> Option<u8> {
    if 'A' <= c && c <= 'Z' {
        Some(((c as u32) - 65) as u8)
    } else if 'a' <= c && c <= 'z' {
        Some(((c as u32) - 97 + 26) as u8)
    } else if '0' <= c && c <= '9' {
        Some(((c as u32) - 48 + 52) as u8)
    } else if c == '+' {
        Some(62u8)
    } else if c == '/' {
        Some(63u8)
    } else {
        None
    }
}

/// The length of the encoding of `n` bytes.
pub open spec fn encoded_len(n: nat) -> nat {
    4 * ((n + 2) / 3)
}

pub open spec fn byte_or_zero(bytes: Seq<u8>, i: int) -> u8 {
    if 0 <= i < bytes.len() {
        bytes[i]
    } else {
        0u8
    }
}

/// Six-bit value number `k` (0 to 3) of the three-byte group `b0 b1 b2`.
pub open spec fn group_sextet(b0: u8, b1: u8, b2: u8, k: int) -> u8 {
    if k == 0 {
        b0 >> 2u8
    } else if k == 1 {
        ((b0 & 3u8) << 4u8) | (b1 >> 4u8)
    } else if k == 2 {
        ((b1 & 15u8) << 2u8) | (b2 >> 6u8)
    } else {
        b2 & 63u8
    }
}

/// Whether position `i` of the encoding of `n` bytes holds padding.
pub open spec fn is_pad_position(n: nat, i: int) -> bool {
    ||| (i % 4 == 2 && 3 * (i / 4) + 1 >= n)
    ||| (i % 4 == 3 && 3 * (i / 4) + 2 >= n)
}

/// Character `i` of the encoding of `bytes`.
pub open spec fn encoded_char(bytes: Seq<u8>, i: int) -> char {
    let g = i / 4;
    if is_pad_position(bytes.len(), i) {
        '='
    } else {
        sextet_char(
            group_sextet(
                byte_or_zero(bytes, 3 * g),
                byte_or_zero(bytes, 3 * g + 1),
                byte_or_zero(bytes, 3 * g + 2),
                i % 4,
            ),
        )
    }
}

/// The base64 encoding of `bytes`.
pub open spec fn encode_spec(bytes: Seq<u8>) -> Seq<char> {
    Seq::new(encoded_len(bytes.len()), |i: int| encoded_char(bytes, i))
}

proof fn lemma_sextet_range(b0: u8, b1: u8, b2: u8, k: int)
    ensures
        group_sextet(b0, b1, b2, k) < 64,
{
    assert(b0 >> 2u8 < 64u8) by (bit_vector);
    assert(((b0 & 3u8) << 4u8) | (b1 >> 4u8) < 64u8) by (bit_vector);
    assert(((b1 & 15u8) << 2u8) | (b2 >> 6u8) < 64u8) by (bit_vector);
    assert(b2 & 63u8 < 64u8) by (bit_vector);
}

/// The two maps between six-bit values and alphabet characters undo each
/// other, and no alphabet character is the padding character.
pub proof fn lemma_alphabet(v: u8)
    requires
        v < 64,
    ensures
        char_sextet(sextet_char(v)) == Some(v),
        sextet_char(v) != '=',
{
}

pub proof fn lemma_alphabet_back(c: char)
    requires
        char_sextet(c) is Some,
    ensures
        char_sextet(c)->0 < 64,
        sextet_char(char_sextet(c)->0) == c,
        c != '=',
{
}

fn sextet_to_char(v: u8) -> (c: char)
    requires
        v < 64,
    ensures
        c == sextet_char(v),
{
    if v < 26 {
        (65u8 + v) as char
    } else if v < 52 {
        (97u8 + (v - 26)) as char
    } else if v < 62 {
        (48u8 + (v - 52)) as char
    } else if v == 62 {
        '+'
    } else {
        '/'
    }
}

fn char_to_sextet(c: char) -> (v: Option<u8>)
    ensures
        v == char_sextet(c),
{
    if 'A' <= c && c <= 'Z' {
        Some(((c as u32) - 65) as u8)
    } else if 'a' <= c && c <= 'z' {
        Some(((c as u32) - 97 + 26) as u8)
    } else if '0' <= c && c <= '9' {
        Some(((c as u32) - 48 + 52) as u8)
    } else if c == '+' {
        Some(62u8)
    } else if c == '/' {
        Some(63u8)
    } else {
        None
    }
}

/// Encodes `bytes` in base64.
pub fn encode(bytes: &Vec<u8>) -> (text: String)
    ensures
        text@ == encode_spec(bytes@),
{
    let n: usize = bytes.len();
    let mut out: String = String::new();
    let mut i: usize = 0;
    let ghost mut g: int = 0;
    while i < n
        invariant
            i <= n,
            n == bytes@.len(),
            i < n ==> i == 3 * g,
            i == n ==> g == (n + 2) / 3,
            0 <= g,
            out@.len() == 4 * g,
            forall|j: int| 0 <= j < 4 * g ==> out@[j] == encoded_char(bytes@, j),
        decreases n - i,
    {
        let left: usize = n - i;
        let b0: u8 = bytes[i];
        let b1: u8 = if left > 1 { bytes[i + 1] } else { 0u8 };
        let b2: u8 = if left > 2 { bytes[i + 2] } else { 0u8 };
        proof {
            lemma_sextet_range(b0, b1, b2, 0);
            lemma_sextet_range(b0, b1, b2, 1);
            lemma_sextet_range(b0, b1, b2, 2);
            lemma_sextet_range(b0, b1, b2, 3);
        }
        let ghost before = out@;
        push_char(&mut out, sextet_to_char(b0 >> 2u8));
        push_char(&mut out, sextet_to_char(((b0 & 3u8) << 4u8) | (b1 >> 4u8)));
        if left > 1 {
            push_char(&mut out, sextet_to_char(((b1 & 15u8) << 2u8) | (b2 >> 6u8)));
        } else {
            push_char(&mut out, '=');
        }
        if left > 2 {
            push_char(&mut out, sextet_to_char(b2 & 63u8));
        } else {
            push_char(&mut out, '=');
        }
        proof {
            assert(out@.len() == 4 * g + 4);
            assert forall|j: int| 0 <= j < 4 * g + 4 implies out@[j] == encoded_char(bytes@, j) by {
                if j < 4 * g {
                    assert(out@[j] == before[j]);
                } else {
                    assert(j / 4 == g);
                    assert(byte_or_zero(bytes@, 3 * g) == b0);
                    assert(byte_or_zero(bytes@, 3 * g + 1) == b1);
                    assert(byte_or_zero(bytes@, 3 * g + 2) == b2);
                }
            }
            g = g + 1;
        }
        if left <= 3 {
            i = n;
        } else {
            i = i + 3;
        }
    }
    assert(out@ =~= encode_spec(bytes@));
    out
}

/// Three bytes rebuilt from four six-bit values give those values back.
proof fn lemma_regroup(v0: u8, v1: u8, v2: u8, v3: u8)
    requires
        v0 < 64,
        v1 < 64,
        v2 < 64,
        v3 < 64,
    ensures
        ({
            let b0 = (v0 << 2u8) | (v1 >> 4u8);
            let b1 = ((v1 & 15u8) << 4u8) | (v2 >> 2u8);
            let b2 = ((v2 & 3u8) << 6u8) | v3;
            &&& group_sextet(b0, b1, b2, 0) == v0
            &&& group_sextet(b0, b1, b2, 1) == v1
            &&& group_sextet(b0, b1, b2, 2) == v2
            &&& group_sextet(b0, b1, b2, 3) == v3
            &&& (v2 & 3u8 == 0u8 ==> group_sextet(b0, b1, 0u8, 2) == v2 && group_sextet(
                b0,
                b1,
                0u8,
                1,
            ) == v1 && group_sextet(b0, b1, 0u8, 0) == v0)
            &&& (v1 & 15u8 == 0u8 ==> group_sextet(b0, 0u8, 0u8, 1) == v1 && group_sextet(
                b0,
                0u8,
                0u8,
                0,
            ) == v0)
        }),
{
    assert(((v0 << 2u8) | (v1 >> 4u8)) >> 2u8 == v0) by (bit_vector)
        requires
            v0 < 64,
            v1 < 64,
    ;
    assert(((((v0 << 2u8) | (v1 >> 4u8)) & 3u8) << 4u8) | ((((v1 & 15u8) << 4u8) | (v2 >> 2u8))
        >> 4u8) == v1) by (bit_vector)
        requires
            v0 < 64,
            v1 < 64,
            v2 < 64,
    ;
    assert((((((v1 & 15u8) << 4u8) | (v2 >> 2u8)) & 15u8) << 2u8) | ((((v2 & 3u8) << 6u8) | v3)
        >> 6u8) == v2) by (bit_vector)
        requires
            v1 < 64,
            v2 < 64,
            v3 < 64,
    ;
    assert((((v2 & 3u8) << 6u8) | v3) & 63u8 == v3) by (bit_vector)
        requires
            v2 < 64,
            v3 < 64,
    ;
    assert(v2 & 3u8 == 0u8 ==> (((((v1 & 15u8) << 4u8) | (v2 >> 2u8)) & 15u8) << 2u8) | (0u8
        >> 6u8) == v2) by (bit_vector)
        requires
            v1 < 64,
            v2 < 64,
    ;
    assert(v1 & 15u8 == 0u8 ==> ((((v0 << 2u8) | (v1 >> 4u8)) & 3u8) << 4u8) | (0u8 >> 4u8) == v1)
        by (bit_vector)
        requires
            v0 < 64,
            v1 < 64,
    ;
}

/// The bytes of a group are determined by its six-bit values.
proof fn lemma_bytes_from_sextets(b0: u8, b1: u8, b2: u8)
    ensures
        b0 == (group_sextet(b0, b1, b2, 0) << 2u8) | (group_sextet(b0, b1, b2, 1) >> 4u8),
        b1 == ((group_sextet(b0, b1, b2, 1) & 15u8) << 4u8) | (group_sextet(b0, b1, b2, 2) >> 2u8),
        b2 == ((group_sextet(b0, b1, b2, 2) & 3u8) << 6u8) | group_sextet(b0, b1, b2, 3),
{
    assert(b0 == ((b0 >> 2u8) << 2u8) | ((((b0 & 3u8) << 4u8) | (b1 >> 4u8)) >> 4u8))
        by (bit_vector);
    assert(b1 == (((((b0 & 3u8) << 4u8) | (b1 >> 4u8)) & 15u8) << 4u8) | ((((b1 & 15u8) << 2u8) | (
    b2 >> 6u8)) >> 2u8)) by (bit_vector);
    assert(b2 == (((((b1 & 15u8) << 2u8) | (b2 >> 6u8)) & 3u8) << 6u8) | (b2 & 63u8))
        by (bit_vector);
}

/// What a decoder accepts of group `g` of `s`: four alphabet characters, or,
/// in the last group only, three and one `=` or two and two `=`, with the
/// bits that no byte takes equal to zero.
pub open spec fn group_ok(s: Seq<char>, g: int, last: bool) -> bool {
    let c0 = s[4 * g];
    let c1 = s[4 * g + 1];
    let c2 = s[4 * g + 2];
    let c3 = s[4 * g + 3];
    &&& char_sextet(c0) is Some
    &&& char_sextet(c1) is Some
    &&& {
        ||| (char_sextet(c2) is Some && char_sextet(c3) is Some)
        ||| (last && char_sextet(c2) is Some && c3 == '=' && char_sextet(c2)->0 & 3u8 == 0u8)
        ||| (last && c2 == '=' && c3 == '=' && char_sextet(c1)->0 & 15u8 == 0u8)
    }
}

/// Every group of an encoding is one that a decoder accepts.
proof fn lemma_encoding_group_ok(b: Seq<u8>, g: int)
    requires
        0 <= g < (b.len() + 2) / 3,
    ensures
        group_ok(encode_spec(b), g, g + 1 == (b.len() + 2) / 3),
{
    let n = b.len();
    let e = encode_spec(b);
    let b0 = byte_or_zero(b, 3 * g);
    let b1 = byte_or_zero(b, 3 * g + 1);
    let b2 = byte_or_zero(b, 3 * g + 2);
    assert((4 * g) / 4 == g && (4 * g) % 4 == 0);
    assert((4 * g + 1) / 4 == g && (4 * g + 1) % 4 == 1);
    assert((4 * g + 2) / 4 == g && (4 * g + 2) % 4 == 2);
    assert((4 * g + 3) / 4 == g && (4 * g + 3) % 4 == 3);
    assert(e[4 * g] == encoded_char(b, 4 * g));
    assert(e[4 * g + 1] == encoded_char(b, 4 * g + 1));
    assert(e[4 * g + 2] == encoded_char(b, 4 * g + 2));
    assert(e[4 * g + 3] == encoded_char(b, 4 * g + 3));
    lemma_sextet_range(b0, b1, b2, 0);
    lemma_sextet_range(b0, b1, b2, 1);
    lemma_sextet_range(b0, b1, b2, 2);
    lemma_sextet_range(b0, b1, b2, 3);
    lemma_alphabet(group_sextet(b0, b1, b2, 0));
    lemma_alphabet(group_sextet(b0, b1, b2, 1));
    lemma_alphabet(group_sextet(b0, b1, b2, 2));
    lemma_alphabet(group_sextet(b0, b1, b2, 3));
    if 3 * g + 1 >= n {
        assert(b1 == 0u8);
        assert((((b0 & 3u8) << 4u8) | (0u8 >> 4u8)) & 15u8 == 0u8) by (bit_vector);
    } else if 3 * g + 2 >= n {
        assert(b2 == 0u8);
        assert((((b1 & 15u8) << 2u8) | (0u8 >> 6u8)) & 3u8 == 0u8) by (bit_vector);
    }
}

/// Decodes base64 text. Succeeds exactly on the texts that `encode`
/// produces, and returns the bytes whose encoding the text is.
pub fn decode(s: &str) -> (bytes: Option<Vec<u8>>)
    ensures
        bytes is Some <==> exists|b: Seq<u8>| encode_spec(b) == s@,
        bytes is Some ==> encode_spec(bytes->0@) == s@,
{
    let len: usize = s.unicode_len();
    if len % 4 != 0 {
        assert forall|b: Seq<u8>| encode_spec(b) != s@ by {
            assert(encode_spec(b).len() % 4 == 0);
        }
        return None;
    }
    let groups: usize = len / 4;
    let mut out: Vec<u8> = Vec::new();
    let mut g: usize = 0;
    while g < groups
        invariant
            g <= groups,
            len == s@.len(),
            len == 4 * groups,
            g < groups ==> out@.len() == 3 * g,
            g == groups ==> (out@.len() + 2) / 3 == groups,
            forall|j: int| 0 <= j < 4 * g ==> s@[j] == encoded_char(out@, j),
        decreases groups - g,
    {
        let c0: char = s.get_char(4 * g);
        let c1: char = s.get_char(4 * g + 1);
        let c2: char = s.get_char(4 * g + 2);
        let c3: char = s.get_char(4 * g + 3);
        let last: bool = g + 1 == groups;
        let v0: Option<u8> = char_to_sextet(c0);
        let v1: Option<u8> = char_to_sextet(c1);
        let v2: Option<u8> = char_to_sextet(c2);
        let v3: Option<u8> = char_to_sextet(c3);
        let ghost before = out@;
        let mut accepted: bool = false;
        match (v0, v1) {
            (Some(a), Some(b)) => {
                proof {
                    lemma_alphabet_back(c0);
                    lemma_alphabet_back(c1);
                }
                let b0: u8 = (a << 2u8) | (b >> 4u8);
                match (v2, v3) {
                    (Some(c), Some(d)) => {
                        proof {
                            lemma_alphabet_back(c2);
                            lemma_alphabet_back(c3);
                            lemma_regroup(a, b, c, d);
                        }
                        out.push(b0);
                        out.push(((b & 15u8) << 4u8) | (c >> 2u8));
                        out.push(((c & 3u8) << 6u8) | d);
                        accepted = true;
                    },
                    (Some(c), None) => {
                        if last && c3 == '=' && c & 3u8 == 0u8 {
                            proof {
                                lemma_alphabet_back(c2);
                                lemma_regroup(a, b, c, 0u8);
                            }
                            out.push(b0);
                            out.push(((b & 15u8) << 4u8) | (c >> 2u8));
                            accepted = true;
                        }
                    },
                    (None, _) => {
                        if last && c2 == '=' && c3 == '=' && b & 15u8 == 0u8 {
                            proof {
                                lemma_regroup(a, b, 0u8, 0u8);
                            }
                            out.push(b0);
                            accepted = true;
                        }
                    },
                }
            },
            _ => {},
        }
        if !accepted {
            proof {
                assert(!group_ok(s@, g as int, last));
                assert forall|b: Seq<u8>| encode_spec(b) != s@ by {
                    if encode_spec(b) == s@ {
                        assert(encode_spec(b).len() == len);
                        assert((b.len() + 2) / 3 == groups);
                        lemma_encoding_group_ok(b, g as int);
                    }
                }
            }
            return None;
        }
        proof {
            let gi = g as int;
            assert((4 * gi) / 4 == gi && (4 * gi) % 4 == 0);
            assert((4 * gi + 1) / 4 == gi && (4 * gi + 1) % 4 == 1);
            assert((4 * gi + 2) / 4 == gi && (4 * gi + 2) % 4 == 2);
            assert((4 * gi + 3) / 4 == gi && (4 * gi + 3) % 4 == 3);
            assert forall|j: int| 0 <= j < 4 * gi + 4 implies s@[j] == encoded_char(out@, j) by {
                if j < 4 * gi {
                    assert(j / 4 < gi);
                    assert(s@[j] == encoded_char(before, j));
                    assert(out@[3 * (j / 4)] == before[3 * (j / 4)]);
                    assert(out@[3 * (j / 4) + 1] == before[3 * (j / 4) + 1]);
                    assert(out@[3 * (j / 4) + 2] == before[3 * (j / 4) + 2]);
                } else {
                    assert(j / 4 == gi);
                    assert(j == 4 * gi || j == 4 * gi + 1 || j == 4 * gi + 2 || j == 4 * gi + 3);
                }
            }
        }
        g = g + 1;
    }
    assert(encode_spec(out@) =~= s@);
    Some(out)
}

/// Different byte strings have different encodings.
pub proof fn lemma_encode_injective(a: Seq<u8>, b: Seq<u8>)
    requires
        encode_spec(a) == encode_spec(b),
    ensures
        a == b,
{
    let ea = encode_spec(a);
    let eb = encode_spec(b);
    let groups = (a.len() + 2) / 3;
    assert(ea.len() == encoded_len(a.len()));
    assert(eb.len() == encoded_len(b.len()));
    assert((b.len() + 2) / 3 == groups);
    if groups > 0 {
        let g = groups - 1;
        lemma_encoding_group_ok(a, g);
        lemma_encoding_group_ok(b, g);
        assert((4 * g + 2) / 4 == g && (4 * g + 2) % 4 == 2);
        assert((4 * g + 3) / 4 == g && (4 * g + 3) % 4 == 3);
        assert(ea[4 * g + 2] == encoded_char(a, 4 * g + 2));
        assert(ea[4 * g + 3] == encoded_char(a, 4 * g + 3));
        assert(eb[4 * g + 2] == encoded_char(b, 4 * g + 2));
        assert(eb[4 * g + 3] == encoded_char(b, 4 * g + 3));
        lemma_pad_only_at_pad_positions(a, 4 * g + 2);
        lemma_pad_only_at_pad_positions(a, 4 * g + 3);
        lemma_pad_only_at_pad_positions(b, 4 * g + 2);
        lemma_pad_only_at_pad_positions(b, 4 * g + 3);
    }
    assert(a.len() == b.len());
    assert forall|i: int| 0 <= i < a.len() implies a[i] == b[i] by {
        let g = i / 3;
        let a0 = byte_or_zero(a, 3 * g);
        let a1 = byte_or_zero(a, 3 * g + 1);
        let a2 = byte_or_zero(a, 3 * g + 2);
        let b0 = byte_or_zero(b, 3 * g);
        let b1 = byte_or_zero(b, 3 * g + 1);
        let b2 = byte_or_zero(b, 3 * g + 2);
        assert((4 * g) / 4 == g && (4 * g) % 4 == 0);
        assert((4 * g + 1) / 4 == g && (4 * g + 1) % 4 == 1);
        assert((4 * g + 2) / 4 == g && (4 * g + 2) % 4 == 2);
        assert((4 * g + 3) / 4 == g && (4 * g + 3) % 4 == 3);
        assert(ea[4 * g] == encoded_char(a, 4 * g) && eb[4 * g] == encoded_char(b, 4 * g));
        assert(ea[4 * g + 1] == encoded_char(a, 4 * g + 1) && eb[4 * g + 1] == encoded_char(
            b,
            4 * g + 1,
        ));
        assert(ea[4 * g + 2] == encoded_char(a, 4 * g + 2) && eb[4 * g + 2] == encoded_char(
            b,
            4 * g + 2,
        ));
        assert(ea[4 * g + 3] == encoded_char(a, 4 * g + 3) && eb[4 * g + 3] == encoded_char(
            b,
            4 * g + 3,
        ));
        lemma_sextet_range(a0, a1, a2, 0);
        lemma_sextet_range(a0, a1, a2, 1);
        lemma_sextet_range(a0, a1, a2, 2);
        lemma_sextet_range(a0, a1, a2, 3);
        lemma_sextet_range(b0, b1, b2, 0);
        lemma_sextet_range(b0, b1, b2, 1);
        lemma_sextet_range(b0, b1, b2, 2);
        lemma_sextet_range(b0, b1, b2, 3);
        lemma_alphabet(group_sextet(a0, a1, a2, 0));
        lemma_alphabet(group_sextet(a0, a1, a2, 1));
        lemma_alphabet(group_sextet(a0, a1, a2, 2));
        lemma_alphabet(group_sextet(a0, a1, a2, 3));
        lemma_alphabet(group_sextet(b0, b1, b2, 0));
        lemma_alphabet(group_sextet(b0, b1, b2, 1));
        lemma_alphabet(group_sextet(b0, b1, b2, 2));
        lemma_alphabet(group_sextet(b0, b1, b2, 3));
        lemma_bytes_from_sextets(a0, a1, a2);
        lemma_bytes_from_sextets(b0, b1, b2);
        assert(group_sextet(a0, a1, a2, 0) == group_sextet(b0, b1, b2, 0));
        assert(group_sextet(a0, a1, a2, 1) == group_sextet(b0, b1, b2, 1));
        if i % 3 >= 1 {
            assert(group_sextet(a0, a1, a2, 2) == group_sextet(b0, b1, b2, 2));
        }
        if i % 3 == 2 {
            assert(group_sextet(a0, a1, a2, 3) == group_sextet(b0, b1, b2, 3));
        }
    }
    assert(a =~= b);
}

/// In an encoding, `=` stands at the padding positions and nowhere else.
proof fn lemma_pad_only_at_pad_positions(b: Seq<u8>, i: int)
    requires
        0 <= i < encoded_len(b.len()),
    ensures
        encoded_char(b, i) == '=' <==> is_pad_position(b.len(), i),
{
    let g = i / 4;
    let b0 = byte_or_zero(b, 3 * g);
    let b1 = byte_or_zero(b, 3 * g + 1);
    let b2 = byte_or_zero(b, 3 * g + 2);
    lemma_sextet_range(b0, b1, b2, i % 4);
    lemma_alphabet(group_sextet(b0, b1, b2, i % 4));
}

} // verus!
