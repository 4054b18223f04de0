use vstd::prelude::*;
use vstd::string::StringExecFns;
use vstd::string::StrSliceExecFns;

verus! {

/// The `k`-byte little-endian rendering of `n` (truncating above `256^k`).
pub open spec fn le_bytes(n: nat, k: nat) -> Seq<u8>
    decreases k,
{
    if k == 0 {
        Seq::empty()
    } else {
        seq![(n % 256) as u8] + le_bytes(n / 256, (k - 1) as nat)
    }
}

/// Appends the `k`-byte little-endian rendering of `n`.
pub fn push_le64(out: &mut Vec<u8>, n: u64, k: usize)
    ensures
        final(out)@ == old(out)@ + le_bytes(n as nat, k as nat),
    decreases k,
{
    if k == 0 {
        proof {
            assert(out@ =~= out@ + le_bytes(n as nat, 0));
        }
    } else {
        out.push((n % 256) as u8);
        push_le64(out, n / 256, k - 1);
        proof {
            assert(le_bytes(n as nat, k as nat) =~= seq![(n % 256) as u8] + le_bytes(
                n as nat / 256,
                (k - 1) as nat,
            ));
            assert(out@ =~= old(out)@ + le_bytes(n as nat, k as nat));
        }
    }
}

/// The Bitcoin variable-length integer (compact size) rendering of `n`.
pub open spec fn compact_size(n: nat) -> Seq<u8> {
    if n < 253 {
        seq![n as u8]
    } else if n < 0x10000 {
        seq![253u8] + le_bytes(n, 2)
    } else if n < 0x100000000 {
        seq![254u8] + le_bytes(n, 4)
    } else {
        seq![255u8] + le_bytes(n, 8)
    }
}

/// Appends the compact size rendering of `n`.
pub fn push_compact_size(out: &mut Vec<u8>, n: u64)
    ensures
        final(out)@ == old(out)@ + compact_size(n as nat),
{
    if n < 253 {
        out.push(n as u8);
        proof {
            assert(out@ =~= old(out)@ + compact_size(n as nat));
        }
    } else if n < 0x10000 {
        out.push(253);
        push_le64(out, n, 2);
        proof {
            assert(out@ =~= old(out)@ + compact_size(n as nat));
        }
    } else if n < 0x100000000 {
        out.push(254);
        push_le64(out, n, 4);
        proof {
            assert(out@ =~= old(out)@ + compact_size(n as nat));
        }
    } else {
        out.push(255);
        push_le64(out, n, 8);
        proof {
            assert(out@ =~= old(out)@ + compact_size(n as nat));
        }
    }
}

/// The LEB128 rendering of `n`: 7-bit groups, least significant first, the
/// high bit of a byte set when more groups follow.
pub open spec fn leb128(n: nat) -> Seq<u8>
    decreases n,
{
    if n < 128 {
        seq![n as u8]
    } else {
        seq![(n % 128 + 128) as u8] + leb128(n / 128)
    }
}

/// Appends the LEB128 rendering of `n`.
pub fn push_leb128(out: &mut Vec<u8>, n: u128)
    ensures
        final(out)@ == old(out)@ + leb128(n as nat),
    decreases n,
{
    if n < 128 {
        out.push(n as u8);
        proof {
            assert(out@ =~= old(out)@ + leb128(n as nat));
        }
    } else {
        out.push((n % 128 + 128) as u8);
        push_leb128(out, n / 128);
        proof {
            assert(out@ =~= old(out)@ + leb128(n as nat));
        }
    }
}

/// The lower-case character for a hexadecimal digit.
pub open spec fn hex_digit(d: nat) -> char {
    if d == 0 {
        '0'
    } else if d == 1 {
        '1'
    } else if d == 2 {
        '2'
    } else if d == 3 {
        '3'
    } else if d == 4 {
        '4'
    } else if d == 5 {
        '5'
    } else if d == 6 {
        '6'
    } else if d == 7 {
        '7'
    } else if d == 8 {
        '8'
    } else if d == 9 {
        '9'
    } else if d == 10 {
        'a'
    } else if d == 11 {
        'b'
    } else if d == 12 {
        'c'
    } else if d == 13 {
        'd'
    } else if d == 14 {
        'e'
    } else {
        'f'
    }
}

/// The lower-case hexadecimal rendering of a byte string, two characters
/// per byte.
pub open spec fn hex_of(bytes: Seq<u8>) -> Seq<char>
    decreases bytes.len(),
{
    if bytes.len() == 0 {
        Seq::empty()
    } else {
        seq![hex_digit(bytes[0] as nat / 16), hex_digit(bytes[0] as nat % 16)] + hex_of(
            bytes.drop_first(),
        )
    }
}

fn hex_char_str(d: u8) -> (r: &'static str)
    requires
        d < 16,
    ensures
        r@ == seq![hex_digit(d as nat)],
{
    let s = match d {
        0 => "0",
        1 => "1",
        2 => "2",
        3 => "3",
        4 => "4",
        5 => "5",
        6 => "6",
        7 => "7",
        8 => "8",
        9 => "9",
        10 => "a",
        11 => "b",
        12 => "c",
        13 => "d",
        14 => "e",
        _ => "f",
    };
    proof {
        reveal_strlit("0");
        reveal_strlit("1");
        reveal_strlit("2");
        reveal_strlit("3");
        reveal_strlit("4");
        reveal_strlit("5");
        reveal_strlit("6");
        reveal_strlit("7");
        reveal_strlit("8");
        reveal_strlit("9");
        reveal_strlit("a");
        reveal_strlit("b");
        reveal_strlit("c");
        reveal_strlit("d");
        reveal_strlit("e");
        reveal_strlit("f");
        assert(s@ =~= seq![hex_digit(d as nat)]);
    }
    s
}

fn hex_from(bytes: &Vec<u8>, i: usize) -> (r: String)
    requires
        i <= bytes@.len(),
    ensures
        r@ == hex_of(bytes@.skip(i as int)),
    decreases bytes@.len() - i,
{
    if i == bytes.len() {
        let r = String::new();
        proof {
            assert(r@ =~= hex_of(bytes@.skip(i as int)));
        }
        r
    } else {
        let b = bytes[i];
        let mut s = String::from_str(hex_char_str(b / 16));
        s.append(hex_char_str(b % 16));
        let rest = hex_from(bytes, i + 1);
        s.append(rest.as_str());
        proof {
            assert(bytes@.skip(i as int).drop_first() =~= bytes@.skip(i + 1 as int));
            assert(bytes@.skip(i as int)[0] == bytes@[i as int]);
            assert(s@ =~= hex_of(bytes@.skip(i as int)));
        }
        s
    }
}

/// The lower-case hexadecimal rendering of a byte vector.
pub fn hex_string(bytes: &Vec<u8>) -> (r: String)
    ensures
        r@ == hex_of(bytes@),
{
    let r = hex_from(bytes, 0);
    proof {
        assert(bytes@.skip(0) =~= bytes@);
    }
    r
}

/// Reverses a byte vector.
pub fn reverse_bytes(v: &Vec<u8>) -> (r: Vec<u8>)
    ensures
        r@ == v@.reverse(),
{
    let mut r: Vec<u8> = Vec::new();
    let mut i: usize = v.len();
    while i > 0
        invariant
            i <= v.len(),
            r@.len() == v@.len() - i,
            forall|j: int| 0 <= j < r@.len() ==> r@[j] == v@[v@.len() - 1 - j],
        decreases i,
    {
        i = i - 1;
        r.push(v[i]);
    }
    proof {
        assert(r@ =~= v@.reverse());
    }
    r
}

/// The hexadecimal rendering of a byte string has two characters per
/// byte.
pub proof fn lemma_hex_of_len(bytes: Seq<u8>)
    ensures
        hex_of(bytes).len() == 2 * bytes.len(),
    decreases bytes.len(),
{
    if bytes.len() > 0 {
        lemma_hex_of_len(bytes.drop_first());
    }
}

/// Whether a character is a lower-case hexadecimal digit.
pub open spec fn is_hex_char(c: char) -> bool {
    ||| c == '0'
    ||| c == '1'
    ||| c == '2'
    ||| c == '3'
    ||| c == '4'
    ||| c == '5'
    ||| c == '6'
    ||| c == '7'
    ||| c == '8'
    ||| c == '9'
    ||| c == 'a'
    ||| c == 'b'
    ||| c == 'c'
    ||| c == 'd'
    ||| c == 'e'
    ||| c == 'f'
}

/// Decodes two hexadecimal characters into a byte; `None` when either is
/// not a lower-case hexadecimal digit.
fn hex_pair_value(hi: char, lo: char) -> (r: Option<u8>)
    ensures
        match r {
            Option::Some(b) => hex_digit(b as nat / 16) == hi && hex_digit(b as nat % 16) == lo
                && is_hex_char(hi) && is_hex_char(lo),
            Option::None => !is_hex_char(hi) || !is_hex_char(lo),
        },
{
    let h = hex_nibble(hi);
    let l = hex_nibble(lo);
    match (h, l) {
        (Some(h), Some(l)) => Some(h * 16 + l),
        _ => None,
    }
}

fn hex_nibble(c: char) -> (r: Option<u8>)
    ensures
        match r {
            Option::Some(d) => d < 16 && hex_digit(d as nat) == c && is_hex_char(c),
            Option::None => !is_hex_char(c),
        },
{
    match c {
        '0' => Some(0),
        '1' => Some(1),
        '2' => Some(2),
        '3' => Some(3),
        '4' => Some(4),
        '5' => Some(5),
        '6' => Some(6),
        '7' => Some(7),
        '8' => Some(8),
        '9' => Some(9),
        'a' => Some(10),
        'b' => Some(11),
        'c' => Some(12),
        'd' => Some(13),
        'e' => Some(14),
        'f' => Some(15),
        _ => None,
    }
}

/// Decodes a lower-case hexadecimal string into bytes, succeeding exactly
/// on even-length strings of lower-case hexadecimal digits.
pub fn hex_decode(s: &str) -> (r: Option<Vec<u8>>)
    ensures
        match r {
            Option::Some(v) => hex_of(v@) == s@ && 2 * v@.len() == s@.len() && forall|i: int|
                0 <= i < s@.len() ==> is_hex_char(#[trigger] s@[i]),
            Option::None => s@.len() % 2 != 0 || exists|i: int|
                0 <= i < s@.len() && !is_hex_char(#[trigger] s@[i]),
        },
{
    let n = s.unicode_len();
    if n % 2 != 0 {
        return None;
    }
    let mut v: Vec<u8> = Vec::new();
    let mut i: usize = 0;
    while i < n
        invariant
            i <= n,
            i % 2 == 0,
            n % 2 == 0,
            n == s@.len(),
            2 * v@.len() == i,
            hex_of(v@) =~= s@.take(i as int),
            forall|j: int| 0 <= j < i ==> is_hex_char(#[trigger] s@[j]),
        decreases n - i,
    {
        let hi = s.get_char(i);
        let lo = s.get_char(i + 1);
        match hex_pair_value(hi, lo) {
            Option::Some(b) => {
                let ghost old_v = v@;
                v.push(b);
                proof {
                    lemma_hex_of_append(old_v, b);
                    assert(hex_of(v@) =~= s@.take(i + 2 as int));
                }
            },
            Option::None => {
                proof {
                    assert(!is_hex_char(s@[i as int]) || !is_hex_char(s@[i + 1]));
                }
                return None;
            },
        }
        i = i + 2;
    }
    proof {
        assert(s@.take(n as int) =~= s@);
    }
    Some(v)
}

/// Appending a byte appends its two digits to the rendering.
pub proof fn lemma_hex_of_append(bytes: Seq<u8>, b: u8)
    ensures
        hex_of(bytes.push(b)) == hex_of(bytes) + seq![
            hex_digit(b as nat / 16),
            hex_digit(b as nat % 16),
        ],
    decreases bytes.len(),
{
    if bytes.len() == 0 {
        assert(bytes =~= Seq::<u8>::empty());
        assert(hex_of(Seq::<u8>::empty()) =~= Seq::<char>::empty());
        assert(bytes.push(b)[0] == b);
        assert(bytes.push(b).drop_first() =~= Seq::<u8>::empty());
        assert(hex_of(bytes.push(b)) =~= hex_of(bytes) + seq![
            hex_digit(b as nat / 16),
            hex_digit(b as nat % 16),
        ]);
    } else {
        let p = bytes.push(b);
        assert(p.len() > 0);
        assert(p[0] == bytes[0]);
        assert(p.drop_first() =~= bytes.drop_first().push(b));
        lemma_hex_of_append(bytes.drop_first(), b);
        assert(hex_of(p) == seq![hex_digit(p[0] as nat / 16), hex_digit(p[0] as nat % 16)]
            + hex_of(p.drop_first()));
        assert(hex_of(bytes) == seq![
            hex_digit(bytes[0] as nat / 16),
            hex_digit(bytes[0] as nat % 16),
        ] + hex_of(bytes.drop_first()));
        assert(hex_of(p) =~= hex_of(bytes) + seq![
            hex_digit(b as nat / 16),
            hex_digit(b as nat % 16),
        ]);
    }
}


/// The little-endian rendering of `n` over `k` bytes has `k` bytes.
pub proof fn lemma_le_bytes_len(n: nat, k: nat)
    ensures
        le_bytes(n, k).len() == k,
    decreases k,
{
    if k > 0 {
        lemma_le_bytes_len(n / 256, (k - 1) as nat);
    }
}

} // verus!

