//! Key and duplicate-value orderings.
//!
//! Every database sorts its keys, and (when duplicates are allowed) the
//! values stored under one key, by a total order chosen when the database
//! is first used.  The default is plain byte-by-byte lexicographic order,
//! with a strict prefix sorting first.  A custom order can be installed
//! before the first data access; the orders offered here all refine byte
//! equality (two keys compare equal exactly when they are the same bytes),
//! which keeps every lookup unambiguous.

use vstd::prelude::*;

verus! {

/// An ordering for keys, or for the duplicate values under one key.
#[derive(Clone, Copy, PartialEq, Eq, Structural, Debug)]
pub enum KeyOrder {
    /// Byte-by-byte lexicographic order; a strict prefix sorts first.
    Lexical,
    /// Keys that are 4-byte little-endian two's-complement integers are
    /// compared by their value after negating odd values; keys of any
    /// other length sort before all 4-byte keys, among themselves
    /// lexicographically.  Ties between distinct byte strings are broken
    /// lexicographically, so the order stays total and refines equality.
    OddNegated,
}

/// Lexicographic three-way comparison of byte strings: -1, 0 or 1.
pub open spec fn lex_cmp(a: Seq<u8>, b: Seq<u8>) -> int
    decreases a.len(),
{
    if a.len() == 0 && b.len() == 0 {
        0
    } else if a.len() == 0 {
        -1
    } else if b.len() == 0 {
        1
    } else if a[0] < b[0] {
        -1
    } else if a[0] > b[0] {
        1
    } else {
        lex_cmp(a.skip(1), b.skip(1))
    }
}

/// The unsigned value of the first four bytes, little endian.
pub open spec fn le32_unsigned(s: Seq<u8>) -> int {
    s[0] + 256 * s[1] + 65536 * s[2] + 16777216 * s[3]
}

/// The signed (two's complement) value of the first four bytes.
pub open spec fn le32_signed(s: Seq<u8>) -> int {
    if le32_unsigned(s) >= 0x8000_0000 {
        le32_unsigned(s) - 0x1_0000_0000
    } else {
        le32_unsigned(s)
    }
}

/// Negate odd values, keep even ones; the sort key used by `OddNegated`.
pub open spec fn odd_negated(v: int) -> int {
    if v % 2 == 0 {
        v
    } else {
        -v
    }
}

/// Three-way comparison under an installed order: -1, 0 or 1.
pub open spec fn ord_cmp(o: KeyOrder, a: Seq<u8>, b: Seq<u8>) -> int {
    match o {
        KeyOrder::Lexical => lex_cmp(a, b),
        KeyOrder::OddNegated => {
            if a.len() == 4 && b.len() == 4 {
                let va = odd_negated(le32_signed(a));
                let vb = odd_negated(le32_signed(b));
                if va < vb {
                    -1
                } else if va > vb {
                    1
                } else {
                    lex_cmp(a, b)
                }
            } else if a.len() == 4 {
                1
            } else if b.len() == 4 {
                -1
            } else {
                lex_cmp(a, b)
            }
        },
    }
}

pub proof fn lemma_lex_cmp_range(a: Seq<u8>, b: Seq<u8>)
    ensures
        -1 <= lex_cmp(a, b) <= 1,
    decreases a.len(),
{
    if a.len() != 0 && b.len() != 0 && a[0] == b[0] {
        lemma_lex_cmp_range(a.skip(1), b.skip(1));
    }
}

/// Comparing equal is the same as being the same bytes.
pub proof fn lemma_lex_cmp_eq(a: Seq<u8>, b: Seq<u8>)
    ensures
        lex_cmp(a, b) == 0 <==> a == b,
    decreases a.len(),
{
    if a.len() == 0 && b.len() == 0 {
        assert(a =~= b);
    } else if a.len() != 0 && b.len() != 0 && a[0] == b[0] {
        lemma_lex_cmp_eq(a.skip(1), b.skip(1));
        if lex_cmp(a, b) == 0 {
            assert(a.skip(1) == b.skip(1));
            assert forall|i: int| 0 <= i < a.len() implies a[i] == b[i] by {
                if i > 0 {
                    assert(a[i] == a.skip(1)[i - 1]);
                    assert(b[i] == b.skip(1)[i - 1]);
                }
            }
            assert(a =~= b);
        } else {
            if a == b {
                assert(a.skip(1) =~= b.skip(1));
            }
        }
    } else {
        if a == b {
            assert(a.len() == b.len());
        }
    }
}

/// The comparison is antisymmetric in its arguments.
pub proof fn lemma_lex_cmp_antisym(a: Seq<u8>, b: Seq<u8>)
    ensures
        lex_cmp(a, b) == -lex_cmp(b, a),
    decreases a.len(),
{
    if a.len() != 0 && b.len() != 0 && a[0] == b[0] {
        lemma_lex_cmp_antisym(a.skip(1), b.skip(1));
    }
}

/// Strict lexicographic order is transitive.
pub proof fn lemma_lex_cmp_trans(a: Seq<u8>, b: Seq<u8>, c: Seq<u8>)
    requires
        lex_cmp(a, b) < 0,
        lex_cmp(b, c) < 0,
    ensures
        lex_cmp(a, c) < 0,
    decreases a.len(),
{
    lemma_lex_cmp_range(a, b);
    lemma_lex_cmp_range(b, c);
    lemma_lex_cmp_range(a, c);
    if a.len() == 0 {
        if c.len() == 0 {
            assert(b.len() == 0);
        }
    } else {
        if a[0] == b[0] && b[0] == c[0] {
            lemma_lex_cmp_trans(a.skip(1), b.skip(1), c.skip(1));
        }
    }
}

pub proof fn lemma_ord_cmp_range(o: KeyOrder, a: Seq<u8>, b: Seq<u8>)
    ensures
        -1 <= ord_cmp(o, a, b) <= 1,
{
    lemma_lex_cmp_range(a, b);
}

/// Every offered order refines byte equality.
pub proof fn lemma_ord_cmp_eq(o: KeyOrder, a: Seq<u8>, b: Seq<u8>)
    ensures
        ord_cmp(o, a, b) == 0 <==> a == b,
{
    lemma_lex_cmp_eq(a, b);
}

pub proof fn lemma_ord_cmp_antisym(o: KeyOrder, a: Seq<u8>, b: Seq<u8>)
    ensures
        ord_cmp(o, a, b) == -ord_cmp(o, b, a),
{
    lemma_lex_cmp_antisym(a, b);
}

pub proof fn lemma_ord_cmp_trans(o: KeyOrder, a: Seq<u8>, b: Seq<u8>, c: Seq<u8>)
    requires
        ord_cmp(o, a, b) < 0,
        ord_cmp(o, b, c) < 0,
    ensures
        ord_cmp(o, a, c) < 0,
{
    lemma_ord_cmp_range(o, a, b);
    lemma_ord_cmp_range(o, b, c);
    match o {
        KeyOrder::Lexical => {
            lemma_lex_cmp_trans(a, b, c);
        },
        KeyOrder::OddNegated => {
            if a.len() == 4 && b.len() == 4 && c.len() == 4 {
                if odd_negated(le32_signed(a)) == odd_negated(le32_signed(b))
                    && odd_negated(le32_signed(b)) == odd_negated(le32_signed(c)) {
                    lemma_lex_cmp_trans(a, b, c);
                }
            } else if a.len() != 4 && b.len() != 4 && c.len() != 4 {
                lemma_lex_cmp_trans(a, b, c);
            }
        },
    }
}

/// Exact three-way byte comparison, the executable form of `lex_cmp`.
pub fn lex_compare(a: &Vec<u8>, b: &Vec<u8>) -> (r: i32)
    ensures
        r as int == lex_cmp(a@, b@),
{
    let mut i: usize = 0;
    proof {
        assert(a@.skip(0) =~= a@);
        assert(b@.skip(0) =~= b@);
    }
    loop
        invariant
            i <= a.len(),
            i <= b.len(),
            lex_cmp(a@, b@) == lex_cmp(a@.skip(i as int), b@.skip(i as int)),
        decreases a.len() - i,
    {
        if i == a.len() && i == b.len() {
            return 0;
        } else if i == a.len() {
            return -1;
        } else if i == b.len() {
            return 1;
        } else if a[i] < b[i] {
            return -1;
        } else if a[i] > b[i] {
            return 1;
        }
        proof {
            assert(a@.skip(i as int).skip(1) =~= a@.skip(i + 1));
            assert(b@.skip(i as int).skip(1) =~= b@.skip(i + 1));
        }
        i = i + 1;
    }
}

/// Decode the first four bytes as a little-endian unsigned integer.
fn decode_le32(s: &Vec<u8>) -> (r: u32)
    requires
        s@.len() == 4,
    ensures
        r as int == le32_unsigned(s@),
{
    s[0] as u32 + s[1] as u32 * 256 + s[2] as u32 * 65536 + s[3] as u32 * 16777216
}

/// The `OddNegated` sort key of a 4-byte little-endian integer.
fn odd_negated_value(s: &Vec<u8>) -> (r: i64)
    requires
        s@.len() == 4,
    ensures
        r as int == odd_negated(le32_signed(s@)),
{
    let u = decode_le32(s);
    let signed: i64 = if u >= 0x8000_0000 {
        u as i64 - 0x1_0000_0000i64
    } else {
        u as i64
    };
    assert(signed as int == le32_signed(s@));
    let odd = s[0] % 2 == 1;
    proof {
        let sv = le32_signed(s@);
        let uv = le32_unsigned(s@);
        assert(uv == s@[0] + 2 * (128 * s@[1] + 32768 * s@[2] + 8388608 * s@[3]));
        assert(uv % 2 == s@[0] % 2) by (nonlinear_arith)
            requires
                uv == s@[0] + 2 * (128 * s@[1] + 32768 * s@[2] + 8388608 * s@[3]),
                0 <= s@[0] < 256,
        ;
        if sv != uv {
            assert(sv == uv - 0x1_0000_0000);
            assert(sv % 2 == uv % 2) by (nonlinear_arith)
                requires
                    sv == uv - 2 * 0x8000_0000,
            ;
        }
    }
    if odd {
        -signed
    } else {
        signed
    }
}

/// Exact three-way comparison under an installed order, the executable
/// form of `ord_cmp`.
pub fn key_compare(o: KeyOrder, a: &Vec<u8>, b: &Vec<u8>) -> (r: i32)
    ensures
        r as int == ord_cmp(o, a@, b@),
{
    match o {
        KeyOrder::Lexical => lex_compare(a, b),
        KeyOrder::OddNegated => {
            if a.len() == 4 && b.len() == 4 {
                let va = odd_negated_value(a);
                let vb = odd_negated_value(b);
                if va < vb {
                    -1
                } else if va > vb {
                    1
                } else {
                    lex_compare(a, b)
                }
            } else if a.len() == 4 {
                1
            } else if b.len() == 4 {
                -1
            } else {
                lex_compare(a, b)
            }
        },
    }
}

} // verus!
