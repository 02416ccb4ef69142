//! Fixed-width integer encodings and the byte-wise order on keys.

use vstd::prelude::*;

verus! {

/// The four bytes of `v`, least significant first.
pub open spec fn u32_le(v: u32) -> Seq<u8> {
    seq![
        (v % 256) as u8,
        (v / 256 % 256) as u8,
        (v / 65536 % 256) as u8,
        (v / 16777216) as u8,
    ]
}

/// The number whose little-endian bytes are the first four of `s`.
pub open spec fn u32_from_le(s: Seq<u8>) -> int {
    s[0] + s[1] * 256 + s[2] * 65536 + s[3] * 16777216
}

/// The four bytes of `v`, most significant first.
pub open spec fn u32_be(v: u32) -> Seq<u8> {
    seq![
        (v / 16777216) as u8,
        (v / 65536 % 256) as u8,
        (v / 256 % 256) as u8,
        (v % 256) as u8,
    ]
}

/// The number whose big-endian bytes are the first four of `s`.
pub open spec fn u32_from_be(s: Seq<u8>) -> int {
    s[3] + s[2] * 256 + s[1] * 65536 + s[0] * 16777216
}

/// The eight bytes of `v`, least significant first: the low half, then the
/// high half.
pub open spec fn u64_le(v: u64) -> Seq<u8> {
    u32_le((v % 0x1_0000_0000) as u32) + u32_le((v / 0x1_0000_0000) as u32)
}

/// The number whose little-endian bytes are the first eight of `s`.
pub open spec fn u64_from_le(s: Seq<u8>) -> int {
    u32_from_le(s.subrange(0, 4)) + u32_from_le(s.subrange(4, 8)) * 0x1_0000_0000
}

/// The digits of a four-digit number in base 256 are found again by
/// division and remainder.
proof fn lemma_four_digits(b0: int, b1: int, b2: int, b3: int)
    requires
        0 <= b0 < 256,
        0 <= b1 < 256,
        0 <= b2 < 256,
        0 <= b3 < 256,
    ensures
        ({
            let v = b0 + b1 * 256 + b2 * 65536 + b3 * 16777216;
            &&& 0 <= v <= u32::MAX
            &&& v % 256 == b0
            &&& v / 256 % 256 == b1
            &&& v / 65536 % 256 == b2
            &&& v / 16777216 == b3
        }),
{
    let v = b0 + b1 * 256 + b2 * 65536 + b3 * 16777216;
    let r1 = b1 + b2 * 256 + b3 * 65536;
    let r2 = b2 + b3 * 256;
    assert(v / 256 == r1 && v % 256 == b0);
    assert(r1 == r2 * 256 + b1);
    assert(r1 % 256 == b1);
}

/// Decoding undoes encoding.
pub proof fn lemma_u32_le_round_trip(v: u32)
    ensures
        u32_le(v).len() == 4,
        u32_from_le(u32_le(v)) == v,
{
}

/// Encoding undoes decoding on any four bytes.
pub proof fn lemma_u32_le_of_bytes(s: Seq<u8>)
    requires
        s.len() == 4,
    ensures
        0 <= u32_from_le(s) <= u32::MAX,
        u32_le(u32_from_le(s) as u32) == s,
{
    let (b0, b1, b2, b3) = (s[0] as int, s[1] as int, s[2] as int, s[3] as int);
    lemma_four_digits(b0, b1, b2, b3);
}

/// Big-endian decoding undoes big-endian encoding.
pub proof fn lemma_u32_be_round_trip(v: u32)
    ensures
        u32_be(v).len() == 4,
        u32_from_be(u32_be(v)) == v,
{
}

/// Big-endian encoding undoes decoding on any four bytes.
pub proof fn lemma_u32_be_of_bytes(s: Seq<u8>)
    requires
        s.len() == 4,
    ensures
        0 <= u32_from_be(s) <= u32::MAX,
        u32_be(u32_from_be(s) as u32) == s,
{
    let (b0, b1, b2, b3) = (s[3] as int, s[2] as int, s[1] as int, s[0] as int);
    lemma_four_digits(b0, b1, b2, b3);
}

/// Decoding undoes encoding for eight-byte numbers.
pub proof fn lemma_u64_le_round_trip(v: u64)
    ensures
        u64_le(v).len() == 8,
        u64_from_le(u64_le(v)) == v,
{
    let low = (v % 0x1_0000_0000) as u32;
    let high = (v / 0x1_0000_0000) as u32;
    lemma_u32_le_round_trip(low);
    lemma_u32_le_round_trip(high);
}

/// Encoding undoes decoding on any eight bytes.
pub proof fn lemma_u64_le_of_bytes(s: Seq<u8>)
    requires
        s.len() == 8,
    ensures
        0 <= u64_from_le(s) <= u64::MAX,
        u64_le(u64_from_le(s) as u64) == s,
{
    let low = s.subrange(0, 4);
    let high = s.subrange(4, 8);
    lemma_u32_le_of_bytes(low);
    lemma_u32_le_of_bytes(high);
    let v = u64_from_le(s) as u64;
    assert(u64_le(v) =~= low + high);
    assert(low + high =~= s);
}

/// Appends the little-endian bytes of `v` to `out`.
pub fn put_u32_le(out: &mut Vec<u8>, v: u32)
    ensures
        final(out)@ == old(out)@ + u32_le(v),
{
    out.push((v % 256) as u8);
    out.push((v / 256 % 256) as u8);
    out.push((v / 65536 % 256) as u8);
    out.push((v / 16777216) as u8);
}

/// Appends the big-endian bytes of `v` to `out`.
pub fn put_u32_be(out: &mut Vec<u8>, v: u32)
    ensures
        final(out)@ == old(out)@ + u32_be(v),
{
    out.push((v / 16777216) as u8);
    out.push((v / 65536 % 256) as u8);
    out.push((v / 256 % 256) as u8);
    out.push((v % 256) as u8);
}

/// Appends the little-endian bytes of `v` to `out`.
pub fn put_u64_le(out: &mut Vec<u8>, v: u64)
    ensures
        final(out)@ == old(out)@ + u64_le(v),
{
    put_u32_le(out, (v % 0x1_0000_0000) as u32);
    put_u32_le(out, (v / 0x1_0000_0000) as u32);
}

/// Reads four little-endian bytes at `at`.
pub fn get_u32_le(bytes: &[u8], at: usize) -> (v: u32)
    requires
        at + 4 <= bytes@.len(),
    ensures
        v == u32_from_le(bytes@.subrange(at as int, at + 4)),
{
    let b0: u32 = bytes[at] as u32;
    let b1: u32 = bytes[at + 1] as u32;
    let b2: u32 = bytes[at + 2] as u32;
    let b3: u32 = bytes[at + 3] as u32;
    b0 + b1 * 256 + b2 * 65536 + b3 * 16777216
}

/// Reads four big-endian bytes at `at`.
pub fn get_u32_be(bytes: &[u8], at: usize) -> (v: u32)
    requires
        at + 4 <= bytes@.len(),
    ensures
        v == u32_from_be(bytes@.subrange(at as int, at + 4)),
{
    let b0: u32 = bytes[at] as u32;
    let b1: u32 = bytes[at + 1] as u32;
    let b2: u32 = bytes[at + 2] as u32;
    let b3: u32 = bytes[at + 3] as u32;
    b3 + b2 * 256 + b1 * 65536 + b0 * 16777216
}

/// Reads eight little-endian bytes at `at`.
pub fn get_u64_le(bytes: &[u8], at: usize) -> (v: u64)
    requires
        at + 8 <= bytes@.len(),
    ensures
        v == u64_from_le(bytes@.subrange(at as int, at + 8)),
{
    let len: usize = bytes.len();
    let low: u32 = get_u32_le(bytes, at);
    let high: u32 = get_u32_le(bytes, at + 4);
    proof {
        let s = bytes@.subrange(at as int, at + 8);
        assert(s.subrange(4, 8) =~= bytes@.subrange(at + 4, at + 8));
    }
    low as u64 + (high as u64) * 0x1_0000_0000
}

/// Appends all of `src` to `out`.
pub fn put_bytes(out: &mut Vec<u8>, src: &[u8])
    ensures
        final(out)@ == old(out)@ + src@,
{
    let mut i: usize = 0;
    while i < src.len()
        invariant
            i <= src@.len(),
            out@ == old(out)@ + src@.subrange(0, i as int),
        decreases src@.len() - i,
    {
        out.push(src[i]);
        i += 1;
    }
}

/// A fresh vector holding `src[from..to]`.
pub fn copy_range(src: &[u8], from: usize, to: usize) -> (out: Vec<u8>)
    requires
        from <= to <= src@.len(),
    ensures
        out@ == src@.subrange(from as int, to as int),
{
    let mut out: Vec<u8> = Vec::new();
    let mut i: usize = from;
    while i < to
        invariant
            from <= i <= to <= src@.len(),
            out@ == src@.subrange(from as int, i as int),
        decreases to - i,
    {
        out.push(src[i]);
        i += 1;
    }
    out
}

/// A fresh vector holding all of `src`.
pub fn copy_bytes(src: &[u8]) -> (out: Vec<u8>)
    ensures
        out@ == src@,
{
    let out = copy_range(src, 0, src.len());
    out
}

/// Whether two byte strings hold the same bytes.
pub fn bytes_eq(a: &[u8], b: &[u8]) -> (same: bool)
    ensures
        same == (a@ == b@),
{
    if a.len() != b.len() {
        return false;
    }
    let mut i: usize = 0;
    while i < a.len()
        invariant
            i <= a@.len(),
            a@.len() == b@.len(),
            a@.subrange(0, i as int) == b@.subrange(0, i as int),
        decreases a@.len() - i,
    {
        if a[i] != b[i] {
            return false;
        }
        i += 1;
    }
    assert(a@.subrange(0, i as int) =~= a@);
    assert(b@.subrange(0, i as int) =~= b@);
    true
}

/// The strict lexicographic order on byte strings: the order in which a
/// column hands out its keys. A proper prefix comes before its extensions.
pub open spec fn lex_lt(a: Seq<u8>, b: Seq<u8>) -> bool
    decreases a.len(),
{
    if b.len() == 0 {
        false
    } else if a.len() == 0 {
        true
    } else if a[0] != b[0] {
        a[0] < b[0]
    } else {
        lex_lt(a.skip(1), b.skip(1))
    }
}

/// `a` comes before `b` or is `b`.
pub open spec fn lex_le(a: Seq<u8>, b: Seq<u8>) -> bool {
    a == b || lex_lt(a, b)
}

/// No byte string comes before itself.
pub proof fn lemma_lex_irreflexive(a: Seq<u8>)
    ensures
        !lex_lt(a, a),
    decreases a.len(),
{
    if a.len() > 0 {
        lemma_lex_irreflexive(a.skip(1));
    }
}

/// Of two different byte strings exactly one comes first.
pub proof fn lemma_lex_total(a: Seq<u8>, b: Seq<u8>)
    ensures
        a == b || lex_lt(a, b) || lex_lt(b, a),
        !(lex_lt(a, b) && lex_lt(b, a)),
        lex_lt(a, b) ==> a != b,
    decreases a.len(),
{
    if a.len() == 0 || b.len() == 0 {
        if a.len() == 0 && b.len() == 0 {
            assert(a =~= b);
        }
    } else if a[0] == b[0] {
        lemma_lex_total(a.skip(1), b.skip(1));
        if a.skip(1) == b.skip(1) {
            assert(b =~= seq![b[0]] + b.skip(1));
        }
    }
}

/// The order is transitive.
pub proof fn lemma_lex_transitive(a: Seq<u8>, b: Seq<u8>, c: Seq<u8>)
    requires
        lex_lt(a, b),
        lex_lt(b, c),
    ensures
        lex_lt(a, c),
    decreases a.len(),
{
    if a.len() > 0 && a[0] == b[0] && b[0] == c[0] {
        lemma_lex_transitive(a.skip(1), b.skip(1), c.skip(1));
    }
}

/// Mixed transitivity: `a <= b < c` and `a < b <= c` both give `a < c`.
pub proof fn lemma_lex_le_lt(a: Seq<u8>, b: Seq<u8>, c: Seq<u8>)
    requires
        (lex_le(a, b) && lex_lt(b, c)) || (lex_lt(a, b) && lex_le(b, c)),
    ensures
        lex_lt(a, c),
{
    if a != b && b != c {
        lemma_lex_transitive(a, b, c);
    }
}

/// Appending a zero byte gives the immediate successor of a key: the keys
/// before `k ‖ 0` are those up to and including `k`.
pub proof fn lemma_lex_successor(a: Seq<u8>, k: Seq<u8>)
    ensures
        lex_lt(a, k.push(0u8)) == lex_le(a, k),
    decreases a.len(),
{
    let succ = k.push(0u8);
    if a.len() == 0 {
        if k.len() == 0 {
            assert(a =~= k);
        }
    } else if k.len() == 0 {
        assert(!lex_lt(a.skip(1), succ.skip(1)));
    } else {
        assert(succ.skip(1) =~= k.skip(1).push(0u8));
        if a[0] == k[0] {
            lemma_lex_successor(a.skip(1), k.skip(1));
            if a.skip(1) == k.skip(1) {
                assert(a =~= seq![a[0]] + a.skip(1));
                assert(k =~= seq![k[0]] + k.skip(1));
            }
        }
    }
}

/// Byte strings that start alike are ordered by what follows.
pub proof fn lemma_lex_same_prefix(prefix: Seq<u8>, a: Seq<u8>, b: Seq<u8>)
    ensures
        lex_lt(prefix + a, prefix + b) == lex_lt(a, b),
    decreases prefix.len(),
{
    if prefix.len() == 0 {
        assert(prefix + b =~= b);
    } else {
        assert((prefix + a).skip(1) =~= prefix.skip(1) + a);
        assert((prefix + b).skip(1) =~= prefix.skip(1) + b);
        lemma_lex_same_prefix(prefix.skip(1), a, b);
    }
}

/// Byte strings whose starts are as long as each other and differ are
/// ordered by their starts.
pub proof fn lemma_lex_prefix_decides(first: Seq<u8>, second: Seq<u8>, a: Seq<u8>, b: Seq<u8>)
    requires
        first.len() == second.len(),
        lex_lt(first, second),
    ensures
        lex_lt(first + a, second + b),
    decreases first.len(),
{
    if first.len() > 0 {
        assert((first + a).skip(1) =~= first.skip(1) + a);
        assert((second + b).skip(1) =~= second.skip(1) + b);
        if first[0] == second[0] {
            lemma_lex_prefix_decides(first.skip(1), second.skip(1), a, b);
        }
    }
}

/// Big-endian bytes are ordered as the numbers are.
pub proof fn lemma_u32_be_order(a: u32, b: u32)
    ensures
        lex_lt(u32_be(a), u32_be(b)) == (a < b),
{
    let x = u32_be(a);
    let y = u32_be(b);
    lemma_u32_be_round_trip(a);
    lemma_u32_be_round_trip(b);
    reveal_with_fuel(lex_lt, 5);
    assert(x.skip(1)[0] == x[1] && x.skip(1).skip(1)[0] == x[2] && x.skip(1).skip(1).skip(1)[0]
        == x[3]);
    assert(y.skip(1)[0] == y[1] && y.skip(1).skip(1)[0] == y[2] && y.skip(1).skip(1).skip(1)[0]
        == y[3]);
}

/// How two keys stand to each other.
#[derive(Clone, Copy, Debug, PartialEq, Eq, Structural)]
pub enum KeyOrder {
    /// The first key comes first.
    Before,
    /// Both are the same key.
    Same,
    /// The first key comes last.
    After,
}

/// What `compare_keys` returns for two byte strings.
pub open spec fn key_order(a: Seq<u8>, b: Seq<u8>) -> KeyOrder {
    if a == b {
        KeyOrder::Same
    } else if lex_lt(a, b) {
        KeyOrder::Before
    } else {
        KeyOrder::After
    }
}

/// Compares two keys byte by byte.
pub fn compare_keys(a: &[u8], b: &[u8]) -> (order: KeyOrder)
    ensures
        order == key_order(a@, b@),
        order == KeyOrder::After <==> lex_lt(b@, a@),
{
    proof {
        lemma_lex_total(a@, b@);
        assert(a@.skip(0) =~= a@);
        assert(b@.skip(0) =~= b@);
    }
    let mut i: usize = 0;
    while i < a.len() && i < b.len()
        invariant
            i <= a@.len(),
            i <= b@.len(),
            a@.subrange(0, i as int) == b@.subrange(0, i as int),
            lex_lt(a@, b@) == lex_lt(a@.skip(i as int), b@.skip(i as int)),
            lex_lt(b@, a@) == lex_lt(b@.skip(i as int), a@.skip(i as int)),
        decreases a@.len() - i,
    {
        let x: u8 = a[i];
        let y: u8 = b[i];
        proof {
            let sa = a@.skip(i as int);
            let sb = b@.skip(i as int);
            assert(sa.skip(1) =~= a@.skip(i + 1));
            assert(sb.skip(1) =~= b@.skip(i + 1));
        }
        if x < y {
            return KeyOrder::Before;
        }
        if x > y {
            return KeyOrder::After;
        }
        i += 1;
    }
    if a.len() == b.len() {
        KeyOrder::Same
    } else if a.len() < b.len() {
        KeyOrder::Before
    } else {
        KeyOrder::After
    }
}

} // verus!
