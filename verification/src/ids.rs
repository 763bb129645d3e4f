//! 128-bit identifiers and their canonical hyphenated rendering.
//!
//! Heads, transactions and chunks are all named by 128-bit identifiers.  On
//! the wire an identifier appears in the canonical 8-4-4-4-12 hyphenated
//! lowercase hexadecimal form, 36 characters in all.  This module defines
//! the identifier type, the character-level specification of that form, and
//! verified rendering and parsing that invert each other.

use vstd::prelude::*;
use vstd::string::{StrSliceExecFns, StringExecFns};
use vstd::arithmetic::div_mod::{
    lemma_div_denominator, lemma_fundamental_div_mod, lemma_fundamental_div_mod_converse,
    lemma_mod_pos_bound,
};

verus! {

/// A 128-bit identifier, held as two 64-bit halves, most significant first.
#[derive(Clone, Copy, PartialEq, Eq, Structural, Hash, Debug)]
pub struct Identifier {
    pub hi: u64,
    pub lo: u64,
}

impl Identifier {
    /// The well-known nil identifier (all zero bits), the parent of a root
    /// transaction.
    pub fn nil() -> (r: Identifier)
        ensures
            r.hi == 0,
            r.lo == 0,
    {
        Identifier { hi: 0, lo: 0 }
    }

    pub fn new(hi: u64, lo: u64) -> (r: Identifier)
        ensures
            r.hi == hi,
            r.lo == lo,
    {
        Identifier { hi, lo }
    }
}

/// 16 to the power `n`.
pub open spec fn pow16(n: nat) -> int
    decreases n,
{
    if n == 0 {
        1
    } else {
        16 * pow16((n - 1) as nat)
    }
}

pub proof fn lemma_pow16_pos(n: nat)
    ensures
        pow16(n) >= 1,
    decreases n,
{
    if n > 0 {
        lemma_pow16_pos((n - 1) as nat);
    }
}

/// Hexadecimal digit `j` of a 64-bit value, counting from the most
/// significant digit.
pub open spec fn nibble64(v: u64, j: int) -> int {
    ((v as int) / pow16((15 - j) as nat)) % 16
}

/// Hexadecimal digit `j` of an identifier, counting from the most
/// significant digit of the high half.
pub open spec fn id_nibble(id: Identifier, j: int) -> int {
    if j < 16 {
        nibble64(id.hi, j)
    } else {
        nibble64(id.lo, j - 16)
    }
}

proof fn lemma_nibble64_bound(v: u64, j: int)
    ensures
        0 <= nibble64(v, j) < 16,
{
    lemma_pow16_pos((15 - j) as nat);
    lemma_mod_pos_bound((v as int) / pow16((15 - j) as nat), 16);
    lemma_div_nonneg(v as int, pow16((15 - j) as nat));
}

proof fn lemma_div_nonneg(x: int, d: int)
    requires
        x >= 0,
        d >= 1,
    ensures
        x / d >= 0,
{
    vstd::arithmetic::div_mod::lemma_div_pos_is_pos(x, d);
}

/// The lowercase hexadecimal digit for a value below 16.
pub open spec fn hex_char(n: int) -> char {
    if n == 0 { '0' }
    else if n == 1 { '1' }
    else if n == 2 { '2' }
    else if n == 3 { '3' }
    else if n == 4 { '4' }
    else if n == 5 { '5' }
    else if n == 6 { '6' }
    else if n == 7 { '7' }
    else if n == 8 { '8' }
    else if n == 9 { '9' }
    else if n == 10 { 'a' }
    else if n == 11 { 'b' }
    else if n == 12 { 'c' }
    else if n == 13 { 'd' }
    else if n == 14 { 'e' }
    else { 'f' }
}

proof fn lemma_hex_char_injective(a: int, b: int)
    requires
        0 <= a < 16,
        0 <= b < 16,
        hex_char(a) == hex_char(b),
    ensures
        a == b,
{
}

/// Whether a hyphen precedes hexadecimal digit `j` in the canonical form.
pub open spec fn hyphen_before(j: int) -> bool {
    j == 8 || j == 12 || j == 16 || j == 20
}

/// The first `n` hexadecimal digits of the canonical form, hyphens included.
pub open spec fn uuid_prefix(id: Identifier, n: int) -> Seq<char>
    decreases n,
{
    if n <= 0 {
        Seq::<char>::empty()
    } else {
        uuid_prefix(id, n - 1) + (if hyphen_before(n - 1) {
            seq!['-']
        } else {
            Seq::<char>::empty()
        }) + seq![hex_char(id_nibble(id, n - 1))]
    }
}

/// The canonical hyphenated lowercase rendering of an identifier.
pub open spec fn uuid_chars(id: Identifier) -> Seq<char> {
    uuid_prefix(id, 32)
}

/// The number of characters of the canonical form that precede
/// hexadecimal digit `n` (equivalently: the length of `uuid_prefix(id, n)`).
pub open spec fn uuid_prefix_len(n: int) -> int {
    n + (if n >= 9 { 1int } else { 0int }) + (if n >= 13 { 1int } else { 0int })
        + (if n >= 17 { 1int } else { 0int }) + (if n >= 21 { 1int } else { 0int })
}

/// The character of the canonical form at position `k`: a hyphen at the four
/// fixed positions, a hexadecimal digit everywhere else.
pub open spec fn uuid_char_at(id: Identifier, k: int) -> char {
    if k == 8 || k == 13 || k == 18 || k == 23 {
        '-'
    } else {
        hex_char(id_nibble(id, nib_index(k)))
    }
}

/// The index of the hexadecimal digit that stands at character position `k`.
pub open spec fn nib_index(k: int) -> int {
    k - (if k > 8 { 1int } else { 0int }) - (if k > 13 { 1int } else { 0int })
        - (if k > 18 { 1int } else { 0int }) - (if k > 23 { 1int } else { 0int })
}

pub proof fn lemma_uuid_prefix_chars(id: Identifier, n: int)
    requires
        0 <= n <= 32,
    ensures
        uuid_prefix(id, n).len() == uuid_prefix_len(n),
        forall|k: int|
            0 <= k < uuid_prefix_len(n) ==> #[trigger] uuid_prefix(id, n)[k] == uuid_char_at(id, k),
    decreases n,
{
    if n > 0 {
        lemma_uuid_prefix_chars(id, n - 1);
    }
}

/// The canonical form is 36 characters, described position by position by
/// `uuid_char_at`.
pub proof fn lemma_uuid_chars(id: Identifier)
    ensures
        uuid_chars(id).len() == 36,
        forall|k: int| 0 <= k < 36 ==> #[trigger] uuid_chars(id)[k] == uuid_char_at(id, k),
{
    lemma_uuid_prefix_chars(id, 32);
}

/// A 64-bit value is determined by its 16 hexadecimal digits.
proof fn lemma_nibbles_determine(x: u64, y: u64)
    requires
        forall|j: int| 0 <= j < 16 ==> nibble64(x, j) == nibble64(y, j),
    ensures
        x == y,
{
    lemma_fold_of_nibbles(x, 16);
    lemma_fold_of_nibbles(y, 16);
    assert(fold_nibbles(x, 16) == fold_nibbles(y, 16)) by {
        lemma_fold_nibbles_eq(x, y, 16);
    }
    assert(pow16(0) == 1);
    assert((x as int) / 1int == x as int) by {
        vstd::arithmetic::div_mod::lemma_div_by_self(1);
        lemma_fundamental_div_mod(x as int, 1);
    }
    assert((y as int) / 1int == y as int) by {
        lemma_fundamental_div_mod(y as int, 1);
    }
}

/// Horner accumulation of the first `n` hexadecimal digits of `v`.
spec fn fold_nibbles(v: u64, n: int) -> int
    decreases n,
{
    if n <= 0 {
        0
    } else {
        16 * fold_nibbles(v, n - 1) + nibble64(v, n - 1)
    }
}

proof fn lemma_fold_nibbles_eq(x: u64, y: u64, n: int)
    requires
        0 <= n <= 16,
        forall|j: int| 0 <= j < 16 ==> nibble64(x, j) == nibble64(y, j),
    ensures
        fold_nibbles(x, n) == fold_nibbles(y, n),
    decreases n,
{
    if n > 0 {
        lemma_fold_nibbles_eq(x, y, n - 1);
    }
}

/// Horner accumulation of a sequence of hexadecimal digits.
pub open spec fn fold_seq(nibs: Seq<u8>) -> int
    decreases nibs.len(),
{
    if nibs.len() == 0 {
        0
    } else {
        16 * fold_seq(nibs.drop_last()) + nibs.last()
    }
}

proof fn lemma_fold_seq_bound(nibs: Seq<u8>)
    requires
        forall|i: int| 0 <= i < nibs.len() ==> nibs[i] < 16,
    ensures
        0 <= fold_seq(nibs) < pow16(nibs.len()),
    decreases nibs.len(),
{
    if nibs.len() > 0 {
        lemma_fold_seq_bound(nibs.drop_last());
        assert(nibs.last() < 16);
    }
}

/// Digit `j` (most significant first) can be read back out of the folded
/// value by division and remainder.
proof fn lemma_fold_seq_nibble(nibs: Seq<u8>, j: int)
    requires
        forall|i: int| 0 <= i < nibs.len() ==> nibs[i] < 16,
        0 <= j < nibs.len(),
    ensures
        fold_seq(nibs) / pow16((nibs.len() - 1 - j) as nat) % 16 == nibs[j],
    decreases nibs.len(),
{
    let f = fold_seq(nibs);
    let f1 = fold_seq(nibs.drop_last());
    let b = nibs.last();
    lemma_fold_seq_bound(nibs.drop_last());
    lemma_fold_seq_bound(nibs);
    lemma_fundamental_div_mod_converse(f, 16, f1, b as int);
    if j == nibs.len() - 1 {
        assert(pow16(0) == 1);
        assert(f / 1int == f) by {
            lemma_fundamental_div_mod(f, 1);
        }
    } else {
        let e = (nibs.len() - 1 - j) as nat;
        lemma_pow16_pos((e - 1) as nat);
        assert(pow16(e) == 16 * pow16((e - 1) as nat));
        lemma_div_denominator(f, 16, pow16((e - 1) as nat));
        assert(16 * pow16((e - 1) as nat) == pow16((e - 1) as nat) * 16) by {
            vstd::arithmetic::mul::lemma_mul_is_commutative(16, pow16((e - 1) as nat));
        }
        assert(f / pow16(e) == f1 / pow16((e - 1) as nat));
        lemma_fold_seq_nibble(nibs.drop_last(), j);
        assert(nibs.drop_last()[j] == nibs[j]);
    }
}

/// Folding the first `n` digits of `v` recovers `v / 16^(16 - n)`.
proof fn lemma_fold_of_nibbles(v: u64, n: int)
    requires
        0 <= n <= 16,
    ensures
        fold_nibbles(v, n) == (v as int) / pow16((16 - n) as nat),
    decreases n,
{
    if n == 0 {
        assert(pow16(16) == 0x10000000000000000) by {
            reveal_with_fuel(pow16, 17);
        }
        assert((v as int) / pow16(16nat) == 0) by {
            vstd::arithmetic::div_mod::lemma_basic_div(v as int, pow16(16nat));
        }
    } else {
        lemma_fold_of_nibbles(v, n - 1);
        let d = pow16((16 - n) as nat);
        lemma_pow16_pos((16 - n) as nat);
        assert(pow16((17 - n) as nat) == 16 * d);
        let q = (v as int) / d;
        // v / 16^(17-n) == (v / d) / 16
        lemma_div_denominator(v as int, d, 16);
        assert((v as int) / (d * 16) == q / 16);
        assert(d * 16 == 16 * d) by {
            vstd::arithmetic::mul::lemma_mul_is_commutative(d, 16);
        }
        // q == 16 * (q / 16) + q % 16, and q % 16 == nibble64(v, n - 1)
        lemma_fundamental_div_mod(q, 16);
        assert(nibble64(v, n - 1) == q % 16);
    }
}

/// Monotonicity of `pow16`.
proof fn lemma_pow16_le(a: nat, b: nat)
    requires
        a <= b,
    ensures
        pow16(a) <= pow16(b),
    decreases b,
{
    if a < b {
        lemma_pow16_le(a, (b - 1) as nat);
        lemma_pow16_pos((b - 1) as nat);
    }
}

/// The lowercase hexadecimal digit for a value below 16.
fn hex_str(n: u8) -> (r: &'static str)
    requires
        n < 16,
    ensures
        r@ == seq![hex_char(n as int)],
{
    proof {
        reveal_strlit("0");
        reveal_strlit("1");
        reveal_strlit("2");
        reveal_strlit("3");
        reveal_strlit("4");
        reveal_strlit("5");
        reveal_strlit("6");
        reveal_strlit("7");
        reveal_strlit("8");
        reveal_strlit("9");
        reveal_strlit("a");
        reveal_strlit("b");
        reveal_strlit("c");
        reveal_strlit("d");
        reveal_strlit("e");
        reveal_strlit("f");
    }
    let r = match n {
        0 => "0",
        1 => "1",
        2 => "2",
        3 => "3",
        4 => "4",
        5 => "5",
        6 => "6",
        7 => "7",
        8 => "8",
        9 => "9",
        10 => "a",
        11 => "b",
        12 => "c",
        13 => "d",
        14 => "e",
        _ => "f",
    };
    proof {
        assert(r@ =~= seq![hex_char(n as int)]);
    }
    r
}

/// The value of a lowercase hexadecimal digit, or `None` for any other
/// character.
fn hex_val(c: char) -> (r: Option<u8>)
    ensures
        r matches Some(n) ==> n < 16 && c == hex_char(n as int),
        r is None ==> forall|n: int| 0 <= n < 16 ==> c != hex_char(n),
{
    match c {
        '0' => Some(0),
        '1' => Some(1),
        '2' => Some(2),
        '3' => Some(3),
        '4' => Some(4),
        '5' => Some(5),
        '6' => Some(6),
        '7' => Some(7),
        '8' => Some(8),
        '9' => Some(9),
        'a' => Some(10),
        'b' => Some(11),
        'c' => Some(12),
        'd' => Some(13),
        'e' => Some(14),
        'f' => Some(15),
        _ => None,
    }
}

/// The 16 hexadecimal digits of a 64-bit value, most significant first.
fn nibbles_of(v: u64) -> (r: Vec<u8>)
    ensures
        r@.len() == 16,
        forall|j: int| 0 <= j < 16 ==> r@[j] == nibble64(v, j),
{
    let mut r: Vec<u8> = Vec::new();
    let mut p: u64 = 0x1000000000000000;
    proof {
        assert(pow16(15) == 0x1000000000000000) by {
            reveal_with_fuel(pow16, 16);
        }
    }
    let mut j: usize = 0;
    while j < 16
        invariant
            j <= 16,
            r@.len() == j,
            forall|k: int| 0 <= k < j ==> r@[k] == nibble64(v, k),
            j < 16 ==> p as int == pow16((15 - j) as nat),
        decreases 16 - j,
    {
        proof {
            lemma_pow16_pos((15 - j) as nat);
            lemma_div_nonneg(v as int, p as int);
            lemma_mod_pos_bound((v as int) / (p as int), 16);
        }
        let nib = ((v / p) % 16) as u8;
        r.push(nib);
        if j < 15 {
            proof {
                lemma_pow16_pos((14 - j) as nat);
                assert(pow16((15 - j) as nat) == 16 * pow16((14 - j) as nat));
                lemma_fundamental_div_mod_converse(p as int, 16, pow16((14 - j) as nat), 0);
            }
            p = p / 16;
        }
        j += 1;
    }
    r
}

/// Appends the canonical hyphenated rendering of `id` to `s`.
pub fn append_uuid(s: &mut String, id: Identifier)
    ensures
        final(s)@ == old(s)@ + uuid_chars(id),
{
    let hn = nibbles_of(id.hi);
    let ln = nibbles_of(id.lo);
    proof {
        assert(old(s)@ + uuid_prefix(id, 0) =~= old(s)@);
    }
    let mut j: usize = 0;
    while j < 32
        invariant
            j <= 32,
            s@ == old(s)@ + uuid_prefix(id, j as int),
            hn@.len() == 16,
            ln@.len() == 16,
            forall|k: int| 0 <= k < 16 ==> hn@[k] == nibble64(id.hi, k),
            forall|k: int| 0 <= k < 16 ==> ln@[k] == nibble64(id.lo, k),
        decreases 32 - j,
    {
        if j == 8 || j == 12 || j == 16 || j == 20 {
            s.append("-");
        }
        let nib = if j < 16 {
            hn[j]
        } else {
            ln[j - 16]
        };
        proof {
            if j < 16 {
                lemma_nibble64_bound(id.hi, j as int);
            } else {
                lemma_nibble64_bound(id.lo, j as int - 16);
            }
            assert(nib == id_nibble(id, j as int));
        }
        let h = hex_str(nib);
        s.append(h);
        proof {
            reveal_strlit("-");
            assert(s@ =~= old(s)@ + uuid_prefix(id, j as int + 1));
        }
        j += 1;
    }
    proof {
        assert(uuid_prefix(id, 32) == uuid_chars(id));
    }
}

impl Identifier {
    /// The canonical hyphenated lowercase rendering, 36 characters.
    pub fn to_hyphenated(&self) -> (r: String)
        ensures
            r@ == uuid_chars(*self),
    {
        let mut s = String::new();
        append_uuid(&mut s, *self);
        proof {
            assert(Seq::<char>::empty() + uuid_chars(*self) =~= uuid_chars(*self));
        }
        s
    }

    /// Parses the canonical hyphenated rendering.  Returns the identifier
    /// exactly when `s` is such a rendering, so parsing inverts
    /// `to_hyphenated`.
    pub fn from_hyphenated(s: &str) -> (r: Option<Identifier>)
        ensures
            r matches Some(id) ==> s@ == uuid_chars(id),
            forall|id: Identifier| s@ == uuid_chars(id) ==> r == Some(id),
    {
        let n = s.unicode_len();
        if n != 36 {
            proof {
                assert forall|id: Identifier| s@ != uuid_chars(id) by {
                    lemma_uuid_chars(id);
                }
            }
            return None;
        }
        let r = parse_uuid_at(s, 0);
        proof {
            assert(s@.subrange(0, 36) =~= s@);
        }
        r
    }
}

/// Folds sixteen digits of `nibs` starting at `from` into a 64-bit value.
fn fold_half(nibs: &Vec<u8>, from: usize) -> (r: u64)
    requires
        from + 16 <= nibs@.len(),
        forall|i: int| 0 <= i < nibs@.len() ==> nibs@[i] < 16,
    ensures
        r as int == fold_seq(nibs@.subrange(from as int, from as int + 16)),
{
    let total = nibs.len();
    proof {
        assert(pow16(16) == 0x10000000000000000) by {
            reveal_with_fuel(pow16, 17);
        }
    }
    let mut acc: u64 = 0;
    let mut i: usize = 0;
    while i < 16
        invariant
            i <= 16,
            from + 16 <= nibs@.len(),
            total == nibs@.len(),
            forall|k: int| 0 <= k < nibs@.len() ==> nibs@[k] < 16,
            acc as int == fold_seq(nibs@.subrange(from as int, from as int + i)),
            (acc as int) < pow16(i as nat),
            pow16(16) == 0x10000000000000000,
        decreases 16 - i,
    {
        let nib = nibs[from + i];
        proof {
            assert(pow16((i + 1) as nat) == 16 * pow16(i as nat));
            lemma_pow16_le((i + 1) as nat, 16);
            let sub1 = nibs@.subrange(from as int, from as int + i + 1);
            assert(sub1.drop_last() =~= nibs@.subrange(from as int, from as int + i));
            assert(sub1.last() == nibs@[from as int + i]);
        }
        acc = acc * 16 + (nib as u64);
        i += 1;
    }
    acc
}

/// Parses the canonical hyphenated rendering of an identifier found at
/// character position `at` of `s`.  Returns the identifier exactly when the
/// 36 characters there are such a rendering.
pub fn parse_uuid_at(s: &str, at: usize) -> (r: Option<Identifier>)
    requires
        at + 36 <= s@.len(),
        at + 36 <= usize::MAX,
    ensures
        r matches Some(id) ==> s@.subrange(at as int, at as int + 36) == uuid_chars(id),
        forall|id: Identifier|
            s@.subrange(at as int, at as int + 36) == uuid_chars(id) ==> r == Some(id),
{
    let ghost sub = s@.subrange(at as int, at as int + 36);
    let mut nibs: Vec<u8> = Vec::new();
    let mut k: usize = 0;
    while k < 36
        invariant
            at + 36 <= s@.len(),
            at + 36 <= usize::MAX,
            sub == s@.subrange(at as int, at as int + 36),
            k <= 36,
            nibs@.len() == nib_index(k as int),
            forall|i: int| 0 <= i < nibs@.len() ==> nibs@[i] < 16,
            forall|k2: int|
                0 <= k2 < k && (k2 == 8 || k2 == 13 || k2 == 18 || k2 == 23) ==> sub[k2] == '-',
            forall|k2: int|
                0 <= k2 < k && !(k2 == 8 || k2 == 13 || k2 == 18 || k2 == 23) ==> sub[k2]
                    == hex_char(nibs@[nib_index(k2)] as int),
            forall|id: Identifier|
                sub == uuid_chars(id) ==> (forall|i: int|
                    0 <= i < nibs@.len() ==> nibs@[i] == id_nibble(id, i)),
        decreases 36 - k,
    {
        let c = s.get_char(at + k);
        proof {
            assert(c == sub[k as int]);
        }
        if k == 8 || k == 13 || k == 18 || k == 23 {
            if c != '-' {
                proof {
                    assert forall|id: Identifier| sub != uuid_chars(id) by {
                        lemma_uuid_chars(id);
                        if sub == uuid_chars(id) {
                            assert(sub[k as int] == uuid_char_at(id, k as int));
                        }
                    }
                }
                return None;
            }
        } else {
            match hex_val(c) {
                Some(n) => {
                    nibs.push(n);
                    proof {
                        assert forall|id: Identifier|
                            sub == uuid_chars(id) implies (forall|i: int|
                            0 <= i < nibs@.len() ==> nibs@[i] == id_nibble(id, i)) by {
                            lemma_uuid_chars(id);
                            assert(sub[k as int] == uuid_char_at(id, k as int));
                            let j = nib_index(k as int);
                            if j < 16 {
                                lemma_nibble64_bound(id.hi, j);
                            } else {
                                lemma_nibble64_bound(id.lo, j - 16);
                            }
                            lemma_hex_char_injective(n as int, id_nibble(id, j));
                        }
                    }
                },
                None => {
                    proof {
                        assert forall|id: Identifier| sub != uuid_chars(id) by {
                            lemma_uuid_chars(id);
                            if sub == uuid_chars(id) {
                                let j = nib_index(k as int);
                                if j < 16 {
                                    lemma_nibble64_bound(id.hi, j);
                                } else {
                                    lemma_nibble64_bound(id.lo, j - 16);
                                }
                                assert(sub[k as int] == hex_char(id_nibble(id, j)));
                            }
                        }
                    }
                    return None;
                },
            }
        }
        k += 1;
    }
    let hi = fold_half(&nibs, 0);
    let lo = fold_half(&nibs, 16);
    let id = Identifier { hi, lo };
    proof {
        let hs = nibs@.subrange(0, 16);
        let ls = nibs@.subrange(16, 32);
        assert forall|j: int| 0 <= j < 16 implies nibble64(hi, j) == nibs@[j] by {
            lemma_fold_seq_nibble(hs, j);
        }
        assert forall|j: int| 0 <= j < 16 implies nibble64(lo, j) == nibs@[16 + j] by {
            lemma_fold_seq_nibble(ls, j);
        }
        lemma_uuid_chars(id);
        assert forall|k2: int| 0 <= k2 < 36 implies sub[k2] == uuid_char_at(id, k2) by {
            if !(k2 == 8 || k2 == 13 || k2 == 18 || k2 == 23) {
                let j = nib_index(k2);
                assert(sub[k2] == hex_char(nibs@[j] as int));
                assert(id_nibble(id, j) == nibs@[j]);
            }
        }
        assert(sub =~= uuid_chars(id));
        assert forall|id2: Identifier| sub == uuid_chars(id2) implies id2 == id by {
            assert forall|j: int| 0 <= j < 16 implies nibble64(id2.hi, j) == nibble64(id.hi, j) by {
                assert(nibs@[j] == id_nibble(id2, j));
            }
            assert forall|j: int| 0 <= j < 16 implies nibble64(id2.lo, j) == nibble64(id.lo, j) by {
                assert(nibs@[16 + j] == id_nibble(id2, 16 + j));
            }
            lemma_nibbles_determine(id2.hi, id.hi);
            lemma_nibbles_determine(id2.lo, id.lo);
        }
    }
    Some(id)
}

} // verus!
