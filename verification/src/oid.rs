//! Document identifiers: an opaque 12-byte value generated by the storage
//! driver, carried here as an unsigned integer below `16^24`, together with
//! its canonical 24-digit hexadecimal text form.

use crate::RepoError;
use vstd::prelude::*;

verus! {

/// `16^n`, the number of values a string of `n` hex digits can denote.
pub open spec fn pow16(n: nat) -> int
    decreases n,
{
    if n == 0 {
        1
    } else {
        16 * pow16((n - 1) as nat)
    }
}

/// An identifier value fits in 12 bytes, that is 24 hex digits.
pub open spec fn oid_in_range(v: int) -> bool {
    0 <= v < pow16(24)
}

/// The value of one hexadecimal digit character, or `-1` if it is none.
pub open spec fn hex_char_val(c: char) -> int {
    if c == '0' {
        0
    } else if c == '1' {
        1
    } else if c == '2' {
        2
    } else if c == '3' {
        3
    } else if c == '4' {
        4
    } else if c == '5' {
        5
    } else if c == '6' {
        6
    } else if c == '7' {
        7
    } else if c == '8' {
        8
    } else if c == '9' {
        9
    } else if c == 'a' || c == 'A' {
        10
    } else if c == 'b' || c == 'B' {
        11
    } else if c == 'c' || c == 'C' {
        12
    } else if c == 'd' || c == 'D' {
        13
    } else if c == 'e' || c == 'E' {
        14
    } else if c == 'f' || c == 'F' {
        15
    } else {
        -1
    }
}

pub open spec fn is_hex_char(c: char) -> bool {
    hex_char_val(c) >= 0
}

/// The lower-case digit character for a value below 16.
pub open spec fn hex_digit_char(d: int) -> char
    recommends
        0 <= d < 16,
{
    if d == 0 {
        '0'
    } else if d == 1 {
        '1'
    } else if d == 2 {
        '2'
    } else if d == 3 {
        '3'
    } else if d == 4 {
        '4'
    } else if d == 5 {
        '5'
    } else if d == 6 {
        '6'
    } else if d == 7 {
        '7'
    } else if d == 8 {
        '8'
    } else if d == 9 {
        '9'
    } else if d == 10 {
        'a'
    } else if d == 11 {
        'b'
    } else if d == 12 {
        'c'
    } else if d == 13 {
        'd'
    } else if d == 14 {
        'e'
    } else {
        'f'
    }
}

/// The `n`-digit big-endian hexadecimal rendering of `v`.
pub open spec fn hex_text(v: int, n: nat) -> Seq<char>
    decreases n,
{
    if n == 0 {
        Seq::<char>::empty()
    } else {
        hex_text(v / 16, (n - 1) as nat).push(hex_digit_char(v % 16))
    }
}

/// The value a big-endian sequence of hexadecimal digits denotes.
pub open spec fn hex_value(s: Seq<char>) -> int
    decreases s.len(),
{
    if s.len() == 0 {
        0
    } else {
        hex_value(s.drop_last()) * 16 + hex_char_val(s.last())
    }
}

pub open spec fn all_hex(s: Seq<char>) -> bool {
    forall|i: int| 0 <= i < s.len() ==> is_hex_char(s[i])
}

pub proof fn lemma_pow16_pos(n: nat)
    ensures
        pow16(n) >= 1,
    decreases n,
{
    if n > 0 {
        lemma_pow16_pos((n - 1) as nat);
    }
}

pub proof fn lemma_pow16_24_value()
    ensures
        pow16(24) == 0x1000000000000000000000000,
{
    reveal_with_fuel(pow16, 25);
}

pub proof fn lemma_hex_text_len(v: int, n: nat)
    ensures
        hex_text(v, n).len() == n,
    decreases n,
{
    if n > 0 {
        lemma_hex_text_len(v / 16, (n - 1) as nat);
    }
}

pub proof fn lemma_pow16_mono(a: nat, b: nat)
    requires
        a <= b,
    ensures
        pow16(a) <= pow16(b),
    decreases b,
{
    if a < b {
        lemma_pow16_mono(a, (b - 1) as nat);
        lemma_pow16_pos((b - 1) as nat);
    }
}

/// Dividing by 16 steps down one digit's worth of range.
proof fn lemma_div16_bound(v: int, p: int)
    requires
        0 <= v,
        1 <= p,
        v < 16 * p,
    ensures
        0 <= v / 16 < p,
{
    assert(v == 16 * (v / 16) + v % 16 && 0 <= v % 16 < 16 && 0 <= v / 16) by (nonlinear_arith)
        requires
            v >= 0,
    ;
}

/// Reading back the digits of a value in range yields the value: the
/// hexadecimal rendering loses nothing.
pub proof fn lemma_hex_value_of_hex_text(v: int, n: nat)
    requires
        0 <= v < pow16(n),
    ensures
        hex_value(hex_text(v, n)) == v,
    decreases n,
{
    if n == 0 {
        assert(pow16(0) == 1);
    } else {
        lemma_pow16_pos((n - 1) as nat);
        lemma_div16_bound(v, pow16((n - 1) as nat));
        lemma_hex_value_of_hex_text(v / 16, (n - 1) as nat);
        let prefix = hex_text(v / 16, (n - 1) as nat);
        let whole = prefix.push(hex_digit_char(v % 16));
        assert(whole.drop_last() =~= prefix);
        assert(whole.last() == hex_digit_char(v % 16));
        assert(0 <= v % 16 < 16);
        assert(hex_char_val(hex_digit_char(v % 16)) == v % 16);
        assert(v == 16 * (v / 16) + v % 16) by (nonlinear_arith)
            requires
                v >= 0,
        ;
    }
}

/// Distinct in-range values render as distinct digit strings.
pub proof fn lemma_hex_text_injective(v1: int, v2: int, n: nat)
    requires
        0 <= v1 < pow16(n),
        0 <= v2 < pow16(n),
        hex_text(v1, n) == hex_text(v2, n),
    ensures
        v1 == v2,
{
    lemma_hex_value_of_hex_text(v1, n);
    lemma_hex_value_of_hex_text(v2, n);
}

/// Every digit the rendering emits is a hexadecimal digit character.
pub proof fn lemma_hex_text_all_hex(v: int, n: nat)
    requires
        0 <= v,
    ensures
        all_hex(hex_text(v, n)),
    decreases n,
{
    if n > 0 {
        lemma_hex_text_all_hex(v / 16, (n - 1) as nat);
        let prefix = hex_text(v / 16, (n - 1) as nat);
        assert(0 <= v % 16 < 16);
        assert(is_hex_char(hex_digit_char(v % 16)));
        assert(forall|i: int|
            0 <= i < hex_text(v, n).len() ==> {
                if i < prefix.len() {
                    hex_text(v, n)[i] == prefix[i]
                } else {
                    hex_text(v, n)[i] == hex_digit_char(v % 16)
                }
            });
    }
}

/// An opaque document identifier: twelve bytes assigned by the storage
/// driver, held as the value its 24 hexadecimal digits denote.
#[derive(Clone, Copy, Debug, PartialEq, Eq, Structural)]
pub struct Oid {
    pub value: u128,
}

impl View for Oid {
    type V = int;

    open spec fn view(&self) -> int {
        self.value as int
    }
}

impl Oid {
    pub open spec fn wf(&self) -> bool {
        oid_in_range(self@)
    }

    /// Parse an identifier from its canonical 24-digit hexadecimal text.
    /// Exactly the strings of 24 hex digits (either case) are accepted.
    pub fn parse(s: &str) -> (r: Result<Oid, RepoError>)
        ensures
            match r {
                Ok(o) => s@.len() == 24 && all_hex(s@) && o@ == hex_value(s@) && o.wf(),
                Err(e) => e == RepoError::MalformedId && !(s@.len() == 24 && all_hex(s@)),
            },
    {
        let len = s.unicode_len();
        if len != 24 {
            return Err(RepoError::MalformedId);
        }
        let mut v: u128 = 0;
        let mut i: usize = 0;
        while i < 24
            invariant
                s@.len() == 24,
                i <= 24,
                all_hex(s@.subrange(0, i as int)),
                v as int == hex_value(s@.subrange(0, i as int)),
                v < pow16(i as nat),
            decreases 24 - i,
        {
            let c = s.get_char(i);
            match hex_nibble(c) {
                Some(d) => {
                    proof {
                        lemma_pow16_mono(i as nat, 23);
                        lemma_pow16_24_value();
                        let prefix = s@.subrange(0, i as int);
                        let next = s@.subrange(0, i as int + 1);
                        assert(next.drop_last() =~= prefix);
                        assert(next.last() == s@[i as int]);
                    }
                    v = v * 16 + (d as u128);
                }
                None => {
                    return Err(RepoError::MalformedId);
                }
            }
            i += 1;
        }
        proof {
            assert(s@.subrange(0, 24) =~= s@);
        }
        Ok(Oid { value: v })
    }

    /// Render the identifier as its canonical 24-digit lower-case
    /// hexadecimal text.
    pub fn to_hex(&self) -> (r: String)
        requires
            self.wf(),
        ensures
            r@ == hex_text(self@, 24),
            r@.len() == 24,
            all_hex(r@),
            hex_value(r@) == self@,
    {
        proof {
            lemma_hex_text_len(self@, 24);
            lemma_hex_text_all_hex(self@, 24);
            lemma_hex_value_of_hex_text(self@, 24);
        }
        hex_string_rec(self.value, 24)
    }
}

/// The value of one hexadecimal digit character, if it is one.
fn hex_nibble(c: char) -> (r: Option<u8>)
    ensures
        match r {
            Some(d) => is_hex_char(c) && d == hex_char_val(c),
            None => !is_hex_char(c),
        },
{
    if c == '0' {
        Some(0)
    } else if c == '1' {
        Some(1)
    } else if c == '2' {
        Some(2)
    } else if c == '3' {
        Some(3)
    } else if c == '4' {
        Some(4)
    } else if c == '5' {
        Some(5)
    } else if c == '6' {
        Some(6)
    } else if c == '7' {
        Some(7)
    } else if c == '8' {
        Some(8)
    } else if c == '9' {
        Some(9)
    } else if c == 'a' || c == 'A' {
        Some(10)
    } else if c == 'b' || c == 'B' {
        Some(11)
    } else if c == 'c' || c == 'C' {
        Some(12)
    } else if c == 'd' || c == 'D' {
        Some(13)
    } else if c == 'e' || c == 'E' {
        Some(14)
    } else if c == 'f' || c == 'F' {
        Some(15)
    } else {
        None
    }
}

/// The one-character string for a digit value below 16.
fn hex_digit_str(d: u8) -> (r: &'static str)
    requires
        d < 16,
    ensures
        r@.len() == 1,
        r@[0] == hex_digit_char(d as int),
{
    proof {
        reveal_strlit("0");
        reveal_strlit("1");
        reveal_strlit("2");
        reveal_strlit("3");
        reveal_strlit("4");
        reveal_strlit("5");
        reveal_strlit("6");
        reveal_strlit("7");
        reveal_strlit("8");
        reveal_strlit("9");
        reveal_strlit("a");
        reveal_strlit("b");
        reveal_strlit("c");
        reveal_strlit("d");
        reveal_strlit("e");
        reveal_strlit("f");
    }
    if d == 0 {
        "0"
    } else if d == 1 {
        "1"
    } else if d == 2 {
        "2"
    } else if d == 3 {
        "3"
    } else if d == 4 {
        "4"
    } else if d == 5 {
        "5"
    } else if d == 6 {
        "6"
    } else if d == 7 {
        "7"
    } else if d == 8 {
        "8"
    } else if d == 9 {
        "9"
    } else if d == 10 {
        "a"
    } else if d == 11 {
        "b"
    } else if d == 12 {
        "c"
    } else if d == 13 {
        "d"
    } else if d == 14 {
        "e"
    } else {
        "f"
    }
}

/// Build the `n`-digit rendering, most significant digit first.
fn hex_string_rec(v: u128, n: usize) -> (r: String)
    requires
        n <= 24,
        (v as int) < pow16(n as nat),
    ensures
        r@ == hex_text(v as int, n as nat),
    decreases n,
{
    if n == 0 {
        let r = String::new();
        proof {
            assert(r@ =~= hex_text(v as int, 0));
        }
        r
    } else {
        proof {
            lemma_pow16_pos((n - 1) as nat);
            lemma_div16_bound(v as int, pow16((n - 1) as nat));
        }
        let mut r = hex_string_rec(v / 16, n - 1);
        let digit = (v % 16) as u8;
        let ds = hex_digit_str(digit);
        r.append(ds);
        proof {
            assert(r@ =~= hex_text(v as int, n as nat));
        }
        r
    }
}

/// Relies on bson's `ObjectId::new` (reached through the mongodb driver),
/// which generates a fresh 12-byte document identifier, and on
/// `ObjectId::to_hex`, which renders those bytes as 24 hexadecimal digits.
/// Nothing is assumed about which identifier comes back. `ObjectId::new`
/// reads the system clock for its timestamp bytes and panics if the clock
/// is before 1970 or past 2106 — environmental, like the clock wrapper's.
#[verifier::external_body]
fn generated_oid_hex() -> (r: String)
    ensures
        r@.len() == 24,
        all_hex(r@),
{
    mongodb::bson::oid::ObjectId::new().to_hex()
}

/// A driver-generated identifier, as the storage engine would assign one
/// at insert time.
pub(crate) fn fresh_oid() -> (o: Oid)
    ensures
        o.wf(),
{
    let s = generated_oid_hex();
    match Oid::parse(s.as_str()) {
        Ok(o) => o,
        Err(_) => {
            proof {
                assert(false);
            }
            Oid { value: 0 }
        }
    }
}

} // verus!
