use crate::decimal::{digit_char, digit_str, int_decimal, nat_decimal};
use vstd::prelude::*;
use vstd::string::*;

verus! {

/// The base of a limb: 2^32.
pub open spec fn limb_base() -> nat {
    4294967296
}

/// The number that little-endian limbs in base 2^32 stand for.
pub open spec fn limbs_value(limbs: Seq<u32>) -> nat
    decreases limbs.len(),
{
    if limbs.len() == 0 {
        0
    } else {
        limbs[0] as nat + limb_base() * limbs_value(limbs.drop_first())
    }
}

/// A signed integer of any size: a sign and a magnitude in little-endian
/// limbs of 32 bits. Leading zero limbs and a negative zero are allowed and
/// change nothing of the value.
#[derive(Debug)]
pub struct Integer {
    pub negative: bool,
    pub magnitude: Vec<u32>,
}

impl View for Integer {
    type V = int;

    /// The integer that the sign and the magnitude stand for.
    open spec fn view(&self) -> int {
        if self.negative {
            -(limbs_value(self.magnitude@) as int)
        } else {
            limbs_value(self.magnitude@) as int
        }
    }
}

/// The numeral that decimal digits, least significant first, spell.
pub open spec fn digits_text(digits: Seq<u8>) -> Seq<char> {
    Seq::new(digits.len(), |k: int| digit_char(digits[digits.len() - 1 - k] as int))
}

/// The limbs from index `from` on stand for their own value.
proof fn lemma_value_from(limbs: Seq<u32>, from: int)
    requires
        0 <= from < limbs.len(),
    ensures
        limbs_value(limbs.subrange(from, limbs.len() as int)) == limbs[from] as nat + limb_base()
            * limbs_value(limbs.subrange(from + 1, limbs.len() as int)),
{
    let tail = limbs.subrange(from, limbs.len() as int);
    assert(tail.drop_first() =~= limbs.subrange(from + 1, limbs.len() as int));
}

/// Limbs stand for zero exactly when each of them is zero.
proof fn lemma_value_zero(limbs: Seq<u32>)
    ensures
        limbs_value(limbs) == 0 <==> forall|k: int| 0 <= k < limbs.len() ==> limbs[k] == 0,
    decreases limbs.len(),
{
    if limbs.len() > 0 {
        let rest = limbs.drop_first();
        lemma_value_zero(rest);
        if limbs_value(limbs) == 0 {
            assert(limbs[0] == 0 && limbs_value(rest) == 0) by (nonlinear_arith)
                requires
                    limbs[0] as nat + 4294967296 * limbs_value(rest) == 0,
            ;
            assert forall|k: int| 0 <= k < limbs.len() implies limbs[k] == 0 by {
                if k > 0 {
                    assert(limbs[k] == rest[k - 1]);
                }
            }
        }
        if forall|k: int| 0 <= k < limbs.len() ==> limbs[k] == 0 {
            assert forall|k: int| 0 <= k < rest.len() implies rest[k] == 0 by {
                assert(rest[k] == limbs[k + 1]);
            }
        }
    }
}

/// Whether the limbs stand for zero.
pub fn limbs_are_zero(limbs: &Vec<u32>) -> (zero: bool)
    ensures
        zero == (limbs_value(limbs@) == 0),
{
    let mut i: usize = 0;
    while i < limbs.len()
        invariant
            i <= limbs.len(),
            forall|k: int| 0 <= k < i ==> limbs@[k] == 0,
        decreases limbs.len() - i,
    {
        if limbs[i] != 0 {
            proof {
                lemma_value_zero(limbs@);
            }
            return false;
        }
        i += 1;
    }
    proof {
        lemma_value_zero(limbs@);
    }
    true
}

/// Divides the number that the limbs stand for by ten, in place, and returns
/// the remainder.
pub fn divide_by_ten(limbs: &mut Vec<u32>) -> (rem: u8)
    ensures
        rem < 10,
        final(limbs)@.len() == old(limbs)@.len(),
        limbs_value(old(limbs)@) == 10 * limbs_value(final(limbs)@) + rem,
{
    let n: usize = limbs.len();
    let ghost before = limbs@;
    let mut i: usize = n;
    let mut rem: u64 = 0;
    proof {
        assert(before.subrange(n as int, n as int) =~= Seq::<u32>::empty());
    }
    while i > 0
        invariant
            i <= n,
            rem < 10,
            n == before.len(),
            limbs@.len() == n,
            forall|k: int| 0 <= k < i ==> limbs@[k] == before[k],
            limbs_value(before.subrange(i as int, n as int)) == 10 * limbs_value(
                limbs@.subrange(i as int, n as int),
            ) + rem,
        decreases i,
    {
        i -= 1;
        let ghost above = limbs@;
        let x: u64 = rem * 4294967296 + limbs[i] as u64;
        let q: u32 = (x / 10) as u32;
        limbs.set(i, q);
        proof {
            lemma_value_from(before, i as int);
            lemma_value_from(limbs@, i as int);
            assert(limbs@.subrange(i + 1, n as int) =~= above.subrange(i + 1, n as int));
        }
        rem = x % 10;
    }
    proof {
        assert(before.subrange(0, n as int) =~= before);
        assert(limbs@.subrange(0, n as int) =~= limbs@);
    }
    rem as u8
}

impl Integer {
    /// The integer with this sign and magnitude.
    pub fn new(negative: bool, magnitude: Vec<u32>) -> (r: Integer)
        ensures
            r.negative == negative,
            r.magnitude == magnitude,
    {
        Integer { negative, magnitude }
    }

    /// The integer equal to a machine integer.
    pub fn from_i128(v: i128) -> (r: Integer)
        ensures
            r@ == v,
    {
        let negative = v < 0;
        let m: u128 = if negative {
            ((-(v + 1)) as u128) + 1
        } else {
            v as u128
        };
        let l0: u32 = (m % 4294967296) as u32;
        let l1: u32 = ((m / 4294967296) % 4294967296) as u32;
        let l2: u32 = ((m / 18446744073709551616) % 4294967296) as u32;
        let l3: u32 = (m / 79228162514264337593543950336) as u32;
        let mut magnitude: Vec<u32> = Vec::new();
        magnitude.push(l0);
        magnitude.push(l1);
        magnitude.push(l2);
        magnitude.push(l3);
        proof {
            let s = magnitude@;
            let s1 = s.drop_first();
            let s2 = s1.drop_first();
            let s3 = s2.drop_first();
            assert(s3.drop_first() =~= Seq::<u32>::empty());
            assert(limbs_value(s3.drop_first()) == 0);
            assert(limbs_value(s3) == l3);
            assert(limbs_value(s2) == l2 + limb_base() * limbs_value(s3));
            assert(limbs_value(s1) == l1 + limb_base() * limbs_value(s2));
            assert(limbs_value(s) == l0 + limb_base() * limbs_value(s1));
            assert(limbs_value(s) == m);
        }
        Integer { negative, magnitude }
    }

    /// The decimal numeral of the integer, with a minus sign where it is
    /// below zero.
    pub fn to_decimal(&self) -> (s: String)
        ensures
            s@ == int_decimal(self@),
    {
        let ghost value = limbs_value(self.magnitude@);
        let mut rest: Vec<u32> = Vec::new();
        let mut c: usize = 0;
        while c < self.magnitude.len()
            invariant
                c <= self.magnitude.len(),
                rest@ == self.magnitude@.subrange(0, c as int),
            decreases self.magnitude.len() - c,
        {
            rest.push(self.magnitude[c]);
            proof {
                assert(rest@ =~= self.magnitude@.subrange(0, c + 1));
            }
            c += 1;
        }
        proof {
            assert(rest@ =~= self.magnitude@);
        }
        let mut digits: Vec<u8> = Vec::new();
        proof {
            assert(digits_text(digits@) =~= Seq::<char>::empty());
            assert(nat_decimal(value) =~= nat_decimal(limbs_value(rest@)) + digits_text(digits@));
        }
        loop
            invariant_except_break
                nat_decimal(value) == nat_decimal(limbs_value(rest@)) + digits_text(digits@),
            invariant
                forall|k: int| 0 <= k < digits@.len() ==> digits@[k] < 10,
            ensures
                nat_decimal(value) == digits_text(digits@),
            decreases limbs_value(rest@),
        {
            let ghost n = limbs_value(rest@);
            let ghost low = digits@;
            let r = divide_by_ten(&mut rest);
            let done = limbs_are_zero(&rest);
            digits.push(r);
            proof {
                let q = limbs_value(rest@);
                assert(n == 10 * q + r);
                assert(digits_text(digits@) =~= seq![digit_char(r as int)] + digits_text(low));
                if q == 0 {
                    assert(nat_decimal(n) =~= seq![digit_char(r as int)]);
                } else {
                    assert(n / 10 == q && n % 10 == r as nat);
                    assert(nat_decimal(n) =~= nat_decimal(q) + seq![digit_char(r as int)]);
                }
                assert(nat_decimal(value) =~= if q == 0 {
                    digits_text(digits@)
                } else {
                    nat_decimal(q) + digits_text(digits@)
                });
            }
            if done {
                break ;
            }
        }
        let below_zero = self.negative && !limbs_are_zero(&self.magnitude);
        let mut s = String::new();
        if below_zero {
            s.append("-");
        }
        let ghost sign = s@;
        proof {
            reveal_strlit("-");
            assert(sign =~= if self@ < 0 {
                seq!['-']
            } else {
                Seq::<char>::empty()
            });
        }
        let mut i: usize = digits.len();
        while i > 0
            invariant
                i <= digits.len(),
                forall|k: int| 0 <= k < digits@.len() ==> digits@[k] < 10,
                s@ == sign + digits_text(digits@).subrange(0, digits.len() - i),
            decreases i,
        {
            i -= 1;
            s.append(digit_str(digits[i]));
            proof {
                assert(s@ =~= sign + digits_text(digits@).subrange(0, digits.len() - i));
            }
        }
        proof {
            assert(digits_text(digits@).subrange(0, digits.len() as int) =~= digits_text(digits@));
            assert(s@ =~= int_decimal(self@));
        }
        s
    }
}

} // verus!
