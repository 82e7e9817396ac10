//! Canonical decimal representation of unsigned integers: the encoding used
//! inside the claims payload, together with a strict parser.  "Canonical"
//! means most significant digit first and no leading zeros, so every number
//! has exactly one representation.

use vstd::prelude::*;

verus! {

/// Whether `b` is an ASCII decimal digit.
pub open spec fn is_digit(b: u8) -> bool {
    48 <= b && b <= 57
}

/// The ASCII byte for decimal digit `d`.
pub open spec fn digit_byte(d: nat) -> u8
    recommends
        d < 10,
{
    (48 + d) as u8
}

/// Canonical decimal representation of `n`, most significant digit first,
/// with no leading zeros.
pub open spec fn dec_spec(n: nat) -> Seq<u8>
    decreases n,
{
    if n < 10 {
        seq![digit_byte(n)]
    } else {
        dec_spec(n / 10).push(digit_byte(n % 10))
    }
}

/// Numeric value of a digit sequence, most significant digit first.
pub open spec fn digits_val(s: Seq<u8>) -> int
    decreases s.len(),
{
    if s.len() == 0 {
        0
    } else {
        digits_val(s.drop_last()) * 10 + (s.last() - 48)
    }
}

/// Shape facts about `dec_spec`: nonempty, all digits, single digit exactly
/// for small numbers, and no leading zero.
pub proof fn lemma_dec_shape(n: nat)
    ensures
        dec_spec(n).len() >= 1,
        forall|i: int| 0 <= i < dec_spec(n).len() ==> is_digit(#[trigger] dec_spec(n)[i]),
        (dec_spec(n).len() == 1) == (n < 10),
        n >= 1 ==> dec_spec(n)[0] != 48,
    decreases n,
{
    if n < 10 {
        assert(dec_spec(n) == seq![digit_byte(n)]);
        assert(dec_spec(n)[0] == digit_byte(n));
    } else {
        lemma_dec_shape(n / 10);
        assert(n / 10 >= 1);
        let p = dec_spec(n / 10);
        assert(dec_spec(n) == p.push(digit_byte(n % 10)));
        assert(forall|i: int| 0 <= i < p.len() ==> #[trigger] dec_spec(n)[i] == p[i]);
        assert(dec_spec(n)[p.len() as int] == digit_byte(n % 10));
        assert(is_digit(digit_byte(n % 10)));
    }
}

/// The value of the canonical representation of `n` is `n`.
pub proof fn lemma_dec_val(n: nat)
    ensures
        digits_val(dec_spec(n)) == n,
    decreases n,
{
    if n < 10 {
        assert(dec_spec(n) == seq![digit_byte(n)]);
        assert(dec_spec(n).drop_last() =~= Seq::<u8>::empty());
        assert(dec_spec(n).last() == digit_byte(n));
        assert(digit_byte(n) == 48 + n);
        assert(digits_val(dec_spec(n)) == digits_val(Seq::<u8>::empty()) * 10 + (digit_byte(n) - 48));
    } else {
        lemma_dec_val(n / 10);
        assert(dec_spec(n).drop_last() =~= dec_spec(n / 10));
        assert(dec_spec(n).last() == digit_byte(n % 10));
        assert(digit_byte(n % 10) == 48 + n % 10);
        assert(digits_val(dec_spec(n)) == digits_val(dec_spec(n / 10)) * 10 + (digit_byte(n % 10) - 48));
        assert(n == (n / 10) * 10 + n % 10);
    }
}

/// Canonical representations are injective.
pub proof fn lemma_dec_injective(a: nat, b: nat)
    requires
        dec_spec(a) == dec_spec(b),
    ensures
        a == b,
{
    lemma_dec_val(a);
    lemma_dec_val(b);
}

/// Bounds on the value of a digit sequence with no leading zero.
pub proof fn lemma_val_bounds(s: Seq<u8>)
    requires
        forall|i: int| 0 <= i < s.len() ==> is_digit(#[trigger] s[i]),
    ensures
        digits_val(s) >= 0,
        s.len() >= 1 && s[0] != 48 ==> digits_val(s) >= 1,
        s.len() >= 2 && s[0] != 48 ==> digits_val(s) >= 10,
    decreases s.len(),
{
    if s.len() == 0 {
    } else {
        let p = s.drop_last();
        assert(forall|i: int| 0 <= i < p.len() ==> p[i] == s[i]);
        lemma_val_bounds(p);
        assert(is_digit(s.last()));
    }
}

/// The value of a proper digit prefix never exceeds the value of the whole.
pub proof fn lemma_val_prefix_le(s: Seq<u8>, j: int)
    requires
        forall|i: int| 0 <= i < s.len() ==> is_digit(#[trigger] s[i]),
        0 <= j <= s.len(),
    ensures
        digits_val(s.subrange(0, j)) <= digits_val(s),
    decreases s.len() - j,
{
    if j == s.len() {
        assert(s.subrange(0, j) =~= s);
    } else {
        lemma_val_prefix_le(s, j + 1);
        let t = s.subrange(0, j + 1);
        assert(t.drop_last() =~= s.subrange(0, j));
        assert(t.last() == s[j]);
        lemma_val_bounds(s.subrange(0, j));
        assert(digits_val(t) == digits_val(s.subrange(0, j)) * 10 + (s[j] - 48));
        assert(digits_val(s.subrange(0, j)) <= digits_val(t));
    }
}

/// A nonempty digit sequence with no leading zero is the canonical
/// representation of its own value.
pub proof fn lemma_val_canon(s: Seq<u8>)
    requires
        s.len() >= 1,
        forall|i: int| 0 <= i < s.len() ==> is_digit(#[trigger] s[i]),
        s.len() >= 2 ==> s[0] != 48,
    ensures
        digits_val(s) >= 0,
        dec_spec(digits_val(s) as nat) == s,
    decreases s.len(),
{
    lemma_val_bounds(s);
    if s.len() == 1 {
        assert(s.drop_last() =~= Seq::<u8>::empty());
        assert(s.last() == s[0]);
        let v = digits_val(s);
        assert(v == digits_val(Seq::<u8>::empty()) * 10 + (s[0] - 48));
        assert(v == s[0] - 48);
        assert(0 <= v < 10);
        assert(dec_spec(v as nat) == seq![digit_byte(v as nat)]);
        assert(digit_byte(v as nat) == s[0]);
        assert(dec_spec(v as nat) =~= s);
    } else {
        let p = s.drop_last();
        assert(forall|i: int| 0 <= i < p.len() ==> p[i] == s[i]);
        lemma_val_bounds(p);
        lemma_val_canon(p);
        let vp = digits_val(p);
        let d = (s.last() - 48) as int;
        let v = digits_val(s);
        assert(v == vp * 10 + d);
        assert(vp >= 1);
        assert(0 <= d < 10);
        assert(v >= 10) by {
            assert(vp * 10 >= 10) by (nonlinear_arith)
                requires
                    vp >= 1,
            ;
        }
        assert(v as nat / 10 == vp && v as nat % 10 == d) by {
            vstd::arithmetic::div_mod::lemma_fundamental_div_mod_converse(v, 10, vp, d);
        }
        assert(dec_spec(v as nat) == dec_spec(vp as nat).push(digit_byte(d as nat)));
        assert(digit_byte(d as nat) == s.last());
        assert(dec_spec(v as nat) =~= s);
    }
}

/// Two decompositions of one sequence into a canonical digit run followed by
/// a non-digit boundary agree on the run and on the remainder.
pub proof fn lemma_digit_run_unique(a: nat, b: nat, s1: Seq<u8>, s2: Seq<u8>)
    requires
        dec_spec(a) + s1 == dec_spec(b) + s2,
        s1.len() >= 1,
        s2.len() >= 1,
        !is_digit(s1[0]),
        !is_digit(s2[0]),
    ensures
        a == b,
        s1 == s2,
{
    lemma_dec_shape(a);
    lemma_dec_shape(b);
    let la = dec_spec(a).len() as int;
    let lb = dec_spec(b).len() as int;
    let t = dec_spec(a) + s1;
    if la < lb {
        assert(t[la] == s1[0]);
        assert((dec_spec(b) + s2)[la] == dec_spec(b)[la]);
        assert(is_digit(dec_spec(b)[la]));
        assert(false);
    }
    if lb < la {
        assert(t[lb] == dec_spec(a)[lb]);
        assert((dec_spec(b) + s2)[lb] == s2[0]);
        assert(is_digit(dec_spec(a)[lb]));
        assert(false);
    }
    assert(dec_spec(a) =~= dec_spec(b)) by {
        assert(forall|i: int| 0 <= i < la ==> #[trigger] dec_spec(a)[i] == t[i]);
        assert(forall|i: int| 0 <= i < la ==> #[trigger] dec_spec(b)[i] == (dec_spec(b) + s2)[i]);
    }
    lemma_dec_injective(a, b);
    assert((dec_spec(a) + s1).len() == la + s1.len());
    assert((dec_spec(b) + s2).len() == lb + s2.len());
    assert(s1.len() == s2.len());
    assert forall|i: int| 0 <= i < s1.len() implies s1[i] == s2[i] by {
        assert(t[la + i] == s1[i]);
        assert((dec_spec(b) + s2)[lb + i] == s2[i]);
    }
    assert(s1 =~= s2);
}

/// Encode `n` in canonical decimal.
pub fn enc_dec(n: u64) -> (r: Vec<u8>)
    ensures
        r@ == dec_spec(n as nat),
    decreases n,
{
    if n < 10 {
        let mut v: Vec<u8> = Vec::new();
        v.push(48 + n as u8);
        proof {
            assert(v@ =~= seq![digit_byte(n as nat)]);
        }
        v
    } else {
        let mut v = enc_dec(n / 10);
        v.push(48 + (n % 10) as u8);
        proof {
            assert(48 + (n % 10) as u8 == digit_byte((n as nat) % 10));
            assert((n / 10) as nat == (n as nat) / 10);
        }
        v
    }
}

/// Parse `s[start..end)` as a canonical decimal `u64`.  Returns `None` on an
/// empty range, a non-digit, a leading zero, or a value that does not fit.
pub fn parse_dec_range(s: &Vec<u8>, start: usize, end: usize) -> (r: Option<u64>)
    requires
        start <= end <= s@.len(),
    ensures
        r is Some ==> s@.subrange(start as int, end as int) == dec_spec(r->0 as nat),
        forall|n: u64| s@.subrange(start as int, end as int) == #[trigger] dec_spec(n as nat)
            ==> r == Some(n),
{
    let ghost sub = s@.subrange(start as int, end as int);
    proof {
        assert forall|n: u64| sub == #[trigger] dec_spec(n as nat) implies dec_spec(n as nat).len() >= 1 by {
            lemma_dec_shape(n as nat);
        }
    }
    if start == end {
        return None;
    }
    if s[start] == 48 && end - start > 1 {
        proof {
            assert forall|n: u64| sub != #[trigger] dec_spec(n as nat) by {
                lemma_dec_shape(n as nat);
                if sub == dec_spec(n as nat) {
                    assert(dec_spec(n as nat).len() >= 2);
                    assert(n >= 10);
                    assert(dec_spec(n as nat)[0] != 48);
                    assert(sub[0] == 48);
                }
            }
        }
        return None;
    }
    let mut acc: u64 = 0;
    let mut i: usize = start;
    while i < end
        invariant
            start <= i <= end <= s@.len(),
            sub == s@.subrange(start as int, end as int),
            start < end,
            s@[start as int] == 48 ==> end - start == 1,
            forall|j: int| start <= j < i ==> is_digit(#[trigger] s@[j]),
            acc as int == digits_val(sub.subrange(0, i - start)),
        decreases end - i,
    {
        let b = s[i];
        if b < 48 || b > 57 {
            proof {
                assert forall|n: u64| sub != #[trigger] dec_spec(n as nat) by {
                    lemma_dec_shape(n as nat);
                    if sub == dec_spec(n as nat) {
                        assert(is_digit(sub[i - start]));
                    }
                }
            }
            return None;
        }
        let d = b - 48;
        proof {
            let pre = sub.subrange(0, i - start);
            let nxt = sub.subrange(0, i + 1 - start);
            assert(nxt.drop_last() =~= pre);
            assert(nxt.last() == s@[i as int]);
            assert(forall|j: int| 0 <= j < nxt.len() ==> is_digit(#[trigger] nxt[j]));
        }
        if acc > (u64::MAX - d as u64) / 10 {
            proof {
                let nxt = sub.subrange(0, i + 1 - start);
                assert(digits_val(nxt) == acc * 10 + d);
                assert(acc * 10 + d > u64::MAX) by (nonlinear_arith)
                    requires
                        acc > (u64::MAX - d as u64) / 10,
                        0 <= d < 10,
                        acc <= u64::MAX,
                ;
                assert forall|n: u64| sub != #[trigger] dec_spec(n as nat) by {
                    lemma_dec_shape(n as nat);
                    if sub == dec_spec(n as nat) {
                        lemma_dec_val(n as nat);
                        lemma_val_prefix_le(sub, i + 1 - start);
                        assert(digits_val(nxt) <= digits_val(sub));
                        assert(digits_val(sub) == n as int);
                    }
                }
            }
            return None;
        }
        acc = acc * 10 + d as u64;
        proof {
            let nxt = sub.subrange(0, i + 1 - start);
            assert(digits_val(nxt) == digits_val(sub.subrange(0, i - start)) * 10 + (s@[i as int] - 48));
        }
        i = i + 1;
    }
    proof {
        assert(sub.subrange(0, end - start) =~= sub);
        assert(acc as int == digits_val(sub));
        lemma_val_canon(sub);
        assert(dec_spec(acc as nat) == sub);
        assert forall|n: u64| sub == #[trigger] dec_spec(n as nat) implies acc == n by {
            lemma_dec_injective(acc as nat, n as nat);
        }
    }
    Some(acc)
}

} // verus!
