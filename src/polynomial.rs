use vstd::prelude::*;

use crate::decimal::{decimal_text, int_text, push_decimal, push_int};

verus! {

/// The coefficient of degree `i` of the derivative of the polynomial whose
/// coefficients are `c` (index = power of the variable).
pub open spec fn derivative_coeff(c: Seq<i32>, i: int) -> int {
    c[i + 1] * (i + 1)
}

/// Every coefficient of the derivative fits in an `i32`.
pub open spec fn derivative_fits(c: Seq<i32>) -> bool {
    forall|i: int|
        0 <= i < c.len() - 1 ==> i32::MIN <= #[trigger] derivative_coeff(c, i) <= i32::MAX
}

/// The text of the term `coef * x^index`: the bare coefficient for degree 0;
/// otherwise the coefficient (left out when it is 1) followed by `x`, and by
/// `^index` from degree 2 on.
pub open spec fn term_text(index: nat, coef: int) -> Seq<char> {
    let scale = if coef == 1 {
        Seq::<char>::empty()
    } else {
        int_text(coef)
    };
    if index == 0 {
        int_text(coef)
    } else if index == 1 {
        scale.push('x')
    } else {
        scale + seq!['x', '^'] + decimal_text(index)
    }
}

/// The terms with a positive coefficient among the first `n` coefficients,
/// lowest degree first, joined by ` + `.
pub open spec fn terms_text(c: Seq<i32>, n: nat) -> Seq<char>
    decreases n,
{
    if n == 0 || n > c.len() {
        Seq::empty()
    } else {
        let prev = terms_text(c, (n - 1) as nat);
        let term = term_text((n - 1) as nat, c[n - 1] as int);
        if c[n - 1] <= 0 {
            prev
        } else if prev.len() == 0 {
            term
        } else {
            prev + seq![' ', '+', ' '] + term
        }
    }
}

/// The text of a polynomial: its positive terms joined by ` + `, or the empty
/// text when it has none.
pub open spec fn polynomial_text(c: Seq<i32>) -> Seq<char> {
    terms_text(c, c.len())
}

/// `c * k`, computed without overflow.
fn scaled(c: i32, k: usize) -> (r: i128)
    ensures
        r == c * k,
{
    assert(-0x8000_0000 * 0x1_0000_0000_0000_0000 <= c * k <= 0x8000_0000 * 0x1_0000_0000_0000_0000)
        by (nonlinear_arith)
        requires
            -0x8000_0000 <= c < 0x8000_0000,
            0 <= k < 0x1_0000_0000_0000_0000,
    ;
    c as i128 * k as i128
}

/// A polynomial with integer coefficients; `coeff[i]` multiplies `x^i`.
/// The empty list is the zero polynomial.
#[derive(Debug)]
pub struct Polynomial {
    coeff: Vec<i32>,
}

impl View for Polynomial {
    type V = Seq<i32>;

    closed spec fn view(&self) -> Seq<i32> {
        self.coeff@
    }
}

impl Polynomial {
    pub fn new(coeff: Vec<i32>) -> (r: Polynomial)
        ensures
            r@ == coeff@,
    {
        Polynomial { coeff }
    }

    /// The coefficients, lowest degree first.
    pub fn coeff(&self) -> (r: &Vec<i32>)
        ensures
            r@ == self@,
    {
        &self.coeff
    }

    /// The derivative: empty for a constant (or zero) polynomial, else the
    /// coefficient of degree `i` is `coeff[i + 1] * (i + 1)`.
    pub fn derivative(&self) -> (r: Polynomial)
        requires
            derivative_fits(self@),
        ensures
            self@.len() <= 1 ==> r@.len() == 0,
            self@.len() > 1 ==> r@.len() == self@.len() - 1,
            forall|i: int| 0 <= i < r@.len() ==> r@[i] == derivative_coeff(self@, i),
    {
        if self.coeff.len() <= 1 {
            return Polynomial::new(Vec::new());
        }
        let n = self.coeff.len();
        let mut out: Vec<i32> = Vec::with_capacity(n - 1);
        let mut k: usize = 1;
        while k < n
            invariant
                n == self@.len(),
                1 <= k <= n,
                derivative_fits(self@),
                out@.len() == k - 1,
                forall|i: int| 0 <= i < out@.len() ==> out@[i] == derivative_coeff(self@, i),
            decreases n - k,
        {
            assert(i32::MIN <= derivative_coeff(self@, k - 1) <= i32::MAX);
            let d = scaled(self.coeff[k], k);
            out.push(d as i32);
            k = k + 1;
        }
        Polynomial { coeff: out }
    }

    /// The derivative, or `None` when one of its coefficients does not fit in
    /// an `i32`.
    pub fn checked_derivative(&self) -> (r: Option<Polynomial>)
        ensures
            r is None <==> !derivative_fits(self@),
            r matches Some(d) ==> d@.len() == if self@.len() <= 1 {
                0
            } else {
                self@.len() - 1
            },
            r matches Some(d) ==> forall|i: int|
                0 <= i < d@.len() ==> d@[i] == derivative_coeff(self@, i),
    {
        let n = self.coeff.len();
        let mut k: usize = 1;
        while k < n
            invariant
                n == self@.len(),
                1 <= k,
                forall|i: int|
                    0 <= i < k - 1 ==> i32::MIN <= #[trigger] derivative_coeff(self@, i)
                        <= i32::MAX,
            decreases n - k,
        {
            let d = scaled(self.coeff[k], k);
            if d < i32::MIN as i128 || d > i32::MAX as i128 {
                assert(!(i32::MIN <= derivative_coeff(self@, k - 1) <= i32::MAX));
                return None;
            }
            k = k + 1;
        }
        Some(self.derivative())
    }

    /// The text of the term `coef * x^index`.
    pub fn show_part(index: usize, coef: i32) -> (r: String)
        ensures
            r@ == term_text(index as nat, coef as int),
            r@.len() > 0,
    {
        proof {
            reveal_strlit("x");
            reveal_strlit("^");
        }
        let mut s = String::new();
        if index == 0 {
            push_int(&mut s, coef as i64);
        } else {
            if coef != 1 {
                push_int(&mut s, coef as i64);
            }
            s.append("x");
            if index > 1 {
                s.append("^");
                push_decimal(&mut s, index as u64);
            }
        }
        assert(s@ =~= term_text(index as nat, coef as int));
        s
    }

    /// The text of the polynomial, as `polynomial_text` describes it.
    pub fn to_string(&self) -> (r: String)
        ensures
            r@ == polynomial_text(self@),
    {
        let mut out = String::new();
        let n = self.coeff.len();
        let mut k: usize = 0;
        while k < n
            invariant
                n == self@.len(),
                k <= n,
                out@ == terms_text(self@, k as nat),
            decreases n - k,
        {
            let c = self.coeff[k];
            let ghost prev = out@;
            assert(terms_text(self@, (k + 1) as nat) == if c <= 0 {
                prev
            } else if prev.len() == 0 {
                term_text(k as nat, c as int)
            } else {
                prev + seq![' ', '+', ' '] + term_text(k as nat, c as int)
            });
            if c > 0 {
                let part = Polynomial::show_part(k, c);
                if out.as_str().unicode_len() > 0 {
                    proof {
                        reveal_strlit(" + ");
                    }
                    out.append(" + ");
                }
                out.append(part.as_str());
            }
            k = k + 1;
            assert(out@ =~= terms_text(self@, k as nat));
        }
        out
    }
}

} // verus!
