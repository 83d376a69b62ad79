use vstd::prelude::*;

verus! {

/// The character of a decimal digit `d < 10`.
pub open spec fn digit_char(d: nat) -> char {
    ('0' as nat + d) as char
}

/// The decimal text of a natural number, without leading zeros.
pub open spec fn decimal_text(n: nat) -> Seq<char>
    decreases n,
{
    if n < 10 {
        seq![digit_char(n)]
    } else {
        decimal_text(n / 10).push(digit_char(n % 10))
    }
}

/// The decimal text of an integer, with a leading `-` when it is negative.
pub open spec fn int_text(n: int) -> Seq<char> {
    if n < 0 {
        seq!['-'] + decimal_text((-n) as nat)
    } else {
        decimal_text(n as nat)
    }
}

fn digit_str(d: u64) -> (r: &'static str)
    requires
        d < 10,
    ensures
        r@ == seq![digit_char(d as nat)],
{
    proof {
        reveal_strlit("0");
        reveal_strlit("1");
        reveal_strlit("2");
        reveal_strlit("3");
        reveal_strlit("4");
        reveal_strlit("5");
        reveal_strlit("6");
        reveal_strlit("7");
        reveal_strlit("8");
        reveal_strlit("9");
    }
    if d == 0 {
        "0"
    } else if d == 1 {
        "1"
    } else if d == 2 {
        "2"
    } else if d == 3 {
        "3"
    } else if d == 4 {
        "4"
    } else if d == 5 {
        "5"
    } else if d == 6 {
        "6"
    } else if d == 7 {
        "7"
    } else if d == 8 {
        "8"
    } else {
        "9"
    }
}

/// Appends the decimal text of `n` to `out`.
pub fn push_decimal(out: &mut String, n: u64)
    ensures
        final(out)@ == old(out)@ + decimal_text(n as nat),
    decreases n,
{
    if n < 10 {
        out.append(digit_str(n));
    } else {
        push_decimal(out, n / 10);
        out.append(digit_str(n % 10));
        assert(decimal_text(n as nat) == decimal_text((n / 10) as nat).push(
            digit_char((n % 10) as nat),
        ));
        assert(out@ =~= old(out)@ + decimal_text(n as nat));
    }
}

/// Appends the decimal text of `n` to `out`, with a `-` when it is negative.
pub fn push_int(out: &mut String, n: i64)
    ensures
        final(out)@ == old(out)@ + int_text(n as int),
{
    proof {
        reveal_strlit("-");
    }
    if n < 0 {
        out.append("-");
        let m: u64 = if n == i64::MIN {
            0x8000_0000_0000_0000
        } else {
            (-n) as u64
        };
        push_decimal(out, m);
        assert(out@ =~= old(out)@ + int_text(n as int));
    } else {
        push_decimal(out, n as u64);
    }
}

/// Why a text is not a decimal `i32`.
#[derive(Debug, Clone, Copy, PartialEq, Eq, Structural)]
pub enum IntParseError {
    /// The text is empty.
    Empty,
    /// A character other than a digit, or a sign with no digit after it.
    InvalidDigit,
    /// The value is above `i32::MAX`.
    PosOverflow,
    /// The value is below `i32::MIN`.
    NegOverflow,
}

/// The message that std gives for each kind of integer parse failure.
pub open spec fn int_error_text(e: IntParseError) -> Seq<char> {
    match e {
        IntParseError::Empty => "cannot parse integer from empty string"@,
        IntParseError::InvalidDigit => "invalid digit found in string"@,
        IntParseError::PosOverflow => "number too large to fit in target type"@,
        IntParseError::NegOverflow => "number too small to fit in target type"@,
    }
}

impl IntParseError {
    pub fn message(&self) -> (r: &'static str)
        ensures
            r@ == int_error_text(*self),
    {
        match self {
            IntParseError::Empty => "cannot parse integer from empty string",
            IntParseError::InvalidDigit => "invalid digit found in string",
            IntParseError::PosOverflow => "number too large to fit in target type",
            IntParseError::NegOverflow => "number too small to fit in target type",
        }
    }
}

pub open spec fn is_digit(c: char) -> bool {
    '0' <= c && c <= '9'
}

pub open spec fn all_digits(ds: Seq<char>) -> bool {
    forall|i: int| 0 <= i < ds.len() ==> is_digit(#[trigger] ds[i])
}

/// The value of a run of decimal digits (0 for the empty run).
pub open spec fn digits_value(ds: Seq<char>) -> int
    decreases ds.len(),
{
    if ds.len() == 0 {
        0
    } else {
        digits_value(ds.drop_last()) * 10 + (ds.last() as int - '0' as int)
    }
}

/// The largest magnitude of an `i32` of the given sign.
pub open spec fn magnitude_limit(negative: bool) -> int {
    if negative {
        0x8000_0000
    } else {
        0x7fff_ffff
    }
}

/// Some run of leading digits of `ds` is already too large for the sign.
pub open spec fn leading_overflow(ds: Seq<char>, negative: bool) -> bool {
    exists|k: int|
        0 <= k <= ds.len() && all_digits(ds.take(k)) && #[trigger] digits_value(ds.take(k))
            > magnitude_limit(negative)
}

/// Reading a text as a decimal `i32`, by std's rules: an optional `+` or `-`,
/// then digits only. Digits are read from the left, so a value that grows
/// out of range is reported before a later character that is not a digit.
pub open spec fn parse_i32_spec(s: Seq<char>) -> Result<i32, IntParseError> {
    if s.len() == 0 {
        Err(IntParseError::Empty)
    } else {
        let signed = s[0] == '+' || s[0] == '-';
        let negative = s[0] == '-';
        let ds = if signed {
            s.drop_first()
        } else {
            s
        };
        if ds.len() == 0 {
            Err(IntParseError::InvalidDigit)
        } else if leading_overflow(ds, negative) {
            if negative {
                Err(IntParseError::NegOverflow)
            } else {
                Err(IntParseError::PosOverflow)
            }
        } else if !all_digits(ds) {
            Err(IntParseError::InvalidDigit)
        } else if negative {
            Ok((-digits_value(ds)) as i32)
        } else {
            Ok(digits_value(ds) as i32)
        }
    }
}

/// A longer run of digits is worth at least as much as a shorter one.
proof fn lemma_digits_value_monotone(ds: Seq<char>, j: int)
    requires
        all_digits(ds),
        0 <= j <= ds.len(),
    ensures
        0 <= digits_value(ds.take(j)) <= digits_value(ds),
    decreases ds.len(),
{
    if ds.len() > 0 {
        let init = ds.drop_last();
        assert(all_digits(init)) by {
            assert forall|i: int| 0 <= i < init.len() implies is_digit(#[trigger] init[i]) by {
                assert(init[i] == ds[i]);
            }
        }
        assert(is_digit(ds[ds.len() - 1]));
        if j == ds.len() {
            assert(ds.take(j) =~= ds);
            lemma_digits_value_monotone(init, init.len() as int);
            assert(init.take(init.len() as int) =~= init);
        } else {
            lemma_digits_value_monotone(init, j);
            assert(init.take(j) =~= ds.take(j));
            lemma_digits_value_monotone(init, init.len() as int);
            assert(init.take(init.len() as int) =~= init);
        }
    } else {
        assert(ds.take(j) =~= ds);
    }
}

/// Reads `s[start..end]` as a decimal `i32`.
pub fn parse_i32_range(s: &str, start: usize, end: usize) -> (r: Result<i32, IntParseError>)
    requires
        start <= end <= s@.len(),
    ensures
        r == parse_i32_spec(s@.subrange(start as int, end as int)),
{
    let ghost t = s@.subrange(start as int, end as int);
    if start == end {
        return Err(IntParseError::Empty);
    }
    let c0 = s.get_char(start);
    let negative = c0 == '-';
    let signed = c0 == '+' || c0 == '-';
    let first: usize = if signed {
        start + 1
    } else {
        start
    };
    let ghost ds = s@.subrange(first as int, end as int);
    assert(ds =~= if signed {
        t.drop_first()
    } else {
        t
    });
    if first == end {
        return Err(IntParseError::InvalidDigit);
    }
    let limit: u64 = if negative {
        0x8000_0000
    } else {
        0x7fff_ffff
    };
    let mut acc: u64 = 0;
    let mut i: usize = first;
    while i < end
        invariant
            start <= first <= i <= end <= s@.len(),
            ds == s@.subrange(first as int, end as int),
            t == s@.subrange(start as int, end as int),
            t.len() > 0,
            negative == (t[0] == '-'),
            signed == (t[0] == '+' || t[0] == '-'),
            ds == if signed {
                t.drop_first()
            } else {
                t
            },
            ds.len() > 0,
            limit == magnitude_limit(negative),
            all_digits(ds.take(i - first)),
            acc == digits_value(ds.take(i - first)),
            acc <= limit,
        decreases end - i,
    {
        let c = s.get_char(i);
        let ghost k = i - first;
        assert(ds[k] == c);
        if !('0' <= c && c <= '9') {
            proof {
                assert forall|j: int|
                    0 <= j <= ds.len() && all_digits(ds.take(j)) implies #[trigger] digits_value(
                    ds.take(j),
                ) <= limit by {
                    if j > k {
                        assert(ds.take(j)[k] == c);
                    }
                    assert(j <= k);
                    assert(ds.take(k).take(j) =~= ds.take(j));
                    lemma_digits_value_monotone(ds.take(k), j);
                }
                assert(!is_digit(ds[k]));
                assert(!all_digits(ds));
            }
            return Err(IntParseError::InvalidDigit);
        }
        let next: u64 = acc * 10 + (c as u64 - '0' as u64);
        assert(ds.take(k + 1).drop_last() =~= ds.take(k));
        assert(digits_value(ds.take(k + 1)) == next);
        assert(all_digits(ds.take(k + 1))) by {
            assert forall|j: int| 0 <= j < k + 1 implies is_digit(#[trigger] ds.take(k + 1)[j]) by {
                if j < k {
                    assert(ds.take(k + 1)[j] == ds.take(k)[j]);
                }
            }
        }
        if next > limit {
            assert(leading_overflow(ds, negative));
            if negative {
                return Err(IntParseError::NegOverflow);
            } else {
                return Err(IntParseError::PosOverflow);
            }
        }
        acc = next;
        i = i + 1;
    }
    proof {
        assert(ds.take(ds.len() as int) =~= ds);
        assert forall|j: int|
            0 <= j <= ds.len() && all_digits(ds.take(j)) implies #[trigger] digits_value(
            ds.take(j),
        ) <= limit by {
            lemma_digits_value_monotone(ds, j);
        }
    }
    if negative {
        Ok((-(acc as i64)) as i32)
    } else {
        Ok(acc as i32)
    }
}

/// The pieces of `s` between `,` characters, in order: one more piece than
/// there are commas, and empty pieces kept.
pub open spec fn comma_pieces(s: Seq<char>) -> Seq<Seq<char>>
    decreases s.len(),
{
    if s.len() == 0 {
        seq![Seq::empty()]
    } else {
        let rest = comma_pieces(s.drop_last());
        if s.last() == ',' {
            rest.push(Seq::empty())
        } else {
            rest.update(rest.len() - 1, rest.last().push(s.last()))
        }
    }
}

/// Each piece read as a decimal `i32`, or the error of the first piece that
/// is not one.
pub open spec fn parse_i32_all(ps: Seq<Seq<char>>) -> Result<Seq<i32>, IntParseError>
    decreases ps.len(),
{
    if ps.len() == 0 {
        Ok(Seq::empty())
    } else {
        match parse_i32_all(ps.drop_last()) {
            Err(e) => Err(e),
            Ok(vs) => match parse_i32_spec(ps.last()) {
                Ok(v) => Ok(vs.push(v)),
                Err(e) => Err(e),
            },
        }
    }
}

/// A comma-separated list of decimal `i32`, read as `parse_i32_all` of its
/// pieces.
pub open spec fn parse_i32_list_spec(s: Seq<char>) -> Result<Seq<i32>, IntParseError> {
    parse_i32_all(comma_pieces(s))
}

/// Once a prefix of the pieces fails, the whole list fails the same way.
proof fn lemma_prefix_error(ps: Seq<Seq<char>>, m: int, e: IntParseError)
    requires
        0 <= m <= ps.len(),
        parse_i32_all(ps.take(m)) == Err::<Seq<i32>, IntParseError>(e),
    ensures
        parse_i32_all(ps) == Err::<Seq<i32>, IntParseError>(e),
    decreases ps.len(),
{
    if m == ps.len() {
        assert(ps.take(m) =~= ps);
    } else {
        assert(ps.drop_last().take(m) =~= ps.take(m));
        lemma_prefix_error(ps.drop_last(), m, e);
    }
}

/// Reads a comma-separated list of decimal `i32`, as `parse_i32_list_spec`
/// describes it.
pub fn parse_i32_list(s: &str) -> (r: Result<Vec<i32>, IntParseError>)
    ensures
        match r {
            Ok(v) => parse_i32_list_spec(s@) == Ok::<Seq<i32>, IntParseError>(v@),
            Err(e) => parse_i32_list_spec(s@) == Err::<Seq<i32>, IntParseError>(e),
        },
{
    let len = s.unicode_len();
    let mut bounds: Vec<(usize, usize)> = Vec::new();
    let ghost mut done: Seq<Seq<char>> = Seq::empty();
    let mut start: usize = 0;
    let mut i: usize = 0;
    assert(s@.take(0) =~= Seq::<char>::empty());
    assert(done.push(s@.subrange(0, 0)) =~= seq![Seq::<char>::empty()]);
    while i < len
        invariant
            len == s@.len(),
            start <= i <= len,
            bounds@.len() == done.len(),
            forall|k: int|
                0 <= k < done.len() ==> {
                    &&& (#[trigger] bounds@[k]).0 <= bounds@[k].1 <= len
                    &&& done[k] == s@.subrange(bounds@[k].0 as int, bounds@[k].1 as int)
                },
            comma_pieces(s@.take(i as int)) == done.push(s@.subrange(start as int, i as int)),
        decreases len - i,
    {
        let c = s.get_char(i);
        let ghost prev = done.push(s@.subrange(start as int, i as int));
        let ghost t = s@.take(i + 1);
        assert(t.drop_last() =~= s@.take(i as int));
        assert(t.last() == c);
        assert(comma_pieces(t) == if c == ',' {
            prev.push(Seq::empty())
        } else {
            prev.update(prev.len() - 1, prev.last().push(c))
        });
        if c == ',' {
            bounds.push((start, i));
            proof {
                done = done.push(s@.subrange(start as int, i as int));
            }
            start = i + 1;
            i = i + 1;
            assert(s@.subrange(start as int, i as int) =~= Seq::<char>::empty());
            assert(comma_pieces(s@.take(i as int)) =~= done.push(
                s@.subrange(start as int, i as int),
            ));
        } else {
            i = i + 1;
            assert(s@.subrange(start as int, i as int) =~= prev.last().push(c));
            assert(comma_pieces(s@.take(i as int)) =~= done.push(
                s@.subrange(start as int, i as int),
            ));
        }
    }
    bounds.push((start, len));
    proof {
        assert(s@.take(len as int) =~= s@);
        done = done.push(s@.subrange(start as int, len as int));
    }
    let mut out: Vec<i32> = Vec::new();
    let mut k: usize = 0;
    assert(done.take(0) =~= Seq::<Seq<char>>::empty());
    while k < bounds.len()
        invariant
            len == s@.len(),
            bounds@.len() == done.len(),
            done == comma_pieces(s@),
            forall|j: int|
                0 <= j < done.len() ==> {
                    &&& (#[trigger] bounds@[j]).0 <= bounds@[j].1 <= len
                    &&& done[j] == s@.subrange(bounds@[j].0 as int, bounds@[j].1 as int)
                },
            k <= bounds@.len(),
            parse_i32_all(done.take(k as int)) == Ok::<Seq<i32>, IntParseError>(out@),
        decreases bounds@.len() - k,
    {
        let (a, b) = bounds[k];
        assert(done.take(k + 1).drop_last() =~= done.take(k as int));
        assert(done.take(k + 1).last() == done[k as int]);
        match parse_i32_range(s, a, b) {
            Ok(v) => {
                out.push(v);
            },
            Err(e) => {
                proof {
                    lemma_prefix_error(done, k + 1, e);
                }
                return Err(e);
            },
        }
        k = k + 1;
    }
    assert(done.take(done.len() as int) =~= done);
    Ok(out)
}

} // verus!
