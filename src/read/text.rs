use vstd::prelude::*;

verus! {

/// Relies on `String::push`: the character is appended at the end.
#[verifier::external_body]
pub(crate) fn push_char(s: &mut String, c: char)
    ensures
        final(s)@ == old(s)@.push(c),
{
    s.push(c);
}

pub open spec fn is_digit(c: char) -> bool {
    '0' <= c && c <= '9'
}

pub open spec fn digit_value(c: char) -> int {
    (c as int) - ('0' as int)
}

/// The number the decimal digits `d` spell.
pub open spec fn digits_value(d: Seq<char>) -> int
    decreases d.len(),
{
    if d.len() == 0 {
        0
    } else {
        digits_value(d.drop_last()) * 10 + digit_value(d.last())
    }
}

pub open spec fn all_digits(d: Seq<char>) -> bool {
    forall|k: int| 0 <= k < d.len() ==> is_digit(#[trigger] d[k])
}

/// An integer literal as `i64::from_str` reads one: an optional sign, then
/// one or more decimal digits, in range.
pub open spec fn int_literal(t: Seq<char>) -> Option<i64> {
    let neg = t.len() > 0 && t[0] == '-';
    let d = if t.len() > 0 && (t[0] == '-' || t[0] == '+') {
        t.drop_first()
    } else {
        t
    };
    let v = if neg {
        -digits_value(d)
    } else {
        digits_value(d)
    };
    if d.len() > 0 && all_digits(d) && i64::MIN <= v <= i64::MAX {
        Some(v as i64)
    } else {
        None
    }
}

proof fn lemma_digits_grow(d: Seq<char>, k: int)
    requires
        all_digits(d),
        0 <= k <= d.len(),
    ensures
        digits_value(d.subrange(0, k)) <= digits_value(d),
        0 <= digits_value(d.subrange(0, k)),
    decreases d.len(),
{
    if d.len() > 0 {
        assert(all_digits(d.drop_last()));
        if k == d.len() {
            assert(d.subrange(0, k) =~= d);
            lemma_digits_grow(d.drop_last(), k - 1);
            assert(d.drop_last().subrange(0, k - 1) =~= d.drop_last());
        } else {
            lemma_digits_grow(d.drop_last(), k);
            assert(d.drop_last().subrange(0, k) =~= d.subrange(0, k));
            lemma_digits_grow(d.drop_last(), d.len() - 1);
            assert(d.drop_last().subrange(0, d.len() - 1) =~= d.drop_last());
        }
    }
}

/// Reads an integer literal, as [`int_literal`] says.
pub fn parse_int(t: &Vec<char>) -> (r: Option<i64>)
    ensures
        r == int_literal(t@),
{
    let n = t.len();
    let mut i: usize = 0;
    let mut neg = false;
    if n > 0 && (t[0] == '-' || t[0] == '+') {
        neg = t[0] == '-';
        i = 1;
    }
    let ghost d = if t@.len() > 0 && (t@[0] == '-' || t@[0] == '+') {
        t@.drop_first()
    } else {
        t@
    };
    let start = i;
    if start >= n {
        return None;
    }
    let mut acc: i64 = 0;
    proof {
        assert(d =~= t@.subrange(start as int, n as int));
        assert(d.subrange(0, 0) =~= Seq::<char>::empty());
    }
    while i < n
        invariant
            start <= i <= n,
            n == t@.len(),
            start == 0 || start == 1,
            d == t@.subrange(start as int, n as int),
            neg == (t@.len() > 0 && t@[0] == '-'),
            start == (if t@.len() > 0 && (t@[0] == '-' || t@[0] == '+') {
                1int
            } else {
                0int
            }),
            all_digits(d.subrange(0, i - start)),
            neg ==> acc <= 0,
            !neg ==> acc >= 0,
            acc as int == if neg {
                -digits_value(d.subrange(0, i - start))
            } else {
                digits_value(d.subrange(0, i - start))
            },
        decreases n - i,
    {
        let c = t[i];
        if !('0' <= c && c <= '9') {
            proof {
                assert(d =~= (if t@.len() > 0 && (t@[0] == '-' || t@[0] == '+') {
                    t@.drop_first()
                } else {
                    t@
                }));
                assert(d[i - start] == c);
                assert(!all_digits(d));
                assert(int_literal(t@) is None);
            }
            return None;
        }
        let dv = (c as u32 - '0' as u32) as i64;
        proof {
            assert(0 <= dv <= 9);
            let p = d.subrange(0, i - start + 1);
            assert(p.drop_last() =~= d.subrange(0, i - start));
            assert(p.last() == c);
            assert(digits_value(p) == digits_value(d.subrange(0, i - start)) * 10 + dv);
        }
        let step = if neg {
            match acc.checked_mul(10) {
                Some(m) => m.checked_sub(dv),
                None => None,
            }
        } else {
            match acc.checked_mul(10) {
                Some(m) => m.checked_add(dv),
                None => None,
            }
        };
        match step {
            Some(v) => {
                acc = v;
            },
            None => {
                proof {
                    assert(d =~= (if t@.len() > 0 && (t@[0] == '-' || t@[0] == '+') {
                        t@.drop_first()
                    } else {
                        t@
                    }));
                    let k = i - start + 1;
                    let p = d.subrange(0, k);
                    assert(all_digits(p));
                    let pv = if neg {
                        -digits_value(p)
                    } else {
                        digits_value(p)
                    };
                    assert(digits_value(p) == digits_value(d.subrange(0, i - start)) * 10 + dv);
                    if neg {
                        assert(acc * 10 < i64::MIN || acc * 10 - dv < i64::MIN);
                    } else {
                        assert(acc * 10 > i64::MAX || acc * 10 + dv > i64::MAX);
                    }
                    assert(pv < i64::MIN || pv > i64::MAX);
                    if all_digits(d) {
                        lemma_digits_grow(d, k);
                        lemma_digits_grow(d, k - 1);
                        assert(digits_value(p) <= digits_value(d));
                    }
                    assert(int_literal(t@) is None);
                }
                return None;
            },
        }
        i = i + 1;
        proof {
            assert(all_digits(d.subrange(0, i - start)));
        }
    }
    proof {
        assert(d.subrange(0, n - start) =~= d);
        assert(d =~= (if t@.len() > 0 && (t@[0] == '-' || t@[0] == '+') {
            t@.drop_first()
        } else {
            t@
        }));
    }
    Some(acc)
}

} // verus!
