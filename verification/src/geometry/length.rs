use vstd::arithmetic::div_mod::lemma_div_is_ordered;
use vstd::arithmetic::div_mod::lemma_div_multiples_vanish;
use vstd::arithmetic::div_mod::lemma_div_nonincreasing;
use vstd::arithmetic::div_mod::lemma_div_pos_is_pos;
use vstd::arithmetic::div_mod::lemma_fundamental_div_mod;
use vstd::arithmetic::mul::lemma_mul_inequality;
use vstd::arithmetic::mul::lemma_mul_is_distributive_add;
use vstd::prelude::*;

verus! {

/// How one axis of a widget should be sized within its container: the
/// natural preferred size, a fixed cell count, a weighted proportional share
/// of the space left over, an equal share of the leftover pool (`Shrink`),
/// or an equal share of the primary leftover pool (`Fill`).
#[derive(Debug, Clone, Copy, PartialEq, Eq, Structural)]
pub enum Length {
    Preferred,
    Fixed(u16),
    Part(u16),
    Shrink,
    Fill,
}

pub open spec fn seq_sum(s: Seq<u16>) -> int
    decreases s.len(),
{
    if s.len() == 0 {
        0
    } else {
        seq_sum(s.drop_last()) + s.last()
    }
}

proof fn lemma_seq_sum_update(s: Seq<u16>, i: int, v: u16)
    requires
        0 <= i < s.len(),
    ensures
        seq_sum(s.update(i, v)) == seq_sum(s) - s[i] + v,
    decreases s.len(),
{
    if s.len() > 0 {
        if i == s.len() - 1 {
            assert(s.update(i, v).drop_last() =~= s.drop_last());
        } else {
            assert(s.update(i, v).drop_last() =~= s.drop_last().update(i, v));
            lemma_seq_sum_update(s.drop_last(), i, v);
        }
    }
}

/// What a single entry takes in the first pass: `Preferred` and `Fixed`
/// entries consume their requested amount, clipped to the budget remaining.
pub open spec fn base_alloc(l: Length, pref: u16, remaining: u16) -> u16 {
    match l {
        Length::Preferred => if pref <= remaining {
            pref
        } else {
            remaining
        },
        Length::Fixed(size) => if size <= remaining {
            size
        } else {
            remaining
        },
        _ => 0u16,
    }
}

/// The budget left after the first pass over a prefix of the declarations.
pub open spec fn base_remaining(total: u16, ls: Seq<Length>, ps: Seq<u16>) -> u16
    decreases ls.len(),
{
    if ls.len() == 0 {
        total
    } else {
        let rem = base_remaining(total, ls.drop_last(), ps.drop_last());
        (rem - base_alloc(ls.last(), ps.last(), rem)) as u16
    }
}

/// The per-entry result of the first pass: `Preferred`/`Fixed` amounts,
/// zero everywhere else.
pub open spec fn base_allocs(total: u16, ls: Seq<Length>, ps: Seq<u16>) -> Seq<u16>
    decreases ls.len(),
{
    if ls.len() == 0 {
        Seq::empty()
    } else {
        let rem = base_remaining(total, ls.drop_last(), ps.drop_last());
        base_allocs(total, ls.drop_last(), ps.drop_last()).push(
            base_alloc(ls.last(), ps.last(), rem),
        )
    }
}

pub open spec fn count_fill(ls: Seq<Length>) -> int
    decreases ls.len(),
{
    if ls.len() == 0 {
        0
    } else {
        count_fill(ls.drop_last()) + if ls.last() is Fill {
            1int
        } else {
            0int
        }
    }
}

pub open spec fn count_shrink(ls: Seq<Length>) -> int
    decreases ls.len(),
{
    if ls.len() == 0 {
        0
    } else {
        count_shrink(ls.drop_last()) + if ls.last() is Shrink {
            1int
        } else {
            0int
        }
    }
}

pub open spec fn part_weight_sum(ls: Seq<Length>) -> int
    decreases ls.len(),
{
    if ls.len() == 0 {
        0
    } else {
        part_weight_sum(ls.drop_last()) + match ls.last() {
            Length::Part(w) => w as int,
            _ => 0int,
        }
    }
}

/// The index of the numerically last `Fill` entry, or -1 when there is none.
pub open spec fn last_fill(ls: Seq<Length>) -> int
    decreases ls.len(),
{
    if ls.len() == 0 {
        -1
    } else if ls.last() is Fill {
        ls.len() - 1
    } else {
        last_fill(ls.drop_last())
    }
}

/// The allocations after the `Fill` pass: the budget left by the first pass
/// is divided evenly among the `Fill` entries, and the numerically last
/// `Fill` entry absorbs the integer-division remainder.
pub open spec fn fill_allocs(total: u16, ls: Seq<Length>, ps: Seq<u16>) -> Seq<u16> {
    let base = base_allocs(total, ls, ps);
    let rem0 = base_remaining(total, ls, ps) as int;
    let nf = count_fill(ls);
    if nf > 0 {
        Seq::new(
            ls.len(),
            |i: int|
                if ls[i] is Fill {
                    if i == last_fill(ls) {
                        (rem0 / nf + rem0 % nf) as u16
                    } else {
                        (rem0 / nf) as u16
                    }
                } else {
                    base[i]
                },
        )
    } else {
        base
    }
}

/// The budget left after the `Fill` pass: zero when any `Fill` entry exists.
pub open spec fn after_fill_remaining(total: u16, ls: Seq<Length>, ps: Seq<u16>) -> int {
    if count_fill(ls) > 0 {
        0
    } else {
        base_remaining(total, ls, ps) as int
    }
}

/// The sum of the proportional allocations over a prefix of the
/// declarations, each entry receiving `rem * weight / s` (truncated).
pub open spec fn part_total(ls: Seq<Length>, rem: int, s: int) -> int
    decreases ls.len(),
{
    if ls.len() == 0 {
        0
    } else {
        part_total(ls.drop_last(), rem, s) + match ls.last() {
            Length::Part(w) => rem * w / s,
            _ => 0int,
        }
    }
}

/// The allocations after the proportional pass. The truncated division
/// deliberately drops remainder budget with no redistribution.
pub open spec fn part_allocs(total: u16, ls: Seq<Length>, ps: Seq<u16>) -> Seq<u16> {
    let prev = fill_allocs(total, ls, ps);
    let rem = after_fill_remaining(total, ls, ps);
    let s = part_weight_sum(ls);
    if s > 0 {
        Seq::new(
            ls.len(),
            |i: int|
                match ls[i] {
                    Length::Part(w) => (rem * w / s) as u16,
                    _ => prev[i],
                },
        )
    } else {
        prev
    }
}

pub open spec fn after_part_remaining(total: u16, ls: Seq<Length>, ps: Seq<u16>) -> int {
    let rem = after_fill_remaining(total, ls, ps);
    let s = part_weight_sum(ls);
    if s > 0 {
        rem - part_total(ls, rem, s)
    } else {
        rem
    }
}

/// The final allocations: after the first, `Fill` and proportional passes,
/// `Shrink` entries divide whatever budget remains evenly.
pub open spec fn resolve_spec(total: u16, ls: Seq<Length>, ps: Seq<u16>) -> Seq<u16> {
    let prev = part_allocs(total, ls, ps);
    let rem = after_part_remaining(total, ls, ps);
    let ns = count_shrink(ls);
    if ns > 0 {
        Seq::new(
            ls.len(),
            |i: int|
                if ls[i] is Shrink {
                    (rem / ns) as u16
                } else {
                    prev[i]
                },
        )
    } else {
        prev
    }
}

proof fn lemma_mod_bounds(x: int, d: int)
    requires
        x >= 0,
        d > 0,
    ensures
        0 <= x % d < d,
        d * (x / d) <= x,
        x / d >= 0,
    {
    lemma_fundamental_div_mod(x, d);
    lemma_div_pos_is_pos(x, d);
}

/// Truncated divisions of a common denominator never sum past the truncated
/// division of the sum.
proof fn lemma_div_sum_le(a: int, b: int, d: int)
    requires
        a >= 0,
        b >= 0,
        d > 0,
    ensures
        a / d + b / d <= (a + b) / d,
{
    lemma_mod_bounds(a, d);
    lemma_mod_bounds(b, d);
    lemma_mod_bounds(a + b, d);
    lemma_fundamental_div_mod(a, d);
    lemma_fundamental_div_mod(b, d);
    lemma_fundamental_div_mod(a + b, d);
    assert(a / d + b / d <= (a + b) / d) by (nonlinear_arith)
        requires
            a == d * (a / d) + a % d,
            b == d * (b / d) + b % d,
            a + b == d * ((a + b) / d) + (a + b) % d,
            0 <= a % d < d,
            0 <= b % d < d,
            0 <= (a + b) % d < d,
            d > 0,
    {
    }
}

proof fn lemma_part_weight_sum_bounds(ls: Seq<Length>)
    ensures
        0 <= part_weight_sum(ls) <= 65535 * ls.len(),
    decreases ls.len(),
{
    if ls.len() > 0 {
        lemma_part_weight_sum_bounds(ls.drop_last());
    }
}

proof fn lemma_count_bounds(ls: Seq<Length>)
    ensures
        0 <= count_fill(ls) <= ls.len(),
        0 <= count_shrink(ls) <= ls.len(),
        -1 <= last_fill(ls) < ls.len(),
        count_fill(ls) > 0 ==> 0 <= last_fill(ls) && ls[last_fill(ls)] is Fill,
        count_fill(ls) > 0 <==> last_fill(ls) >= 0,
    decreases ls.len(),
{
    if ls.len() > 0 {
        lemma_count_bounds(ls.drop_last());
    }
}

/// A single `Part` weight never exceeds the sum of all `Part` weights.
proof fn lemma_part_weight_le_sum(ls: Seq<Length>, i: int)
    requires
        0 <= i < ls.len(),
        ls[i] is Part,
    ensures
        ls[i]->Part_0 <= part_weight_sum(ls),
    decreases ls.len(),
{
    lemma_part_weight_sum_bounds(ls.drop_last());
    if i < ls.len() - 1 {
        lemma_part_weight_le_sum(ls.drop_last(), i);
    }
}

/// Shape of the first pass: one entry per declaration, a budget that only
/// shrinks, and nothing assigned to the entries the later passes own.
proof fn lemma_base_allocs_props(total: u16, ls: Seq<Length>, ps: Seq<u16>)
    requires
        ls.len() == ps.len(),
    ensures
        base_allocs(total, ls, ps).len() == ls.len(),
        base_remaining(total, ls, ps) <= total,
        forall|j: int|
            0 <= j < ls.len() && !(ls[j] is Preferred) && !(ls[j] is Fixed)
                ==> base_allocs(total, ls, ps)[j] == 0,
    decreases ls.len(),
{
    if ls.len() > 0 {
        lemma_base_allocs_props(total, ls.drop_last(), ps.drop_last());
    }
}

proof fn lemma_part_weight_prefix(ls: Seq<Length>, i: int)
    requires
        0 <= i <= ls.len(),
    ensures
        part_weight_sum(ls.take(i)) <= part_weight_sum(ls),
    decreases ls.len() - i,
{
    if i < ls.len() {
        lemma_part_weight_prefix(ls, i + 1);
        assert(ls.take(i + 1).drop_last() =~= ls.take(i));
        lemma_part_weight_sum_bounds(ls.take(i + 1));
        assert(part_weight_sum(ls.take(i)) <= part_weight_sum(ls.take(i + 1)));
    } else {
        assert(ls.take(i) =~= ls);
    }
}

impl Length {
    /// Resolves an ordered list of per-axis declarations, each paired with
    /// that entry's natural preferred size, into one concrete size per entry.
    ///
    /// Four ordered passes: `Preferred` and `Fixed` entries consume their
    /// amount, clipped to the budget remaining; `Fill` entries divide the
    /// rest evenly, the numerically last one absorbing the remainder; `Part`
    /// entries divide what is left proportionally (truncated, with no
    /// remainder redistribution); `Shrink` entries divide what then remains
    /// evenly. The sum of the result never exceeds the budget, and exhausts
    /// it whenever a `Fill` entry is present.
    pub fn resolve(total: u16, lengths: Vec<Length>, preferences: Vec<u16>) -> (result: Vec<u16>)
        requires
            lengths@.len() == preferences@.len(),
            lengths@.len() <= 0xffff_ffff,
        ensures
            result@ == resolve_spec(total, lengths@, preferences@),
            result@.len() == lengths@.len(),
            seq_sum(result@) <= total,
            count_fill(lengths@) > 0 ==> seq_sum(result@) == total,
            count_fill(lengths@) == 0 && count_shrink(lengths@) > 0 ==> seq_sum(result@) == total
                - after_part_remaining(total, lengths@, preferences@) % count_shrink(lengths@),
    {
        let ghost ls = lengths@;
        let ghost ps = preferences@;
        let n = lengths.len();
        let mut result: Vec<u16> = Vec::with_capacity(n);
        let mut remaining = total;
        let mut fill_cnt: u64 = 0;
        let mut part_sum: u64 = 0;
        let mut shrink_cnt: u64 = 0;
        let mut last: Option<usize> = None;

        // First pass: allocate Preferred/Fixed, count the other kinds.
        let mut i: usize = 0;
        while i < n
            invariant
                n == ls.len() == ps.len(),
                n <= 0xffff_ffff,
                i <= n,
                lengths@ == ls,
                preferences@ == ps,
                result@.len() == i,
                result@ == base_allocs(total, ls.take(i as int), ps.take(i as int)),
                remaining == base_remaining(total, ls.take(i as int), ps.take(i as int)),
                seq_sum(result@) + remaining == total,
                fill_cnt == count_fill(ls.take(i as int)),
                part_sum == part_weight_sum(ls.take(i as int)),
                shrink_cnt == count_shrink(ls.take(i as int)),
                match last {
                    Option::None => last_fill(ls.take(i as int)) == -1,
                    Option::Some(j) => j < i && last_fill(ls.take(i as int)) == j,
                },
            decreases n - i,
        {
            proof {
                assert(ls.take(i + 1).drop_last() =~= ls.take(i as int));
                assert(ps.take(i + 1).drop_last() =~= ps.take(i as int));
                lemma_part_weight_sum_bounds(ls.take(i as int));
                lemma_count_bounds(ls.take(i as int));
            }
            match lengths[i] {
                Length::Preferred => {
                    let p = preferences[i];
                    let a = if p <= remaining {
                        p
                    } else {
                        remaining
                    };
                    result.push(a);
                    remaining -= a;
                },
                Length::Fixed(size) => {
                    let a = if size <= remaining {
                        size
                    } else {
                        remaining
                    };
                    result.push(a);
                    remaining -= a;
                },
                Length::Fill => {
                    fill_cnt += 1;
                    last = Some(i);
                    result.push(0);
                },
                Length::Part(w) => {
                    part_sum += w as u64;
                    result.push(0);
                },
                Length::Shrink => {
                    shrink_cnt += 1;
                    result.push(0);
                },
            }
            i += 1;
            proof {
                assert(result@.drop_last() =~= base_allocs(
                    total,
                    ls.take(i - 1),
                    ps.take(i - 1),
                ));
            }
        }
        proof {
            assert(ls.take(n as int) =~= ls);
            assert(ps.take(n as int) =~= ps);
        }
        let ghost base = base_allocs(total, ls, ps);
        let ghost rem0 = base_remaining(total, ls, ps) as int;

        // Second pass: Fill entries divide the remaining budget evenly; the
        // last one absorbs the integer-division remainder.
        if fill_cnt > 0 {
            proof {
                lemma_count_bounds(ls);
                lemma_mod_bounds(rem0, count_fill(ls));
                lemma_div_nonincreasing(rem0, count_fill(ls));
                lemma_base_allocs_props(total, ls, ps);
                assert((rem0 / count_fill(ls)) * count_fill(ls) == count_fill(ls) * (rem0
                    / count_fill(ls))) by (nonlinear_arith);
            }
            let fl = (remaining as u64 / fill_cnt) as u16;
            let mut i: usize = 0;
            while i < n
                invariant
                    n == ls.len() == ps.len(),
                    i <= n,
                    lengths@ == ls,
                    result@.len() == n,
                    count_fill(ls) == fill_cnt,
                    fill_cnt > 0,
                    fl == rem0 / count_fill(ls),
                    0 <= fl * count_fill(ls) <= rem0 <= total,
                    base == base_allocs(total, ls, ps),
                    base.len() == n,
                    rem0 == base_remaining(total, ls, ps),
                    forall|j: int|
                        0 <= j < i ==> result@[j] == (if ls[j] is Fill {
                            fl as u16
                        } else {
                            base[j]
                        }),
                    forall|j: int| i <= j < n ==> result@[j] == base[j],
                    remaining == rem0 - fl * count_fill(ls.take(i as int)),
                    seq_sum(result@) + remaining == total,
                    match last {
                        Option::None => false,
                        Option::Some(j) => j < n && last_fill(ls) == j,
                    },
                decreases n - i,
            {
                proof {
                    assert(ls.take(i + 1).drop_last() =~= ls.take(i as int));
                    lemma_count_bounds(ls.take(i as int));
                    lemma_base_allocs_props(total, ls, ps);
                    if ls[i as int] is Fill {
                        assert(base[i as int] == base_allocs(total, ls, ps)[i as int]);
                        assert(base[i as int] == 0);
                        lemma_seq_sum_update(result@, i as int, fl);
                        assert(count_fill(ls.take(i + 1)) == count_fill(ls.take(i as int)) + 1);
                        assert(fl * (count_fill(ls.take(i as int)) + 1) == fl * count_fill(
                            ls.take(i as int),
                        ) + fl) by (nonlinear_arith);
                        assert(count_fill(ls.take(i + 1)) <= count_fill(ls)) by {
                            lemma_count_fill_prefix(ls, i + 1);
                        }
                        assert(fl * count_fill(ls.take(i + 1)) <= fl * count_fill(ls)) by {
                            lemma_mul_inequality(
                                count_fill(ls.take(i + 1)),
                                count_fill(ls),
                                fl as int,
                            );
                        }
                    }
                }
                match lengths[i] {
                    Length::Fill => {
                        result.set(i, fl);
                        remaining -= fl;
                    },
                    _ => {},
                }
                i += 1;
            }
            // The integer-division remainder goes to the last Fill entry.
            let last_idx = match last {
                Option::Some(j) => j,
                Option::None => 0,
            };
            proof {
                assert(ls.take(n as int) =~= ls);
                lemma_count_bounds(ls);
                let nf = count_fill(ls);
                lemma_fundamental_div_mod(rem0, nf);
                lemma_mod_bounds(rem0, nf);
                assert(fl * nf == nf * fl) by (nonlinear_arith);
                assert(fl * nf == fl * (nf - 1) + fl) by (nonlinear_arith);
                assert(fl * (nf - 1) >= 0) by (nonlinear_arith)
                    requires
                        fl >= 0,
                        nf >= 1,
                {
                }
                assert(ls[last_idx as int] is Fill);
                assert(result@[last_idx as int] == fl);
                assert(remaining == rem0 % nf);
                lemma_seq_sum_update(result@, last_idx as int, (fl + remaining) as u16);
            }
            let boosted = result[last_idx] + remaining;
            result.set(last_idx, boosted);
            remaining = 0;
            proof {
                assert(result@ =~= fill_allocs(total, ls, ps));
            }
        } else {
            proof {
                assert(result@ =~= fill_allocs(total, ls, ps));
            }
        }
        let ghost filled = fill_allocs(total, ls, ps);
        let ghost rem1 = after_fill_remaining(total, ls, ps);
        proof {
            assert(remaining == rem1);
        }

        // Third pass: Part entries take a proportional share of what is
        // left, and what they take is then retired from the budget.
        if part_sum > 0 {
            let mut taken: u64 = 0;
            let ghost s = part_weight_sum(ls);
            proof {
                lemma_part_weight_sum_bounds(ls);
                lemma_base_allocs_props(total, ls, ps);
                lemma_count_bounds(ls);
                assert(filled.len() == n);
            }
            let mut i: usize = 0;
            while i < n
                invariant
                    n == ls.len() == ps.len(),
                    i <= n,
                    lengths@ == ls,
                    result@.len() == n,
                    s == part_weight_sum(ls),
                    s > 0,
                    part_sum == s,
                    remaining == rem1,
                    0 <= rem1 <= total,
                    filled == fill_allocs(total, ls, ps),
                    filled.len() == n,
                    rem1 == after_fill_remaining(total, ls, ps),
                    0 <= taken <= rem1,
                    forall|j: int|
                        0 <= j < i ==> result@[j] == (match ls[j] {
                            Length::Part(w) => (rem1 * w / s) as u16,
                            _ => filled[j],
                        }),
                    forall|j: int| i <= j < n ==> result@[j] == filled[j],
                    taken == part_total(ls.take(i as int), rem1, s),
                    taken <= rem1 * part_weight_sum(ls.take(i as int)) / s,
                    seq_sum(result@) == total - rem1 + taken,
                decreases n - i,
            {
                proof {
                    assert(ls.take(i + 1).drop_last() =~= ls.take(i as int));
                    lemma_part_weight_sum_bounds(ls.take(i as int));
                    lemma_base_allocs_props(total, ls, ps);
                    lemma_count_bounds(ls);
                }
                match lengths[i] {
                    Length::Part(w) => {
                        proof {
                            let pw = part_weight_sum(ls.take(i as int));
                            lemma_part_weight_le_sum(ls, i as int);
                            lemma_mod_bounds(rem1 * w, s);
                            lemma_mul_inequality(w as int, s, rem1);
                            assert(w as int * rem1 == rem1 * w) by (nonlinear_arith);
                            assert(s * rem1 == rem1 * s) by (nonlinear_arith);
                            lemma_div_is_ordered(rem1 * w, rem1 * s, s);
                            lemma_div_multiples_vanish(rem1, s);
                            assert(0 <= rem1 * w / s <= rem1);
                            // The running total stays within the budget's
                            // proportional envelope.
                            lemma_div_sum_le(rem1 * pw, rem1 * w, s);
                            lemma_mul_is_distributive_add(rem1, pw, w as int);
                            assert(part_weight_sum(ls.take(i + 1)) == pw + w);
                            lemma_part_weight_prefix(ls, i + 1);
                            assert(rem1 * part_weight_sum(ls.take(i + 1)) <= rem1 * s) by {
                                lemma_mul_inequality(
                                    part_weight_sum(ls.take(i + 1)),
                                    s,
                                    rem1,
                                );
                                assert(part_weight_sum(ls.take(i + 1)) * rem1 == rem1
                                    * part_weight_sum(ls.take(i + 1))) by (nonlinear_arith);
                                assert(s * rem1 == rem1 * s) by (nonlinear_arith);
                            }
                            lemma_div_is_ordered(
                                rem1 * part_weight_sum(ls.take(i + 1)),
                                rem1 * s,
                                s,
                            );
                            assert(taken + rem1 * w / s <= rem1);
                            assert(filled[i as int] == 0);
                        }
                        proof {
                            assert(remaining as int * w as int <= 65535 * 65535)
                                by (nonlinear_arith)
                                requires
                                    0 <= remaining as int <= 65535,
                                    0 <= w as int <= 65535,
                            {
                            }
                        }
                        let num: u64 = remaining as u64 * w as u64;
                        let a = (num / part_sum) as u16;
                        proof {
                            lemma_seq_sum_update(result@, i as int, a);
                        }
                        result.set(i, a);
                        taken += a as u64;
                    },
                    _ => {},
                }
                i += 1;
            }
            proof {
                assert(ls.take(n as int) =~= ls);
                assert(result@ =~= part_allocs(total, ls, ps));
            }
            remaining -= taken as u16;
        } else {
            proof {
                assert(result@ =~= part_allocs(total, ls, ps));
            }
        }
        let ghost parted = part_allocs(total, ls, ps);
        let ghost rem2 = after_part_remaining(total, ls, ps);
        proof {
            assert(remaining == rem2);
        }

        // Final pass: Shrink entries divide what remains evenly.
        if shrink_cnt > 0 {
            proof {
                lemma_count_bounds(ls);
                lemma_mod_bounds(rem2, count_shrink(ls));
                lemma_div_nonincreasing(rem2, count_shrink(ls));
                lemma_base_allocs_props(total, ls, ps);
                assert(parted.len() == n);
                assert((rem2 / count_shrink(ls)) * count_shrink(ls) == count_shrink(ls) * (rem2
                    / count_shrink(ls))) by (nonlinear_arith);
            }
            let sh = (remaining as u64 / shrink_cnt) as u16;
            let mut i: usize = 0;
            while i < n
                invariant
                    n == ls.len() == ps.len(),
                    i <= n,
                    lengths@ == ls,
                    result@.len() == n,
                    count_shrink(ls) == shrink_cnt,
                    shrink_cnt > 0,
                    sh == rem2 / count_shrink(ls),
                    0 <= sh * count_shrink(ls) <= rem2 <= total,
                    remaining == rem2,
                    parted == part_allocs(total, ls, ps),
                    parted.len() == n,
                    rem2 == after_part_remaining(total, ls, ps),
                    forall|j: int|
                        0 <= j < i ==> result@[j] == (if ls[j] is Shrink {
                            sh as u16
                        } else {
                            parted[j]
                        }),
                    forall|j: int| i <= j < n ==> result@[j] == parted[j],
                    seq_sum(result@) == total - rem2 + sh * count_shrink(ls.take(i as int)),
                decreases n - i,
            {
                proof {
                    assert(ls.take(i + 1).drop_last() =~= ls.take(i as int));
                    lemma_count_bounds(ls.take(i as int));
                    lemma_base_allocs_props(total, ls, ps);
                    lemma_count_bounds(ls);
                    if ls[i as int] is Shrink {
                        assert(parted[i as int] == 0);
                        lemma_seq_sum_update(result@, i as int, sh);
                        assert(sh * (count_shrink(ls.take(i as int)) + 1) == sh * count_shrink(
                            ls.take(i as int),
                        ) + sh) by (nonlinear_arith);
                        lemma_count_shrink_prefix(ls, i + 1);
                        lemma_mul_inequality(
                            count_shrink(ls.take(i + 1)),
                            count_shrink(ls),
                            sh as int,
                        );
                    }
                }
                match lengths[i] {
                    Length::Shrink => {
                        result.set(i, sh);
                    },
                    _ => {},
                }
                i += 1;
            }
            proof {
                assert(ls.take(n as int) =~= ls);
                assert(result@ =~= resolve_spec(total, ls, ps));
                lemma_fundamental_div_mod(rem2, count_shrink(ls));
                assert(sh * count_shrink(ls) == count_shrink(ls) * sh) by (nonlinear_arith);
                assert(seq_sum(result@) == total - rem2 % count_shrink(ls));
            }
        } else {
            proof {
                assert(result@ =~= resolve_spec(total, ls, ps));
            }
        }
        result
    }
}

/// Resolution returns one concrete size per declaration.
pub proof fn lemma_resolve_spec_len(total: u16, ls: Seq<Length>, ps: Seq<u16>)
    requires
        ls.len() == ps.len(),
    ensures
        resolve_spec(total, ls, ps).len() == ls.len(),
{
    lemma_base_allocs_props(total, ls, ps);
}

/// The count of `Fill` entries in a prefix never exceeds the count in the
/// whole sequence.
proof fn lemma_count_fill_prefix(ls: Seq<Length>, i: int)
    requires
        0 <= i <= ls.len(),
    ensures
        count_fill(ls.take(i)) <= count_fill(ls),
    decreases ls.len() - i,
{
    if i < ls.len() {
        lemma_count_fill_prefix(ls, i + 1);
        assert(ls.take(i + 1).drop_last() =~= ls.take(i));
        lemma_count_bounds(ls.take(i + 1));
    } else {
        assert(ls.take(i) =~= ls);
    }
}

proof fn lemma_count_shrink_prefix(ls: Seq<Length>, i: int)
    requires
        0 <= i <= ls.len(),
    ensures
        count_shrink(ls.take(i)) <= count_shrink(ls),
    decreases ls.len() - i,
{
    if i < ls.len() {
        lemma_count_shrink_prefix(ls, i + 1);
        assert(ls.take(i + 1).drop_last() =~= ls.take(i));
        lemma_count_bounds(ls.take(i + 1));
    } else {
        assert(ls.take(i) =~= ls);
    }
}

} // verus!
