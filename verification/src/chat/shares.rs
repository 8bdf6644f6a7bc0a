//! Dividing an amount of tokens in proportion to weights.

use vstd::prelude::*;

verus! {

/// The sum of a list.
pub open spec fn total(s: Seq<nat>) -> nat
    decreases s.len(),
{
    if s.len() == 0 {
        0
    } else {
        total(s.drop_last()) + s.last()
    }
}

/// The position of the last number above zero, or -1.
pub open spec fn last_positive(ws: Seq<nat>) -> int
    decreases ws.len(),
{
    if ws.len() == 0 {
        -1
    } else if ws.last() > 0 {
        ws.len() - 1
    } else {
        last_positive(ws.drop_last())
    }
}

/// The part of `amount` that falls to each weight, rounded down.
pub open spec fn floors(amount: nat, ws: Seq<nat>) -> Seq<nat> {
    Seq::new(ws.len(), |i: int| amount * ws[i] / total(ws))
}

/// `amount` divided in proportion to the weights. Parts are rounded down; what that leaves over
/// goes to the last weight above zero.
pub open spec fn shares(amount: nat, ws: Seq<nat>) -> Seq<nat> {
    Seq::new(
        ws.len(),
        |i: int|
            if i == last_positive(ws) {
                (floors(amount, ws)[i] + (amount - total(floors(amount, ws)))) as nat
            } else {
                floors(amount, ws)[i]
            },
    )
}

/// The numbers of a list as mathematical numbers.
pub open spec fn nats(v: Seq<u64>) -> Seq<nat> {
    v.map_values(|x: u64| x as nat)
}

proof fn lemma_total_take(s: Seq<nat>, k: int)
    requires
        0 <= k < s.len(),
    ensures
        total(s.take(k + 1)) == total(s.take(k)) + s[k],
{
    assert(s.take(k + 1).drop_last() == s.take(k));
}

/// A sum is at least each of its parts.
pub proof fn lemma_total_at_least(s: Seq<nat>, i: int)
    requires
        0 <= i < s.len(),
    ensures
        s[i] <= total(s),
    decreases s.len(),
{
    if i < s.len() - 1 {
        lemma_total_at_least(s.drop_last(), i);
    }
}

/// The position of the last number above zero, where the sum is above zero.
pub proof fn lemma_last_positive(ws: Seq<nat>)
    ensures
        -1 <= last_positive(ws) < ws.len(),
        total(ws) > 0 ==> last_positive(ws) >= 0 && ws[last_positive(ws)] > 0,
        forall|j: int| last_positive(ws) < j < ws.len() ==> ws[j] == 0,
    decreases ws.len(),
{
    if ws.len() > 0 && ws.last() == 0 {
        lemma_last_positive(ws.drop_last());
        assert forall|j: int| last_positive(ws) < j < ws.len() implies ws[j] == 0 by {
            if j < ws.len() - 1 {
                assert(ws.drop_last()[j] == 0);
            }
        }
    }
}

proof fn lemma_floors_upto(amount: nat, ws: Seq<nat>, k: int)
    requires
        0 <= k <= ws.len(),
        total(ws) > 0,
    ensures
        total(floors(amount, ws).take(k)) * total(ws) <= amount * total(ws.take(k)),
    decreases k,
{
    let fs = floors(amount, ws);
    let w = total(ws);
    if k == 0 {
        assert(fs.take(0) == Seq::<nat>::empty());
        assert(ws.take(0) == Seq::<nat>::empty());
        assert(total(fs.take(0)) * w == 0) by (nonlinear_arith)
            requires
                total(fs.take(0)) == 0,
        ;
    } else {
        lemma_floors_upto(amount, ws, k - 1);
        lemma_total_take(fs, k - 1);
        lemma_total_take(ws, k - 1);
        let f = fs[k - 1];
        let x = ws[k - 1];
        let a = total(fs.take(k - 1));
        let b = total(ws.take(k - 1));
        assert(f == amount * x / w);
        assert(f * w <= amount * x) by {
            vstd::arithmetic::div_mod::lemma_fundamental_div_mod(
                (amount * x) as int,
                w as int,
            );
            assert(w * (amount * x / w) == (amount * x / w) * w) by (nonlinear_arith);
        }
        assert((a + f) * w == a * w + f * w) by (nonlinear_arith);
        assert(amount * (b + x) == amount * b + amount * x) by (nonlinear_arith);
    }
}

/// The parts rounded down never exceed the amount.
pub proof fn lemma_floors_fit(amount: nat, ws: Seq<nat>)
    requires
        total(ws) > 0,
    ensures
        total(floors(amount, ws)) <= amount,
        forall|i: int| 0 <= i < ws.len() ==> #[trigger] floors(amount, ws)[i] <= amount,
{
    let fs = floors(amount, ws);
    let w = total(ws);
    lemma_floors_upto(amount, ws, ws.len() as int);
    assert(fs.take(ws.len() as int) == fs);
    assert(ws.take(ws.len() as int) == ws);
    assert(total(fs) <= amount) by (nonlinear_arith)
        requires
            total(fs) * w <= amount * w,
            w > 0,
    ;
    assert forall|i: int| 0 <= i < ws.len() implies #[trigger] fs[i] <= amount by {
        lemma_total_at_least(fs, i);
    }
}

proof fn lemma_total_update(s: Seq<nat>, i: int, x: nat)
    requires
        0 <= i < s.len(),
    ensures
        total(s.update(i, x)) == total(s) - s[i] + x,
    decreases s.len(),
{
    let t = s.update(i, x);
    if i == s.len() - 1 {
        assert(t.drop_last() == s.drop_last());
    } else {
        assert(t.drop_last() == s.drop_last().update(i, x));
        lemma_total_update(s.drop_last(), i, x);
    }
}

/// Nothing is lost and nothing is added: the shares sum up to the amount.
pub proof fn law_shares_sum_to_the_amount(amount: nat, ws: Seq<nat>)
    requires
        total(ws) > 0,
    ensures
        total(shares(amount, ws)) == amount,
{
    lemma_floors_fit(amount, ws);
    lemma_last_positive(ws);
    let fs = floors(amount, ws);
    let k = last_positive(ws);
    let rest = (amount - total(fs)) as nat;
    assert(shares(amount, ws) =~= fs.update(k, fs[k] + rest));
    lemma_total_update(fs, k, fs[k] + rest);
}

/// A part without weight gets nothing.
pub proof fn law_no_weight_no_share(amount: nat, ws: Seq<nat>, i: int)
    requires
        total(ws) > 0,
        0 <= i < ws.len(),
        ws[i] == 0,
    ensures
        shares(amount, ws)[i] == 0,
{
    lemma_last_positive(ws);
    assert(amount * 0 == 0) by (nonlinear_arith);
    assert(0nat / total(ws) == 0) by (nonlinear_arith)
        requires
            total(ws) > 0,
    ;
}

proof fn lemma_total_bound(ws: Seq<u64>, k: int)
    requires
        0 <= k <= ws.len(),
    ensures
        total(nats(ws).take(k)) <= k * 0xffff_ffff_ffff_ffff,
    decreases k,
{
    if k > 0 {
        lemma_total_bound(ws, k - 1);
        lemma_total_take(nats(ws), k - 1);
    } else {
        assert(nats(ws).take(0) == Seq::<nat>::empty());
    }
}

/// The sum of the weights.
pub fn sum(ws: &Vec<u64>) -> (r: u128)
    ensures
        r == total(nats(ws@)),
{
    let mut out: u128 = 0;
    let mut i: usize = 0;
    assert(nats(ws@).take(0) == Seq::<nat>::empty());
    while i < ws.len()
        invariant
            i <= ws.len(),
            out == total(nats(ws@).take(i as int)),
        decreases ws.len() - i,
    {
        proof {
            lemma_total_take(nats(ws@), i as int);
            lemma_total_bound(ws@, i + 1);
            assert((i + 1) * 0xffff_ffff_ffff_ffff <= 0xffff_ffff_ffff_ffff
                * 0xffff_ffff_ffff_ffff) by (nonlinear_arith)
                requires
                    0 <= i < 0xffff_ffff_ffff_ffff,
            ;
        }
        out = out + ws[i] as u128;
        i += 1;
    }
    assert(nats(ws@).take(ws@.len() as int) == nats(ws@));
    out
}

/// `amount` divided in proportion to the weights.
pub fn divide(amount: u64, ws: &Vec<u64>) -> (r: Vec<u64>)
    requires
        total(nats(ws@)) > 0,
    ensures
        nats(r@) == shares(amount as nat, nats(ws@)),
{
    let w = sum(ws);
    let ghost gs = nats(ws@);
    let ghost fs = floors(amount as nat, gs);
    proof {
        lemma_floors_fit(amount as nat, gs);
        lemma_last_positive(gs);
    }
    let mut out: Vec<u64> = Vec::new();
    let mut used: u64 = 0;
    let mut last: usize = 0;
    let mut found = false;
    let mut i: usize = 0;
    assert(fs.take(0) == Seq::<nat>::empty());
    assert(gs.take(0) == Seq::<nat>::empty());
    assert(nats(out@) == fs.take(0));
    while i < ws.len()
        invariant
            i <= ws.len(),
            gs == nats(ws@),
            fs == floors(amount as nat, gs),
            w == total(gs),
            w > 0,
            total(fs) <= amount,
            forall|k: int| 0 <= k < gs.len() ==> #[trigger] fs[k] <= amount,
            nats(out@) == fs.take(i as int),
            used == total(fs.take(i as int)),
            found == (last_positive(gs.take(i as int)) >= 0),
            found ==> last == last_positive(gs.take(i as int)),
        decreases ws.len() - i,
    {
        let ghost before = out@;
        assert(gs[i as int] == ws@[i as int] as nat);
        assert(amount as nat * ws@[i as int] as nat <= 0xffff_ffff_ffff_ffff
            * 0xffff_ffff_ffff_ffff) by (nonlinear_arith)
            requires
                amount <= 0xffff_ffff_ffff_ffff,
                ws@[i as int] <= 0xffff_ffff_ffff_ffff,
        ;
        let product: u128 = amount as u128 * ws[i] as u128;
        let part: u128 = product / w;
        assert(part == fs[i as int]);
        let part: u64 = part as u64;
        out.push(part);
        proof {
            assert(nats(out@) =~= nats(before).push(part as nat));
            assert(fs.take(i + 1) =~= fs.take(i as int).push(fs[i as int]));
            lemma_total_take(fs, i as int);
            lemma_total_monotone(fs, i + 1);
            assert(gs.take(i + 1).drop_last() == gs.take(i as int));
            assert(gs.take(i + 1).last() == gs[i as int]);
            lemma_last_positive(gs.take(i as int));
        }
        used = used + part;
        if ws[i] > 0 {
            last = i;
            found = true;
        }
        i += 1;
    }
    proof {
        assert(gs.take(gs.len() as int) == gs);
        assert(fs.take(gs.len() as int) == fs);
        lemma_total_at_least(fs, last as int);
    }
    let ghost flat = out@;
    let rest: u64 = amount - used;
    assert(out@[last as int] == nats(out@)[last as int]);
    let more: u64 = out[last] + rest;
    out.set(last, more);
    assert(nats(out@) =~= shares(amount as nat, gs)) by {
        assert forall|k: int| 0 <= k < gs.len() implies nats(out@)[k] == shares(
            amount as nat,
            gs,
        )[k] by {
            assert(nats(flat)[k] == fs[k]);
        }
    }
    out
}

proof fn lemma_total_monotone(s: Seq<nat>, k: int)
    requires
        0 <= k <= s.len(),
    ensures
        total(s.take(k)) <= total(s),
    decreases s.len() - k,
{
    if k < s.len() {
        lemma_total_monotone(s, k + 1);
        lemma_total_take(s, k);
    } else {
        assert(s.take(k) == s);
    }
}

/// A share is the amount in proportion to its weight, rounded down; what is left over goes to the
/// last one with a weight.
pub proof fn law_shares_are_in_proportion(amount: nat, ws: Seq<nat>, i: int)
    requires
        0 <= i < ws.len(),
        total(ws) > 0,
    ensures
        shares(amount, ws).len() == ws.len(),
        i != last_positive(ws) ==> shares(amount, ws)[i] == amount * ws[i] / total(ws),
        (forall|j: int| i < j < ws.len() ==> #[trigger] ws[j] == 0) && ws[i] > 0 ==> last_positive(ws)
            == i,
{
    if (forall|j: int| i < j < ws.len() ==> #[trigger] ws[j] == 0) && ws[i] > 0 {
        lemma_last_positive_is(ws, i);
    }
}

proof fn lemma_last_positive_is(ws: Seq<nat>, i: int)
    requires
        0 <= i < ws.len(),
        ws[i] > 0,
        forall|j: int| i < j < ws.len() ==> #[trigger] ws[j] == 0,
    ensures
        last_positive(ws) == i,
    decreases ws.len(),
{
    if i < ws.len() - 1 {
        assert(ws[ws.len() - 1] == 0);
        let t = ws.drop_last();
        assert forall|j: int| i < j < t.len() implies #[trigger] t[j] == 0 by {
            assert(t[j] == ws[j]);
        }
        lemma_last_positive_is(t, i);
    }
}

} // verus!
