//! The leap-frog stencil on the two field arrays.
//!
//! A cell rule `rule(own, left, right)` gives the new value of a cell from its old
//! value and the two neighbouring values of the other field; for the Yee scheme it
//! is `own + 0.5 * (left - right)`. An injection rule `plus(cell, value)` gives a
//! cell after a signal value is added to it.

use vstd::prelude::*;

use crate::models::Signal;

verus! {

/// `rule` may be called on any three cell values and always gives the same result.
pub open spec fn is_cell_rule<V, F: Fn(V, V, V) -> V>(rule: F) -> bool {
    &&& forall|a: V, b: V, c: V| #[trigger] rule.requires((a, b, c))
    &&& forall|a: V, b: V, c: V, r: V, s: V|
        #![trigger rule.ensures((a, b, c), r), rule.ensures((a, b, c), s)]
        rule.ensures((a, b, c), r) && rule.ensures((a, b, c), s) ==> r == s
}

/// `plus` may be called on any two values and always gives the same result.
pub open spec fn is_sum_rule<V, G: Fn(V, V) -> V>(plus: G) -> bool {
    &&& forall|a: V, b: V| #[trigger] plus.requires((a, b))
    &&& forall|a: V, b: V, r: V, s: V|
        #![trigger plus.ensures((a, b), r), plus.ensures((a, b), s)]
        plus.ensures((a, b), r) && plus.ensures((a, b), s) ==> r == s
}

/// What a cell rule gives on three values.
pub open spec fn cell<V, F: Fn(V, V, V) -> V>(rule: F, own: V, left: V, right: V) -> V {
    choose|r: V| rule.ensures((own, left, right), r)
}

/// What an injection rule gives on a cell and a value.
pub open spec fn sum<V, G: Fn(V, V) -> V>(plus: G, a: V, b: V) -> V {
    choose|r: V| plus.ensures((a, b), r)
}

/// The electric field after its update: every cell but the first takes the rule of
/// its old value and the magnetic values to its left and at its place.
pub open spec fn electric_update<V, F: Fn(V, V, V) -> V>(rule: F, ex: Seq<V>, hy: Seq<V>) -> Seq<V> {
    Seq::new(
        ex.len(),
        |i: int|
            if i == 0 {
                ex[0]
            } else {
                cell(rule, ex[i], hy[i - 1], hy[i])
            },
    )
}

/// The magnetic field after its update: every cell but the last takes the rule of
/// its old value and the electric values at its place and to its right.
pub open spec fn magnetic_update<V, F: Fn(V, V, V) -> V>(rule: F, ex: Seq<V>, hy: Seq<V>) -> Seq<V> {
    Seq::new(
        hy.len(),
        |i: int|
            if i == hy.len() - 1 {
                hy[i]
            } else {
                cell(rule, hy[i], ex[i], ex[i + 1])
            },
    )
}

proof fn lemma_cell<V, F: Fn(V, V, V) -> V>(rule: F, own: V, left: V, right: V, r: V)
    requires
        is_cell_rule(rule),
        rule.ensures((own, left, right), r),
    ensures
        cell(rule, own, left, right) == r,
{
}

proof fn lemma_sum<V, G: Fn(V, V) -> V>(plus: G, a: V, b: V, r: V)
    requires
        is_sum_rule(plus),
        plus.ensures((a, b), r),
    ensures
        sum(plus, a, b) == r,
{
}

/// Applies the electric update in place; the first cell is a fixed boundary.
pub fn update_electric<V: Copy, F: Fn(V, V, V) -> V>(ex: &mut Vec<V>, hy: &Vec<V>, rule: &F)
    requires
        old(ex)@.len() == hy@.len(),
        is_cell_rule(*rule),
    ensures
        final(ex)@ == electric_update(*rule, old(ex)@, hy@),
        final(ex)@.len() == old(ex)@.len(),
{
    let n = ex.len();
    let mut i: usize = 1;
    while i < n
        invariant
            n == ex@.len(),
            n == old(ex)@.len(),
            n == hy@.len(),
            is_cell_rule(*rule),
            n == 0 || 1 <= i <= n,
            forall|k: int| i <= k < n ==> #[trigger] ex@[k] == old(ex)@[k],
            forall|k: int|
                0 <= k < i && k < n ==> #[trigger] ex@[k] == electric_update(*rule, old(ex)@, hy@)[k],
        decreases n - i,
    {
        let r = rule(ex[i], hy[i - 1], hy[i]);
        proof {
            lemma_cell(*rule, ex@[i as int], hy@[i - 1], hy@[i as int], r);
        }
        ex.set(i, r);
        assert(electric_update(*rule, old(ex)@, hy@)[i as int] == r);
        i = i + 1;
    }
    assert(ex@ =~= electric_update(*rule, old(ex)@, hy@));
}

/// Applies the magnetic update in place; the last cell is a fixed boundary.
pub fn update_magnetic<V: Copy, F: Fn(V, V, V) -> V>(hy: &mut Vec<V>, ex: &Vec<V>, rule: &F)
    requires
        old(hy)@.len() == ex@.len(),
        is_cell_rule(*rule),
    ensures
        final(hy)@ == magnetic_update(*rule, ex@, old(hy)@),
        final(hy)@.len() == old(hy)@.len(),
{
    let n = hy.len();
    let mut i: usize = 0;
    while i < n && i + 1 < n
        invariant
            n == hy@.len(),
            n == old(hy)@.len(),
            n == ex@.len(),
            is_cell_rule(*rule),
            i <= n,
            n == 0 || i <= n - 1,
            forall|k: int| i <= k < n ==> #[trigger] hy@[k] == old(hy)@[k],
            forall|k: int|
                0 <= k < i ==> #[trigger] hy@[k] == magnetic_update(*rule, ex@, old(hy)@)[k],
        decreases n - i,
    {
        let r = rule(hy[i], ex[i], ex[i + 1]);
        proof {
            lemma_cell(*rule, hy@[i as int], ex@[i as int], ex@[i + 1], r);
        }
        hy.set(i, r);
        assert(magnetic_update(*rule, ex@, old(hy)@)[i as int] == r);
        i = i + 1;
    }
    assert(hy@ =~= magnetic_update(*rule, ex@, old(hy)@));
}

/// The electric field after every signal, in order, adds its value for step `t`
/// to its cell; a signal whose series has ended adds nothing.
pub open spec fn injected<V, G: Fn(V, V) -> V>(plus: G, ex: Seq<V>, signals: Seq<Signal<V>>, t: int) -> Seq<V>
    decreases signals.len(),
{
    if signals.len() == 0 {
        ex
    } else {
        let prev = injected(plus, ex, signals.drop_last(), t);
        let s = signals.last();
        if s.spec_value_at(t) is Some && s.location < prev.len() {
            prev.update(s.location as int, sum(plus, prev[s.location as int], s.values@[t]))
        } else {
            prev
        }
    }
}

/// Both fields after one step at time `t`: the electric update, the injection of
/// every signal, then the magnetic update from the new electric field.
pub open spec fn step_fields<V, F: Fn(V, V, V) -> V, G: Fn(V, V) -> V>(
    rule: F,
    plus: G,
    ex: Seq<V>,
    hy: Seq<V>,
    signals: Seq<Signal<V>>,
    t: int,
) -> (Seq<V>, Seq<V>) {
    let e = injected(plus, electric_update(rule, ex, hy), signals, t);
    (e, magnetic_update(rule, e, hy))
}

/// Both fields after the steps `from`, `from + 1`, ..., `to - 1`.
pub open spec fn run_fields<V, F: Fn(V, V, V) -> V, G: Fn(V, V) -> V>(
    rule: F,
    plus: G,
    ex: Seq<V>,
    hy: Seq<V>,
    signals: Seq<Signal<V>>,
    from: int,
    to: int,
) -> (Seq<V>, Seq<V>)
    decreases to - from,
{
    if from >= to {
        (ex, hy)
    } else {
        let (e, h) = step_fields(rule, plus, ex, hy, signals, from);
        run_fields(rule, plus, e, h, signals, from + 1, to)
    }
}

/// Every signal is placed inside a field of `n` cells.
pub open spec fn placed_within<V>(signals: Seq<Signal<V>>, n: nat) -> bool {
    forall|k: int| 0 <= k < signals.len() ==> (#[trigger] signals[k]).location < n
}

proof fn lemma_injected_len<V, G: Fn(V, V) -> V>(plus: G, ex: Seq<V>, signals: Seq<Signal<V>>, t: int)
    ensures
        injected(plus, ex, signals, t).len() == ex.len(),
    decreases signals.len(),
{
    if signals.len() > 0 {
        lemma_injected_len(plus, ex, signals.drop_last(), t);
    }
}

/// Adds the value of every signal for step `t` to its cell, in signal order.
pub fn inject<V: Copy, G: Fn(V, V) -> V>(ex: &mut Vec<V>, signals: &Vec<Signal<V>>, t: u64, plus: &G)
    requires
        placed_within(signals@, old(ex)@.len()),
        is_sum_rule(*plus),
    ensures
        final(ex)@ == injected(*plus, old(ex)@, signals@, t as int),
        final(ex)@.len() == old(ex)@.len(),
{
    let mut k: usize = 0;
    while k < signals.len()
        invariant
            k <= signals@.len(),
            placed_within(signals@, old(ex)@.len()),
            is_sum_rule(*plus),
            ex@ == injected(*plus, old(ex)@, signals@.subrange(0, k as int), t as int),
        decreases signals@.len() - k,
    {
        let ghost prefix = signals@.subrange(0, k as int);
        let ghost next = signals@.subrange(0, k + 1);
        assert(next.drop_last() =~= prefix);
        assert(next.last() == signals@[k as int]);
        proof {
            lemma_injected_len(*plus, old(ex)@, prefix, t as int);
        }
        let signal = &signals[k];
        match signal.value_at(t) {
            Some(v) => {
                let loc = signal.location;
                let r = plus(ex[loc], v);
                proof {
                    lemma_sum(*plus, ex@[loc as int], v, r);
                }
                ex.set(loc, r);
            },
            None => {},
        }
        k = k + 1;
    }
    assert(signals@.subrange(0, signals@.len() as int) =~= signals@);
    proof {
        lemma_injected_len(*plus, old(ex)@, signals@, t as int);
    }
}

/// The stencil never writes the boundary cells: the first electric cell and the
/// last magnetic cell keep their values through both updates.
pub proof fn lemma_stencil_keeps_boundaries<V, F: Fn(V, V, V) -> V>(rule: F, ex: Seq<V>, hy: Seq<V>)
    requires
        ex.len() == hy.len(),
        ex.len() > 0,
    ensures
        electric_update(rule, ex, hy).len() == ex.len(),
        magnetic_update(rule, ex, hy).len() == hy.len(),
        electric_update(rule, ex, hy)[0] == ex[0],
        magnetic_update(rule, ex, hy)[hy.len() - 1] == hy[hy.len() - 1],
{
}

/// With one signal whose series reaches step `t`, a step adds exactly that
/// signal's value for `t` to its cell after the electric update, and changes no
/// other electric cell beyond that update.
pub proof fn lemma_single_signal_step<V, F: Fn(V, V, V) -> V, G: Fn(V, V) -> V>(
    rule: F,
    plus: G,
    ex: Seq<V>,
    hy: Seq<V>,
    signal: Signal<V>,
    t: int,
)
    requires
        ex.len() == hy.len(),
        signal.location < ex.len(),
        0 <= t < signal.values@.len(),
    ensures
        ({
            let e = electric_update(rule, ex, hy);
            let l = signal.location as int;
            step_fields(rule, plus, ex, hy, seq![signal], t).0 == e.update(l, sum(plus, e[l], signal.values@[t]))
        }),
{
    let e = electric_update(rule, ex, hy);
    assert(seq![signal].drop_last() =~= Seq::<Signal<V>>::empty());
    assert(injected(plus, e, Seq::<Signal<V>>::empty(), t) == e);
    assert(seq![signal].last() == signal);
}

/// Two signals at one cell add up: after the electric update the cell receives
/// the first signal's value for `t`, then the second's.
pub proof fn lemma_two_signals_accumulate<V, F: Fn(V, V, V) -> V, G: Fn(V, V) -> V>(
    rule: F,
    plus: G,
    ex: Seq<V>,
    hy: Seq<V>,
    first: Signal<V>,
    second: Signal<V>,
    t: int,
)
    requires
        ex.len() == hy.len(),
        first.location < ex.len(),
        second.location == first.location,
        0 <= t < first.values@.len(),
        t < second.values@.len(),
    ensures
        ({
            let e = electric_update(rule, ex, hy);
            let l = first.location as int;
            step_fields(rule, plus, ex, hy, seq![first, second], t).0[l] == sum(
                plus,
                sum(plus, e[l], first.values@[t]),
                second.values@[t],
            )
        }),
{
    let e = electric_update(rule, ex, hy);
    let both = seq![first, second];
    assert(both.drop_last() =~= seq![first]);
    assert(both.last() == second);
    assert(seq![first].drop_last() =~= Seq::<Signal<V>>::empty());
    assert(seq![first].last() == first);
    assert(injected(plus, e, Seq::<Signal<V>>::empty(), t) == e);
    let once = injected(plus, e, seq![first], t);
    assert(once == e.update(first.location as int, sum(plus, e[first.location as int], first.values@[t])));
}

/// A universe without signals whose fields hold only `zero`, under a rule that
/// maps three zeros to zero, still holds only `zero` after any run of steps.
pub proof fn lemma_quiet_universe_stays_zero<V, F: Fn(V, V, V) -> V, G: Fn(V, V) -> V>(
    rule: F,
    plus: G,
    zero: V,
    n: nat,
    from: int,
    to: int,
)
    requires
        is_cell_rule(rule),
        rule.ensures((zero, zero, zero), zero),
    ensures
        run_fields(rule, plus, Seq::new(n, |i: int| zero), Seq::new(n, |i: int| zero), Seq::empty(), from, to)
            == (Seq::new(n, |i: int| zero), Seq::new(n, |i: int| zero)),
    decreases to - from,
{
    let z = Seq::new(n, |i: int| zero);
    if from < to {
        lemma_cell(rule, zero, zero, zero, zero);
        assert(electric_update(rule, z, z) =~= z);
        assert(magnetic_update(rule, z, z) =~= z);
        lemma_quiet_universe_stays_zero(rule, plus, zero, n, from + 1, to);
    }
}

/// A cell that no signal is placed at keeps its value through the injection.
pub proof fn lemma_injected_untouched<V, G: Fn(V, V) -> V>(
    plus: G,
    ex: Seq<V>,
    signals: Seq<Signal<V>>,
    t: int,
    i: int,
)
    requires
        0 <= i < ex.len(),
        forall|k: int| 0 <= k < signals.len() ==> (#[trigger] signals[k]).location != i,
    ensures
        injected(plus, ex, signals, t).len() == ex.len(),
        injected(plus, ex, signals, t)[i] == ex[i],
    decreases signals.len(),
{
    lemma_injected_len(plus, ex, signals, t);
    if signals.len() > 0 {
        let rest = signals.drop_last();
        assert forall|k: int| 0 <= k < rest.len() implies (#[trigger] rest[k]).location != i by {
            assert(rest[k] == signals[k]);
        }
        lemma_injected_untouched(plus, ex, rest, t, i);
        assert(signals.last() == signals[signals.len() - 1]);
    }
}

/// With no signal placed at the first cell, the first electric cell keeps its value
/// through any run of steps: the stencil never writes it.
pub proof fn lemma_run_keeps_first_cell<V, F: Fn(V, V, V) -> V, G: Fn(V, V) -> V>(
    rule: F,
    plus: G,
    ex: Seq<V>,
    hy: Seq<V>,
    signals: Seq<Signal<V>>,
    from: int,
    to: int,
)
    requires
        ex.len() == hy.len(),
        ex.len() > 0,
        forall|k: int| 0 <= k < signals.len() ==> (#[trigger] signals[k]).location != 0,
    ensures
        run_fields(rule, plus, ex, hy, signals, from, to).0.len() == ex.len(),
        run_fields(rule, plus, ex, hy, signals, from, to).1.len() == hy.len(),
        run_fields(rule, plus, ex, hy, signals, from, to).0[0] == ex[0],
    decreases to - from,
{
    if from < to {
        let e = electric_update(rule, ex, hy);
        lemma_injected_untouched(plus, e, signals, from, 0);
        let (e2, h2) = step_fields(rule, plus, ex, hy, signals, from);
        lemma_run_keeps_first_cell(rule, plus, e2, h2, signals, from + 1, to);
    }
}

} // verus!
