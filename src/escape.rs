use vstd::prelude::*;

verus! {

/// Outcome of the escape-time test for one point of the plane.
#[derive(Copy, Clone, PartialEq, Eq, Debug, Structural)]
pub enum IsInSet {
    /// The orbit stayed within the escape radius for the whole budget.
    Is,
    /// The orbit first left the escape radius at this (0-based) iteration.
    Not(u32),
}

/// Where the escape-time iteration stands: the next iteration to run, or the
/// final outcome.
#[derive(Copy, Clone, PartialEq, Eq, Debug, Structural)]
pub enum EscapeStep {
    Continue(u32),
    Done(IsInSet),
}

/// Outcome of the iteration from iteration `i` on, where `esc[j]` tells whether
/// the value produced by iteration `j` lies beyond the escape radius.
pub open spec fn escape_from(esc: Seq<bool>, i: nat, max_iter: nat) -> IsInSet
    decreases max_iter - i,
{
    if i >= max_iter {
        IsInSet::Is
    } else if esc[i as int] {
        IsInSet::Not(i as u32)
    } else {
        escape_from(esc, i + 1, max_iter)
    }
}

/// Outcome of the whole iteration under a budget of `max_iter` iterations:
/// the first iteration whose value escapes, or `Is` when none within the
/// budget does.
pub open spec fn escape_time(esc: Seq<bool>, max_iter: nat) -> IsInSet {
    escape_from(esc, 0, max_iter)
}

/// What a step value says about the iteration over `esc`: it is either the
/// next iteration still to run, or the overall outcome.
pub open spec fn step_agrees(step: EscapeStep, esc: Seq<bool>, max_iter: nat) -> bool {
    match step {
        EscapeStep::Continue(i) => i < max_iter && escape_from(esc, i as nat, max_iter)
            == escape_time(esc, max_iter),
        EscapeStep::Done(r) => r == escape_time(esc, max_iter),
    }
}

/// First decision of the iteration: with no budget the point counts as bounded,
/// else iteration 0 runs.
pub fn escape_start(max_iter: u32) -> (r: EscapeStep)
    ensures
        max_iter == 0 ==> r == EscapeStep::Done(IsInSet::Is),
        max_iter > 0 ==> r == EscapeStep::Continue(0),
{
    if max_iter == 0 {
        EscapeStep::Done(IsInSet::Is)
    } else {
        EscapeStep::Continue(0)
    }
}

/// Decision after iteration `iter` has produced a value, `escaped` telling
/// whether that value lies beyond the escape radius.
pub fn escape_step(iter: u32, max_iter: u32, escaped: bool) -> (r: EscapeStep)
    requires
        iter < max_iter,
    ensures
        escaped ==> r == EscapeStep::Done(IsInSet::Not(iter)),
        !escaped && iter + 1 == max_iter ==> r == EscapeStep::Done(IsInSet::Is),
        !escaped && iter + 1 < max_iter ==> r == EscapeStep::Continue((iter + 1) as u32),
{
    if escaped {
        EscapeStep::Done(IsInSet::Not(iter))
    } else if iter + 1 == max_iter {
        EscapeStep::Done(IsInSet::Is)
    } else {
        EscapeStep::Continue(iter + 1)
    }
}

/// Runs the escape-time decisions over known outcomes of the escape test,
/// `esc[j]` for iteration `j`.
pub fn classify_escapes(esc: &Vec<bool>, max_iter: u32) -> (r: IsInSet)
    requires
        esc@.len() >= max_iter,
    ensures
        r == escape_time(esc@, max_iter as nat),
{
    let mut step = escape_start(max_iter);
    loop
        invariant
            esc@.len() >= max_iter,
            step_agrees(step, esc@, max_iter as nat),
        decreases
            match step {
                EscapeStep::Continue(i) => max_iter - i,
                EscapeStep::Done(_) => 0,
            },
    {
        match step {
            EscapeStep::Done(r) => {
                return r;
            },
            EscapeStep::Continue(i) => {
                proof {
                    reveal_with_fuel(escape_from, 2);
                }
                step = escape_step(i, max_iter, esc[i as usize]);
            },
        }
    }
}

proof fn lemma_escape_from_first(esc: Seq<bool>, i: nat, max_iter: nat)
    requires
        max_iter <= u32::MAX,
    ensures
        match escape_from(esc, i, max_iter) {
            IsInSet::Is => forall|j: nat| i <= j < max_iter ==> !esc[j as int],
            IsInSet::Not(k) => i <= k < max_iter && esc[k as int] && (forall|j: nat|
                i <= j < k ==> !esc[j as int]),
        },
    decreases max_iter - i,
{
    if i < max_iter && !esc[i as int] {
        lemma_escape_from_first(esc, i + 1, max_iter);
        assert forall|j: nat| i <= j < i + 1 implies !esc[j as int] by {
            assert(j == i);
        }
    }
}

/// The outcome under a budget is the first iteration within it whose value
/// escapes; the point counts as bounded exactly when no such iteration exists.
pub proof fn lemma_escape_time_first(esc: Seq<bool>, max_iter: nat)
    requires
        max_iter <= u32::MAX,
    ensures
        escape_time(esc, max_iter) == IsInSet::Is <==> (forall|j: nat| j < max_iter ==> !esc[j as int]),
        forall|k: u32|
            escape_time(esc, max_iter) == IsInSet::Not(k) <==> (k < max_iter && esc[k as int] && (
            forall|j: nat| j < k ==> !esc[j as int])),
{
    lemma_escape_from_first(esc, 0, max_iter);
    assert forall|k: u32|
        (k < max_iter && esc[k as int] && (forall|j: nat| j < k ==> !esc[j as int])) implies
        escape_time(esc, max_iter) == IsInSet::Not(k) by {
        match escape_time(esc, max_iter) {
            IsInSet::Is => {
                assert(!esc[k as nat as int]);
            },
            IsInSet::Not(k2) => {
                if k2 < k {
                    assert(!esc[k2 as nat as int]);
                } else if k < k2 {
                    assert(!esc[k as nat as int]);
                }
            },
        }
    }
}

proof fn lemma_escape_from_monotone(esc: Seq<bool>, i: nat, n: nat, m: nat, k: u32)
    requires
        n <= m,
        escape_from(esc, i, n) == IsInSet::Not(k),
    ensures
        escape_from(esc, i, m) == IsInSet::Not(k),
    decreases n - i,
{
    if i < n && !esc[i as int] {
        lemma_escape_from_monotone(esc, i + 1, n, m, k);
    }
}

proof fn lemma_escape_from_bounded(esc: Seq<bool>, i: nat, n: nat, m: nat)
    requires
        n <= m,
        escape_from(esc, i, m) == IsInSet::Is,
    ensures
        escape_from(esc, i, n) == IsInSet::Is,
    decreases m - i,
{
    if i < n {
        lemma_escape_from_bounded(esc, i + 1, n, m);
    }
}

/// Raising the budget never changes the iteration at which a point was found
/// to escape.
pub proof fn lemma_escape_monotone(esc: Seq<bool>, n: nat, m: nat, k: u32)
    requires
        n <= m,
        escape_time(esc, n) == IsInSet::Not(k),
    ensures
        escape_time(esc, m) == IsInSet::Not(k),
{
    lemma_escape_from_monotone(esc, 0, n, m, k);
}

/// A point found bounded under a budget is found bounded under any smaller one.
pub proof fn lemma_bounded_shrinks(esc: Seq<bool>, n: nat, m: nat)
    requires
        n <= m,
        escape_time(esc, m) == IsInSet::Is,
    ensures
        escape_time(esc, n) == IsInSet::Is,
{
    lemma_escape_from_bounded(esc, 0, n, m);
}

} // verus!
