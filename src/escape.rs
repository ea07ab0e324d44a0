use vstd::prelude::*;

verus! {

/// The relation "`b` may follow `a`" that an update rule `f` induces.
pub open spec fn rule_of<Z, F: Fn(Z) -> Z>(f: F) -> spec_fn(Z, Z) -> bool {
    |a: Z, b: Z| f.ensures((a,), b)
}

/// The relation "the escape test may answer `b` on `a`" of an escape test `e`.
pub open spec fn test_of<Z, E: Fn(Z) -> bool>(e: E) -> spec_fn(Z, bool) -> bool {
    |a: Z, b: bool| e.ensures((a,), b)
}

/// `orbit` is a sequence of values each of which follows its predecessor under `step`.
pub open spec fn is_orbit<Z>(step: spec_fn(Z, Z) -> bool, orbit: Seq<Z>) -> bool {
    forall|i: int| 0 <= i < orbit.len() - 1 ==> #[trigger] step(orbit[i], orbit[i + 1])
}

/// The values of `orbit` at positions `1 .. k` all passed the escape test as "inside".
pub open spec fn stays_inside<Z>(escaped: spec_fn(Z, bool) -> bool, orbit: Seq<Z>, k: int) -> bool {
    forall|j: int| 1 <= j < k ==> #[trigger] escaped(orbit[j], false)
}

/// `r` is the escape result of the orbit `orbit` under a budget of `iteration_max`
/// applications of the update rule: the orbit starts at `orbit[0]` and holds exactly
/// the values visited until the evaluation stopped.
///
/// `Some(n)`: the `n + 1`-th application (0-based count `n`) gave the first value
/// that the escape test flagged, and `n < iteration_max`.
/// `None`: all `iteration_max` applications stayed inside.
pub open spec fn escape_outcome<Z>(
    step: spec_fn(Z, Z) -> bool,
    escaped: spec_fn(Z, bool) -> bool,
    orbit: Seq<Z>,
    iteration_max: usize,
    r: Option<usize>,
) -> bool {
    &&& orbit.len() >= 1
    &&& is_orbit(step, orbit)
    &&& match r {
        Some(n) => {
            &&& n < iteration_max
            &&& orbit.len() == n + 2
            &&& stays_inside(escaped, orbit, n + 1)
            &&& escaped(orbit[n + 1], true)
        },
        None => {
            &&& orbit.len() == iteration_max + 1
            &&& stays_inside(escaped, orbit, iteration_max + 1)
        },
    }
}

/// `rel` relates each value to at most one other: the relation of a deterministic function.
pub open spec fn is_functional<A, B>(rel: spec_fn(A, B) -> bool) -> bool {
    forall|a: A, b1: B, b2: B| #![trigger rel(a, b1), rel(a, b2)] rel(a, b1) && rel(a, b2) ==> b1 == b2
}

/// Under a deterministic `step`, two orbits with the same start agree wherever both are defined.
proof fn lemma_orbits_agree<Z>(step: spec_fn(Z, Z) -> bool, o1: Seq<Z>, o2: Seq<Z>, i: int)
    requires
        is_functional(step),
        is_orbit(step, o1),
        is_orbit(step, o2),
        o1[0] == o2[0],
        0 <= i < o1.len(),
        i < o2.len(),
    ensures
        o1[i] == o2[i],
    decreases i,
{
    if i > 0 {
        let k = i - 1;
        lemma_orbits_agree(step, o1, o2, k);
        assert(step(o1[k], o1[k + 1]));
        assert(step(o2[k], o2[k + 1]));
    }
}

/// With a deterministic update rule and a deterministic escape test, the escape
/// result and the orbit are determined by the starting value and the budget: two
/// evaluations from the same start give the same result.
pub proof fn lemma_escape_outcome_determined<Z>(
    step: spec_fn(Z, Z) -> bool,
    escaped: spec_fn(Z, bool) -> bool,
    z0: Z,
    iteration_max: usize,
    o1: Seq<Z>,
    r1: Option<usize>,
    o2: Seq<Z>,
    r2: Option<usize>,
)
    requires
        is_functional(step),
        is_functional(escaped),
        o1[0] == z0,
        o2[0] == z0,
        escape_outcome(step, escaped, o1, iteration_max, r1),
        escape_outcome(step, escaped, o2, iteration_max, r2),
    ensures
        r1 == r2,
        o1 == o2,
{
    assert forall|i: int| 0 <= i < o1.len() && i < o2.len() implies o1[i] == o2[i] by {
        lemma_orbits_agree(step, o1, o2, i);
    }
    match (r1, r2) {
        (Some(n1), Some(n2)) => {
            if n1 < n2 {
                assert(escaped(o1[n1 + 1], true));
                assert(escaped(o2[n1 + 1], false));
            } else if n2 < n1 {
                assert(escaped(o2[n2 + 1], true));
                assert(escaped(o1[n2 + 1], false));
            }
        },
        (Some(n1), None) => {
            assert(escaped(o1[n1 + 1], true));
            assert(escaped(o2[n1 + 1], false));
        },
        (None, Some(n2)) => {
            assert(escaped(o2[n2 + 1], true));
            assert(escaped(o1[n2 + 1], false));
        },
        (None, None) => {},
    }
    assert(o1 =~= o2);
}

/// Under `step`, every value of an orbit that starts at a fixed point is that point.
proof fn lemma_orbit_at_fixed_point<Z>(step: spec_fn(Z, Z) -> bool, orbit: Seq<Z>, i: int)
    requires
        orbit.len() >= 1,
        forall|b: Z| #[trigger] step(orbit[0], b) ==> b == orbit[0],
        is_orbit(step, orbit),
        0 <= i < orbit.len(),
    ensures
        orbit[i] == orbit[0],
    decreases i,
{
    if i > 0 {
        let k = i - 1;
        lemma_orbit_at_fixed_point(step, orbit, k);
        assert(step(orbit[k], orbit[k + 1]));
    }
}

/// A start that the update rule keeps in place and that the escape test places
/// inside never escapes, whatever the budget: the result is `None`.
pub proof fn lemma_fixed_point_never_escapes<Z>(
    step: spec_fn(Z, Z) -> bool,
    escaped: spec_fn(Z, bool) -> bool,
    z0: Z,
    iteration_max: usize,
    orbit: Seq<Z>,
    r: Option<usize>,
)
    requires
        forall|b: Z| #[trigger] step(z0, b) ==> b == z0,
        forall|t: bool| #[trigger] escaped(z0, t) ==> !t,
        orbit[0] == z0,
        escape_outcome(step, escaped, orbit, iteration_max, r),
    ensures
        r is None,
{
    if let Some(n) = r {
        lemma_orbit_at_fixed_point(step, orbit, n + 1);
        assert(escaped(orbit[n + 1], true));
    }
}

/// A start from which every value that the update rule can produce is flagged by the
/// escape test escapes at iteration 0, for every budget of at least one application.
pub proof fn lemma_first_step_escapes<Z>(
    step: spec_fn(Z, Z) -> bool,
    escaped: spec_fn(Z, bool) -> bool,
    z0: Z,
    iteration_max: usize,
    orbit: Seq<Z>,
    r: Option<usize>,
)
    requires
        forall|b: Z, t: bool| #![trigger step(z0, b), escaped(b, t)] step(z0, b) && escaped(b, t) ==> t,
        iteration_max >= 1,
        orbit[0] == z0,
        escape_outcome(step, escaped, orbit, iteration_max, r),
    ensures
        r == Some(0usize),
{
    let k: int = 0;
    assert(step(orbit[k], orbit[k + 1]));
    match r {
        Some(n) => {
            if n > 0 {
                assert(escaped(orbit[1], false));
            }
        },
        None => {
            assert(escaped(orbit[1], false));
        },
    }
}

/// An escape result stays valid when the update relation is widened to one that
/// admits at least the same steps.
pub proof fn lemma_escape_outcome_widen<Z>(
    narrow: spec_fn(Z, Z) -> bool,
    wide: spec_fn(Z, Z) -> bool,
    escaped: spec_fn(Z, bool) -> bool,
    orbit: Seq<Z>,
    iteration_max: usize,
    r: Option<usize>,
)
    requires
        forall|a: Z, b: Z| #[trigger] narrow(a, b) ==> wide(a, b),
        escape_outcome(narrow, escaped, orbit, iteration_max, r),
    ensures
        escape_outcome(wide, escaped, orbit, iteration_max, r),
{
    assert forall|i: int| 0 <= i < orbit.len() - 1 implies #[trigger] wide(orbit[i], orbit[i + 1]) by {
        assert(narrow(orbit[i], orbit[i + 1]));
    }
}

/// Iterates `update` from `z0` up to `iteration_max` times and reports the 0-based
/// index of the first application whose value `escaped` flags, or `None` when every
/// application stayed inside.
pub fn escape_time<Z: Copy, F: Fn(Z) -> Z, E: Fn(Z) -> bool>(
    z0: Z,
    update: F,
    escaped: E,
    iteration_max: usize,
) -> (r: Option<usize>)
    requires
        forall|z: Z| update.requires((z,)),
        forall|z: Z| escaped.requires((z,)),
    ensures
        exists|orbit: Seq<Z>|
            orbit[0] == z0 && #[trigger] escape_outcome(
                rule_of(update),
                test_of(escaped),
                orbit,
                iteration_max,
                r,
            ),
        iteration_max == 0 ==> r is None,
{
    let mut z = z0;
    let ghost mut orbit: Seq<Z> = seq![z0];
    let mut n: usize = 0;
    while n < iteration_max
        invariant
            forall|w: Z| update.requires((w,)),
            forall|w: Z| escaped.requires((w,)),
            n <= iteration_max,
            orbit.len() == n + 1,
            orbit[0] == z0,
            orbit[n as int] == z,
            is_orbit(rule_of(update), orbit),
            stays_inside(test_of(escaped), orbit, n + 1),
        decreases iteration_max - n,
    {
        let next = update(z);
        proof {
            let prev = orbit;
            orbit = orbit.push(next);
            assert(is_orbit(rule_of(update), orbit)) by {
                assert forall|i: int| 0 <= i < orbit.len() - 1 implies #[trigger] rule_of(update)(
                    orbit[i],
                    orbit[i + 1],
                ) by {
                    if i < n {
                        assert(rule_of(update)(prev[i], prev[i + 1]));
                    }
                }
            }
        }
        z = next;
        if escaped(z) {
            assert(escape_outcome(rule_of(update), test_of(escaped), orbit, iteration_max, Some(n)));
            return Some(n);
        }
        assert(test_of(escaped)(orbit[n + 1], false));
        n = n + 1;
    }
    assert(escape_outcome(rule_of(update), test_of(escaped), orbit, iteration_max, None));
    None
}

/// Like `escape_time`, but also returns the orbit: the starting value followed by
/// every value that the update rule produced until the evaluation stopped.
pub fn escape_time_and_path<Z: Copy, F: Fn(Z) -> Z, E: Fn(Z) -> bool>(
    z0: Z,
    update: F,
    escaped: E,
    iteration_max: usize,
) -> (r: (Option<usize>, Vec<Z>))
    requires
        forall|z: Z| update.requires((z,)),
        forall|z: Z| escaped.requires((z,)),
    ensures
        r.1@[0] == z0,
        escape_outcome(rule_of(update), test_of(escaped), r.1@, iteration_max, r.0),
        iteration_max == 0 ==> r.0 is None,
{
    let mut z = z0;
    let mut path: Vec<Z> = Vec::new();
    path.push(z0);
    let mut n: usize = 0;
    while n < iteration_max
        invariant
            forall|w: Z| update.requires((w,)),
            forall|w: Z| escaped.requires((w,)),
            n <= iteration_max,
            path@.len() == n + 1,
            path@[0] == z0,
            path@[n as int] == z,
            is_orbit(rule_of(update), path@),
            stays_inside(test_of(escaped), path@, n + 1),
        decreases iteration_max - n,
    {
        let next = update(z);
        let ghost prev = path@;
        path.push(next);
        assert(is_orbit(rule_of(update), path@)) by {
            assert forall|i: int| 0 <= i < path@.len() - 1 implies #[trigger] rule_of(update)(
                path@[i],
                path@[i + 1],
            ) by {
                if i < n {
                    assert(rule_of(update)(prev[i], prev[i + 1]));
                }
            }
        }
        z = next;
        if escaped(z) {
            return (Some(n), path);
        }
        assert(test_of(escaped)(path@[n + 1], false));
        n = n + 1;
    }
    (None, path)
}

} // verus!
