//! The evaluation order of a graph's units.
//!
//! Units are numbered in the order of their declaration. A dependency says
//! that one unit reads, within a sample, what another has produced in that
//! sample. The schedule places every unit after all the units it depends on,
//! and among the units that could come next it always takes the one declared
//! first; there is exactly one such order, or none if the dependencies run in
//! a circle.

use vstd::prelude::*;
use vstd::set_lib::{lemma_int_range, lemma_len_subset, lemma_subset_equality, set_int_range};

verus! {

/// Unit `later` reads an output of unit `earlier`.
#[derive(Clone, Copy, PartialEq, Eq, Structural, Debug)]
pub struct Dependency {
    pub earlier: usize,
    pub later: usize,
}

/// Every dependency names two of the `count` units.
pub open spec fn dependencies_in_range(count: nat, deps: Seq<Dependency>) -> bool {
    forall|c: int| 0 <= c < deps.len() ==> (#[trigger] deps[c]).earlier < count && deps[c].later < count
}

/// Unit `unit` can come next after the units in `placed`: it is not among
/// them, and every unit it depends on is.
pub open spec fn unit_ready(deps: Seq<Dependency>, placed: Seq<usize>, unit: usize) -> bool {
    &&& !placed.contains(unit)
    &&& forall|c: int|
        0 <= c < deps.len() && (#[trigger] deps[c]).later == unit ==> placed.contains(deps[c].earlier)
}

/// `order` is a topological order of the `count` units: it names each unit
/// once, and no unit comes before, or is, one it depends on.
pub open spec fn respects(count: nat, deps: Seq<Dependency>, order: Seq<usize>) -> bool {
    &&& order.len() == count
    &&& forall|k: int| 0 <= k < order.len() ==> (#[trigger] order[k]) < count
    &&& order.no_duplicates()
    &&& forall|c: int, i: int, j: int|
        0 <= c < deps.len() && 0 <= i < order.len() && 0 <= j < order.len() && (#[trigger] deps[c]).earlier
            == (#[trigger] order[i]) && deps[c].later == (#[trigger] order[j]) ==> i < j
}

/// `order` is the schedule of the `count` units: at every place stands the
/// unit declared first among those that can come next.
pub open spec fn is_schedule(count: nat, deps: Seq<Dependency>, order: Seq<usize>) -> bool {
    &&& order.len() == count
    &&& forall|k: int| 0 <= k < order.len() ==> (#[trigger] order[k]) < count
    &&& forall|k: int| 0 <= k < order.len() ==> #[trigger] unit_ready(deps, order.take(k), order[k])
    &&& forall|k: int, unit: usize|
        0 <= k < order.len() && unit < order[k] ==> !#[trigger] unit_ready(deps, order.take(k), unit)
}

/// A schedule is a topological order.
pub proof fn lemma_schedule_respects(count: nat, deps: Seq<Dependency>, order: Seq<usize>)
    requires
        is_schedule(count, deps, order),
    ensures
        respects(count, deps, order),
{
    assert forall|i: int, j: int| 0 <= i < j < order.len() implies order[i] != order[j] by {
        assert(unit_ready(deps, order.take(j), order[j]));
        assert(order.take(j)[i] == order[i]);
    }
    assert forall|c: int, i: int, j: int|
        0 <= c < deps.len() && 0 <= i < order.len() && 0 <= j < order.len() && (#[trigger] deps[c]).earlier
            == (#[trigger] order[i]) && deps[c].later == (#[trigger] order[j]) implies i < j by {
        assert(unit_ready(deps, order.take(j), order[j]));
        assert(order.take(j).contains(deps[c].earlier));
        let at = choose|at: int| 0 <= at < order.take(j).len() && order.take(j)[at] == deps[c].earlier;
        assert(order[at] == order[i]);
        if at != i {
            if at < i {
                assert(unit_ready(deps, order.take(i), order[i]));
                assert(order.take(i)[at] == order[at]);
            } else {
                assert(unit_ready(deps, order.take(at), order[at]));
                assert(order.take(at)[i] == order[i]);
            }
        }
    }
}

/// There is at most one schedule.
pub proof fn lemma_schedule_unique(
    count: nat,
    deps: Seq<Dependency>,
    first: Seq<usize>,
    second: Seq<usize>,
)
    requires
        is_schedule(count, deps, first),
        is_schedule(count, deps, second),
    ensures
        first == second,
{
    lemma_same_prefix(count, deps, first, second, count);
    assert(first.take(count as int) =~= first);
    assert(second.take(count as int) =~= second);
}

proof fn lemma_same_prefix(
    count: nat,
    deps: Seq<Dependency>,
    first: Seq<usize>,
    second: Seq<usize>,
    upto: nat,
)
    requires
        is_schedule(count, deps, first),
        is_schedule(count, deps, second),
        upto <= count,
    ensures
        first.take(upto as int) == second.take(upto as int),
    decreases upto,
{
    if upto == 0 {
        assert(first.take(0) =~= second.take(0));
    } else {
        let k = (upto - 1) as int;
        lemma_same_prefix(count, deps, first, second, k as nat);
        assert(unit_ready(deps, first.take(k), first[k]));
        assert(unit_ready(deps, second.take(k), second[k]));
        if first[k] < second[k] {
            assert(!unit_ready(deps, second.take(k), first[k]));
        } else if second[k] < first[k] {
            assert(!unit_ready(deps, first.take(k), second[k]));
        }
        assert(first.take(upto as int) =~= first.take(k).push(first[k]));
        assert(second.take(upto as int) =~= second.take(k).push(second[k]));
    }
}

/// The numbers of a list as a set of integers.
spec fn members(list: Seq<usize>) -> Set<int> {
    list.map_values(|unit: usize| unit as int).to_set()
}

proof fn lemma_members(list: Seq<usize>, count: nat)
    requires
        list.no_duplicates(),
        forall|k: int| 0 <= k < list.len() ==> (#[trigger] list[k]) < count,
    ensures
        members(list).finite(),
        members(list).len() == list.len(),
        members(list).subset_of(set_int_range(0, count as int)),
        forall|unit: usize| members(list).contains(unit as int) <==> list.contains(unit),
{
    let ints = list.map_values(|unit: usize| unit as int);
    assert forall|i: int, j: int| 0 <= i < ints.len() && 0 <= j < ints.len() && i != j implies ints[i]
        != ints[j] by {
        assert(list[i] != list[j]);
    }
    ints.unique_seq_to_set();
    lemma_int_range(0, count as int);
    assert forall|x: int| members(list).contains(x) implies set_int_range(0, count as int).contains(
        x,
    ) by {
        let at = choose|at: int| 0 <= at < ints.len() && ints[at] == x;
        assert(list[at] < count);
    }
    assert(members(list).finite()) by {
        vstd::seq_lib::seq_to_set_is_finite(ints);
    }
    assert forall|unit: usize| members(list).contains(unit as int) <==> list.contains(unit) by {
        if members(list).contains(unit as int) {
            let at = choose|at: int| 0 <= at < ints.len() && ints[at] == unit as int;
            assert(list[at] == unit);
        }
        if list.contains(unit) {
            let at = choose|at: int| 0 <= at < list.len() && list[at] == unit;
            assert(ints[at] == unit as int);
        }
    }
}

/// A list that names `count` different units out of `count` names them all.
proof fn lemma_order_covers(count: nat, order: Seq<usize>, unit: usize)
    requires
        order.len() == count,
        order.no_duplicates(),
        forall|k: int| 0 <= k < order.len() ==> (#[trigger] order[k]) < count,
        unit < count,
    ensures
        order.contains(unit),
{
    lemma_members(order, count);
    lemma_int_range(0, count as int);
    lemma_subset_equality(members(order), set_int_range(0, count as int));
    assert(set_int_range(0, count as int).contains(unit as int));
}

/// The first place of `order`, from `from` on, whose unit is not in `placed`.
proof fn lemma_first_unplaced(order: Seq<usize>, placed: Seq<usize>, from: int) -> (at: int)
    requires
        0 <= from <= order.len(),
        exists|k: int| from <= k < order.len() && !placed.contains(order[k]),
    ensures
        from <= at < order.len(),
        !placed.contains(order[at]),
        forall|k: int| from <= k < at ==> placed.contains(#[trigger] order[k]),
    decreases order.len() - from,
{
    if !placed.contains(order[from]) {
        from
    } else {
        lemma_first_unplaced(order, placed, from + 1)
    }
}

/// Where fewer than all units are placed and none of the others can come
/// next, the dependencies run in a circle: no topological order exists.
proof fn lemma_stuck(count: nat, deps: Seq<Dependency>, placed: Seq<usize>)
    requires
        count <= usize::MAX,
        dependencies_in_range(count, deps),
        placed.len() < count,
        placed.no_duplicates(),
        forall|k: int| 0 <= k < placed.len() ==> (#[trigger] placed[k]) < count,
        forall|unit: usize| unit < count ==> !unit_ready(deps, placed, unit),
    ensures
        forall|order: Seq<usize>| !respects(count, deps, order),
{
    assert forall|order: Seq<usize>| !respects(count, deps, order) by {
        if respects(count, deps, order) {
            lemma_members(placed, count);
            lemma_members(order, count);
            lemma_int_range(0, count as int);
            if forall|k: int| 0 <= k < order.len() ==> placed.contains(#[trigger] order[k]) {
                assert forall|x: int| set_int_range(0, count as int).contains(x) implies members(
                    placed,
                ).contains(x) by {
                    let unit = x as usize;
                    lemma_order_covers(count, order, unit);
                    let at = choose|at: int| 0 <= at < order.len() && order[at] == unit;
                    assert(placed.contains(order[at]));
                    assert(members(placed).contains(unit as int));
                }
                lemma_len_subset(set_int_range(0, count as int), members(placed));
            }
            let at = lemma_first_unplaced(order, placed, 0);
            let unit = order[at];
            assert(!unit_ready(deps, placed, unit));
            let c = choose|c: int|
                0 <= c < deps.len() && (#[trigger] deps[c]).later == unit && !placed.contains(
                    deps[c].earlier,
                );
            lemma_order_covers(count, order, deps[c].earlier);
            let before = choose|j: int| 0 <= j < order.len() && order[j] == deps[c].earlier;
            assert(before < at);
            assert(placed.contains(order[before]));
        }
    }
}

/// For every unit, whether it depends on a unit that is not placed yet.
fn blocked_units(count: usize, deps: &Vec<Dependency>, placed: &Vec<bool>) -> (blocked: Vec<bool>)
    requires
        dependencies_in_range(count as nat, deps@),
        placed.len() == count,
    ensures
        blocked.len() == count,
        forall|unit: int|
            0 <= unit < count ==> (#[trigger] blocked[unit] <==> exists|c: int|
                0 <= c < deps.len() && (#[trigger] deps[c]).later == unit && !placed[deps[c].earlier as int]),
{
    let mut blocked: Vec<bool> = Vec::new();
    let mut unit: usize = 0;
    while unit < count
        invariant
            unit <= count,
            blocked.len() == unit,
            forall|u: int| 0 <= u < unit ==> !(#[trigger] blocked[u]),
        decreases count - unit,
    {
        blocked.push(false);
        unit = unit + 1;
    }
    let mut c: usize = 0;
    while c < deps.len()
        invariant
            c <= deps.len(),
            blocked.len() == count,
            placed.len() == count,
            dependencies_in_range(count as nat, deps@),
            forall|unit: int|
                0 <= unit < count ==> (#[trigger] blocked[unit] <==> exists|d: int|
                    0 <= d < c && (#[trigger] deps[d]).later == unit && !placed[deps[d].earlier as int]),
        decreases deps.len() - c,
    {
        let dep = deps[c];
        let ghost before = blocked@;
        if !placed[dep.earlier] {
            blocked.set(dep.later, true);
        }
        proof {
            assert forall|unit: int| 0 <= unit < count implies (#[trigger] blocked[unit] <==> exists|
                d: int,
            |
                0 <= d < c + 1 && (#[trigger] deps[d]).later == unit && !placed[deps[d].earlier as int]) by {
                if blocked[unit] {
                    if before[unit] {
                        let d = choose|d: int|
                            0 <= d < c && (#[trigger] deps[d]).later == unit
                                && !placed[deps[d].earlier as int];
                        assert(0 <= d < c + 1);
                    } else {
                        assert(deps[c as int].later == unit);
                    }
                }
            }
        }
        c = c + 1;
    }
    blocked
}

/// Computes the schedule of `count` units under the dependencies `deps`, or
/// finds that they allow no topological order.
pub fn schedule(count: usize, deps: &Vec<Dependency>) -> (r: Option<Vec<usize>>)
    requires
        dependencies_in_range(count as nat, deps@),
    ensures
        match r {
            Some(order) => is_schedule(count as nat, deps@, order@),
            None => forall|order: Seq<usize>| !respects(count as nat, deps@, order),
        },
{
    let mut placed: Vec<bool> = Vec::new();
    let mut fill: usize = 0;
    while fill < count
        invariant
            fill <= count,
            placed.len() == fill,
            forall|u: int| 0 <= u < fill ==> !(#[trigger] placed[u]),
        decreases count - fill,
    {
        placed.push(false);
        fill = fill + 1;
    }
    let mut order: Vec<usize> = Vec::new();
    let mut round: usize = 0;
    while round < count
        invariant
            round <= count,
            order.len() == round,
            placed.len() == count,
            dependencies_in_range(count as nat, deps@),
            forall|unit: usize| unit < count ==> (placed[unit as int] <==> order@.contains(unit)),
            forall|k: int| 0 <= k < order.len() ==> (#[trigger] order[k]) < count,
            order@.no_duplicates(),
            forall|k: int|
                0 <= k < order.len() ==> #[trigger] unit_ready(deps@, order@.take(k), order[k]),
            forall|k: int, unit: usize|
                0 <= k < order.len() && unit < order[k] ==> !#[trigger] unit_ready(
                    deps@,
                    order@.take(k),
                    unit,
                ),
        decreases count - round,
    {
        let blocked = blocked_units(count, deps, &placed);
        let mut next: usize = 0;
        while next < count && (placed[next] || blocked[next])
            invariant
                next <= count,
                placed.len() == count,
                blocked.len() == count,
                forall|u: int| 0 <= u < next ==> placed[u] || blocked[u],
            decreases count - next,
        {
            next = next + 1;
        }
        proof {
            assert forall|unit: usize| unit < next implies !unit_ready(deps@, order@, unit) by {
                if !placed[unit as int] {
                    assert(blocked[unit as int]);
                    let c = choose|c: int|
                        0 <= c < deps.len() && (#[trigger] deps@[c]).later == unit
                            && !placed[deps@[c].earlier as int];
                    assert(!order@.contains(deps@[c].earlier));
                }
            }
        }
        if next == count {
            proof {
                lemma_stuck(count as nat, deps@, order@);
            }
            return None;
        }
        let ghost before = order@;
        proof {
            assert(!placed[next as int] && !blocked[next as int]);
            assert forall|c: int|
                0 <= c < deps.len() && (#[trigger] deps@[c]).later == next implies before.contains(
                deps@[c].earlier,
            ) by {
                assert(placed[deps@[c].earlier as int]);
            }
            assert(unit_ready(deps@, before, next));
        }
        order.push(next);
        placed.set(next, true);
        proof {
            assert(order@.take(round as int) =~= before);
            assert forall|k: int| 0 <= k < round implies #[trigger] order@.take(k) == before.take(k) by {
                assert(order@.take(k) =~= before.take(k));
            }
            assert forall|unit: usize| unit < count implies (placed[unit as int] <==> order@.contains(
                unit,
            )) by {
                if order@.contains(unit) {
                    let at = choose|at: int| 0 <= at < order@.len() && order@[at] == unit;
                    if at < round {
                        assert(before[at] == unit);
                    }
                }
                if before.contains(unit) {
                    let at = choose|at: int| 0 <= at < before.len() && before[at] == unit;
                    assert(order@[at] == unit);
                }
                if unit == next {
                    assert(order@[round as int] == unit);
                }
            }
            assert forall|i: int, j: int| 0 <= i < j < order@.len() implies order@[i] != order@[j] by {
                if j == round {
                    assert(before[i] == order@[i]);
                    assert(before.contains(before[i]));
                } else {
                    assert(before[i] != before[j]);
                }
            }
        }
        round = round + 1;
    }
    Some(order)
}

} // verus!
