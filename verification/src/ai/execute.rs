//! Turning a nation's plan into civilian orders, in an order that lets every
//! civilian step onto a tile its neighbour is leaving.

use crate::ai::planner::{CivilianTask, NationPlan, ProductionOrder};
use crate::ai::snapshot::{CivilianSnapshot, NationSnapshot};
use crate::ai::trade::{AdjustMarketOrder, AdjustProduction, MarketInterest};
use crate::civilians::types::CivilianKind;
use crate::economy::{Good, TransportCommodity};
use crate::civilians::types::CivilianOrderKind;
use crate::map::TilePos;
use vstd::prelude::*;
use vstd::set_lib::{lemma_int_range, lemma_len_subset, set_int_range};

verus! {

/// The order that carries out a task; an idle civilian gets none.
pub open spec fn task_order(t: CivilianTask) -> Option<CivilianOrderKind> {
    match t {
        CivilianTask::BuildRailTo { target } => Some(CivilianOrderKind::BuildRail { to: target }),
        CivilianTask::BuildDepot => Some(CivilianOrderKind::BuildDepot),
        CivilianTask::ImproveTile { target } => Some(CivilianOrderKind::ImproveTile { to: target }),
        CivilianTask::ProspectTile { target } => Some(CivilianOrderKind::Prospect { to: target }),
        CivilianTask::MoveTo { target } => Some(CivilianOrderKind::Move { to: target }),
        CivilianTask::Idle => None,
    }
}

/// Converts a task into the civilian order that carries it out.
pub fn task_to_order(task: &CivilianTask) -> (r: Option<CivilianOrderKind>)
    ensures
        r == task_order(*task),
{
    match task {
        CivilianTask::BuildRailTo { target } => Some(CivilianOrderKind::BuildRail { to: *target }),
        CivilianTask::BuildDepot => Some(CivilianOrderKind::BuildDepot),
        CivilianTask::ImproveTile { target } => Some(CivilianOrderKind::ImproveTile { to: *target }),
        CivilianTask::ProspectTile { target } => Some(CivilianOrderKind::Prospect { to: *target }),
        CivilianTask::MoveTo { target } => Some(CivilianOrderKind::Move { to: *target }),
        CivilianTask::Idle => None,
    }
}

/// The tile a task moves its civilian onto, if it moves it.
pub open spec fn task_destination(t: CivilianTask) -> Option<TilePos> {
    match t {
        CivilianTask::MoveTo { target } => Some(target),
        CivilianTask::BuildRailTo { target } => Some(target),
        _ => None,
    }
}

/// The civilian standing on `tile`, read from a list of (tile, civilian)
/// entries in which a later entry for a tile replaces an earlier one.
pub open spec fn occupant(positions: Seq<(TilePos, u64)>, tile: TilePos) -> Option<u64>
    decreases positions.len(),
{
    if positions.len() == 0 {
        None
    } else if positions.last().0 == tile {
        Some(positions.last().1)
    } else {
        occupant(positions.drop_last(), tile)
    }
}

/// Some task belongs to civilian `id`.
pub open spec fn has_task(tasks: Seq<(u64, CivilianTask)>, id: u64) -> bool {
    exists|i: int| 0 <= i < tasks.len() && (#[trigger] tasks[i]).0 == id
}

/// No two tasks belong to the same civilian.
pub open spec fn distinct_civilians(tasks: Seq<(u64, CivilianTask)>) -> bool {
    forall|i: int, j: int|
        0 <= i < tasks.len() && 0 <= j < tasks.len() && i != j ==> (#[trigger] tasks[i]).0
            != (#[trigger] tasks[j]).0
}

/// The civilian that must act before the task `e` can: the one, also given a
/// task, that stands on the tile `e` moves onto.
pub open spec fn blocker(
    tasks: Seq<(u64, CivilianTask)>,
    positions: Seq<(TilePos, u64)>,
    e: (u64, CivilianTask),
) -> Option<u64> {
    match task_destination(e.1) {
        Some(tile) => match occupant(positions, tile) {
            Some(o) => if o != e.0 && has_task(tasks, o) {
                Some(o)
            } else {
                None
            },
            None => None,
        },
        None => None,
    }
}

/// `out` is `tasks` in an order where the first `ready` entries each come
/// after the entry they wait for, and every later entry waits for another
/// later entry (a cycle of civilians waiting on each other, or a civilian
/// waiting on such a cycle).
pub open spec fn dependency_order(
    tasks: Seq<(u64, CivilianTask)>,
    positions: Seq<(TilePos, u64)>,
    out: Seq<(u64, CivilianTask)>,
    ready: int,
) -> bool {
    &&& 0 <= ready <= out.len()
    &&& forall|i: int|
        0 <= i < ready ==> match #[trigger] blocker(tasks, positions, out[i]) {
            Some(b) => exists|j: int| 0 <= j < i && (#[trigger] out[j]).0 == b,
            None => true,
        }
    &&& forall|i: int|
        ready <= i < out.len() ==> match #[trigger] blocker(tasks, positions, out[i]) {
            Some(b) => exists|j: int| ready <= j < out.len() && (#[trigger] out[j]).0 == b,
            None => false,
        }
}

/// `out` holds exactly the entries of `tasks`, each once.
pub open spec fn same_tasks(tasks: Seq<(u64, CivilianTask)>, out: Seq<(u64, CivilianTask)>) -> bool {
    &&& out.len() == tasks.len()
    &&& forall|i: int| 0 <= i < out.len() ==> tasks.contains(#[trigger] out[i])
    &&& forall|i: int| 0 <= i < tasks.len() ==> out.contains(#[trigger] tasks[i])
    &&& distinct_civilians(out)
}

fn find_occupant(positions: &Vec<(TilePos, u64)>, tile: TilePos) -> (r: Option<u64>)
    ensures
        r == occupant(positions@, tile),
{
    let mut k: usize = positions.len();
    assert(positions@.take(k as int) =~= positions@);
    while k > 0
        invariant
            k <= positions@.len(),
            occupant(positions@, tile) == occupant(positions@.take(k as int), tile),
        decreases k,
    {
        let (t, c) = positions[k - 1];
        assert(positions@.take(k as int).drop_last() =~= positions@.take(k - 1));
        if t == tile {
            return Some(c);
        }
        k = k - 1;
    }
    None
}

fn find_task(tasks: &Vec<(u64, CivilianTask)>, id: u64) -> (r: Option<usize>)
    ensures
        match r {
            Some(j) => j < tasks@.len() && tasks@[j as int].0 == id,
            None => !has_task(tasks@, id),
        },
{
    let mut j: usize = 0;
    while j < tasks.len()
        invariant
            j <= tasks@.len(),
            forall|k: int| 0 <= k < j ==> (#[trigger] tasks@[k]).0 != id,
        decreases tasks@.len() - j,
    {
        if tasks[j].0 == id {
            return Some(j);
        }
        j = j + 1;
    }
    None
}

/// `s` lists indices below `n`, none twice.
pub open spec fn distinct_indices(s: Seq<usize>, n: int) -> bool {
    &&& forall|m: int| 0 <= m < s.len() ==> (#[trigger] s[m]) < n
    &&& forall|m: int, l: int| 0 <= m < s.len() && 0 <= l < s.len() && m != l ==> #[trigger] s[m] != #[trigger] s[l]
}

spec fn preds_bounded(pred: Seq<Option<usize>>, n: int) -> bool {
    forall|m: int| 0 <= m < pred.len() ==> match #[trigger] pred[m] {
        Some(p) => p < n,
        None => true,
    }
}

/// Each listed index comes after the index it waits for.
spec fn preds_first(pred: Seq<Option<usize>>, order: Seq<usize>) -> bool {
    forall|m: int|
        0 <= m < order.len() ==> match #[trigger] pred[order[m] as int] {
            Some(p) => exists|l: int| 0 <= l < m && order[l] == p,
            None => true,
        }
}

proof fn lemma_distinct_indices_len(s: Seq<usize>, n: int)
    requires
        0 <= n <= usize::MAX + 1,
        distinct_indices(s, n),
    ensures
        s.len() <= n,
        (forall|x: int| 0 <= x < n ==> #[trigger] s.contains(x as usize)) ==> s.len() == n,
{
    let t = s.map_values(|v: usize| v as int);
    assert forall|i: int, j: int| 0 <= i < t.len() && 0 <= j < t.len() && i != j implies t[i] != t[j] by {
        assert(s[i] != s[j]);
    }
    assert(t.no_duplicates());
    t.unique_seq_to_set();
    lemma_int_range(0, n);
    assert forall|v: int| t.to_set().contains(v) implies set_int_range(0, n).contains(v) by {
        let i = choose|i: int| 0 <= i < t.len() && t[i] == v;
        assert(s[i] < n);
    }
    lemma_len_subset(t.to_set(), set_int_range(0, n));
    if forall|x: int| 0 <= x < n ==> #[trigger] s.contains(x as usize) {
        assert forall|v: int| set_int_range(0, n).contains(v) implies t.to_set().contains(v) by {
            assert(s.contains(v as usize));
            let i = choose|i: int| 0 <= i < s.len() && s[i] == v as usize;
            assert(t[i] == v);
        }
        assert(t.to_set() =~= set_int_range(0, n));
    }
}

proof fn lemma_emit_order(
    tasks: Seq<(u64, CivilianTask)>,
    positions: Seq<(TilePos, u64)>,
    pred: Seq<Option<usize>>,
    done: Seq<bool>,
    order: Seq<usize>,
    out: Seq<(u64, CivilianTask)>,
    ready: int,
)
    requires
        tasks.len() <= usize::MAX,
        distinct_civilians(tasks),
        pred.len() == tasks.len(),
        done.len() == tasks.len(),
        forall|k: int|
            0 <= k < tasks.len() ==> match #[trigger] pred[k] {
                Some(j) => j < tasks.len() && blocker(tasks, positions, tasks[k]) == Some(tasks[j as int].0),
                None => blocker(tasks, positions, tasks[k]) is None,
            },
        distinct_indices(order, tasks.len() as int),
        order.len() == tasks.len(),
        0 <= ready <= order.len(),
        forall|l: int| 0 <= l < order.len() ==> (done[#[trigger] order[l] as int] <==> l < ready),
        forall|m: int|
            0 <= m < ready ==> match #[trigger] pred[order[m] as int] {
                Some(p) => exists|l: int| 0 <= l < m && order[l] == p,
                None => true,
            },
        forall|x: int|
            0 <= x < tasks.len() && !(#[trigger] done[x]) ==> match pred[x] {
                Some(p) => !done[p as int],
                None => false,
            },
        forall|x: int| 0 <= x < tasks.len() ==> #[trigger] order.contains(x as usize),
        out.len() == order.len(),
        forall|l: int| 0 <= l < out.len() ==> out[l] == tasks[#[trigger] order[l] as int],
    ensures
        same_tasks(tasks, out),
        dependency_order(tasks, positions, out, ready),
{
    assert forall|i: int| 0 <= i < out.len() implies tasks.contains(#[trigger] out[i]) by {
        assert(out[i] == tasks[order[i] as int]);
    }
    assert forall|x: int| 0 <= x < tasks.len() implies out.contains(#[trigger] tasks[x]) by {
        assert(order.contains(x as usize));
        let l = choose|l: int| 0 <= l < order.len() && order[l] == x as usize;
        assert(out[l] == tasks[x]);
    }
    assert forall|i: int, j: int|
        0 <= i < out.len() && 0 <= j < out.len() && i != j implies (#[trigger] out[i]).0
            != (#[trigger] out[j]).0 by {
        assert(order[i] != order[j]);
        assert(out[i] == tasks[order[i] as int]);
        assert(out[j] == tasks[order[j] as int]);
    }
    assert forall|i: int| 0 <= i < ready implies match #[trigger] blocker(tasks, positions, out[i]) {
        Some(b) => exists|j: int| 0 <= j < i && (#[trigger] out[j]).0 == b,
        None => true,
    } by {
        let x = order[i] as int;
        assert(out[i] == tasks[x]);
        match pred[x] {
            Some(p) => {
                let l = choose|l: int| 0 <= l < i && order[l] == p;
                assert(out[l] == tasks[p as int]);
            },
            None => {},
        }
    }
    assert forall|i: int| ready <= i < out.len() implies match #[trigger] blocker(tasks, positions, out[i]) {
        Some(b) => exists|j: int| ready <= j < out.len() && (#[trigger] out[j]).0 == b,
        None => false,
    } by {
        let x = order[i] as int;
        assert(out[i] == tasks[x]);
        assert(!done[x]);
        match pred[x] {
            Some(p) => {
                assert(p < tasks.len());
                assert(order.contains((p as int) as usize));
                let l = choose|l: int| 0 <= l < order.len() && order[l] == p;
                assert(!done[order[l] as int]);
                assert(out[l] == tasks[p as int]);
            },
            None => {},
        }
    }
}

/// The index of the task of the civilian that task `k` waits for, if any.
pub open spec fn waits_for(tasks: Seq<(u64, CivilianTask)>, positions: Seq<(TilePos, u64)>, k: int) -> Option<usize> {
    match blocker(tasks, positions, tasks[k]) {
        Some(b) => Some(choose|j: usize| (j as int) < tasks.len() && tasks[j as int].0 == b),
        None => None,
    }
}

/// Where task `k` goes among the task indices `s` ordered by civilian id:
/// after every one with an id no greater.
pub open spec fn id_slot(tasks: Seq<(u64, CivilianTask)>, s: Seq<usize>, k: usize) -> int
    decreases s.len(),
{
    if s.len() == 0 {
        0
    } else if tasks[s[0] as int].0 > tasks[k as int].0 {
        0
    } else {
        1 + id_slot(tasks, s.drop_first(), k)
    }
}

pub open spec fn place_by_id(tasks: Seq<(u64, CivilianTask)>, s: Seq<usize>, k: usize) -> Seq<usize> {
    s.insert(id_slot(tasks, s, k), k)
}

/// The tasks among the first `upto` that wait for task `x`, by civilian id.
pub open spec fn children_asc(
    tasks: Seq<(u64, CivilianTask)>,
    positions: Seq<(TilePos, u64)>,
    x: usize,
    upto: nat,
) -> Seq<usize>
    decreases upto,
{
    if upto == 0 {
        Seq::empty()
    } else {
        let prev = children_asc(tasks, positions, x, (upto - 1) as nat);
        let k = (upto - 1) as usize;
        if waits_for(tasks, positions, k as int) == Some(x) {
            place_by_id(tasks, prev, k)
        } else {
            prev
        }
    }
}

/// The tasks among the first `upto` that wait for no one, by civilian id.
pub open spec fn roots_asc(tasks: Seq<(u64, CivilianTask)>, positions: Seq<(TilePos, u64)>, upto: nat) -> Seq<usize>
    decreases upto,
{
    if upto == 0 {
        Seq::empty()
    } else {
        let prev = roots_asc(tasks, positions, (upto - 1) as nat);
        let k = (upto - 1) as usize;
        if waits_for(tasks, positions, k as int) is None {
            place_by_id(tasks, prev, k)
        } else {
            prev
        }
    }
}

/// Working through a stack of tasks ready to go: the top one goes next, and
/// the tasks waiting for it are stacked on top, highest id topmost.
pub open spec fn stack_run(
    tasks: Seq<(u64, CivilianTask)>,
    positions: Seq<(TilePos, u64)>,
    stack: Seq<usize>,
    emitted: Seq<usize>,
    fuel: nat,
) -> Seq<usize>
    decreases fuel,
{
    if fuel == 0 || stack.len() == 0 {
        emitted
    } else {
        let x = stack.last();
        stack_run(
            tasks,
            positions,
            stack.drop_last() + children_asc(tasks, positions, x, tasks.len()),
            emitted.push(x),
            (fuel - 1) as nat,
        )
    }
}

/// The tasks that can go in turn, starting from those that wait for no one
/// (highest civilian id first), each followed depth-first by those waiting
/// for it.
pub open spec fn settled_order(tasks: Seq<(u64, CivilianTask)>, positions: Seq<(TilePos, u64)>) -> Seq<usize> {
    stack_run(tasks, positions, roots_asc(tasks, positions, tasks.len()), Seq::empty(), tasks.len())
}

/// The indices below `upto` that `settled` leaves out, in increasing order.
pub open spec fn left_waiting(settled: Seq<usize>, upto: nat) -> Seq<usize>
    decreases upto,
{
    if upto == 0 {
        Seq::empty()
    } else {
        let prev = left_waiting(settled, (upto - 1) as nat);
        if settled.contains((upto - 1) as usize) {
            prev
        } else {
            prev.push((upto - 1) as usize)
        }
    }
}

/// The order the tasks are carried out in: those that can go in turn (see
/// `settled_order`), then those caught waiting in a cycle, in the order given.
pub open spec fn execution_order(tasks: Seq<(u64, CivilianTask)>, positions: Seq<(TilePos, u64)>) -> Seq<
    (u64, CivilianTask),
> {
    let settled = settled_order(tasks, positions);
    let order = settled + left_waiting(settled, tasks.len());
    Seq::new(order.len(), |l: int| tasks[order[l] as int])
}

proof fn lemma_id_slot_bounds(tasks: Seq<(u64, CivilianTask)>, s: Seq<usize>, k: usize)
    ensures
        0 <= id_slot(tasks, s, k) <= s.len(),
    decreases s.len(),
{
    if s.len() > 0 {
        lemma_id_slot_bounds(tasks, s.drop_first(), k);
    }
}

proof fn lemma_place_contents(tasks: Seq<(u64, CivilianTask)>, s: Seq<usize>, k: usize)
    requires
        s.no_duplicates(),
        !s.contains(k),
    ensures
        place_by_id(tasks, s, k).no_duplicates(),
        place_by_id(tasks, s, k).len() == s.len() + 1,
        forall|c: usize| place_by_id(tasks, s, k).contains(c) <==> (s.contains(c) || c == k),
{
    lemma_id_slot_bounds(tasks, s, k);
    let i = id_slot(tasks, s, k);
    let t = s.insert(i, k);
    assert forall|a: int, b: int| 0 <= a < b < t.len() implies t[a] != t[b] by {
        if a < i && b < i {
            assert(t[a] == s[a] && t[b] == s[b]);
        } else if a < i && b == i {
            assert(t[a] == s[a]);
        } else if a < i {
            assert(t[a] == s[a] && t[b] == s[b - 1]);
        } else if a == i {
            assert(t[b] == s[b - 1]);
        } else {
            assert(t[a] == s[a - 1] && t[b] == s[b - 1]);
        }
    }
    assert forall|c: usize| t.contains(c) <==> (s.contains(c) || c == k) by {
        if t.contains(c) {
            let a = choose|a: int| 0 <= a < t.len() && t[a] == c;
            if a < i {
                assert(s[a] == c);
            } else if a > i {
                assert(s[a - 1] == c);
            }
        }
        if s.contains(c) {
            let a = choose|a: int| 0 <= a < s.len() && s[a] == c;
            if a < i {
                assert(t[a] == c);
            } else {
                assert(t[a + 1] == c);
            }
        }
        if c == k {
            assert(t[i] == c);
        }
    }
}

proof fn lemma_children_contents(
    tasks: Seq<(u64, CivilianTask)>,
    positions: Seq<(TilePos, u64)>,
    x: usize,
    upto: nat,
)
    requires
        upto <= tasks.len() <= usize::MAX,
    ensures
        children_asc(tasks, positions, x, upto).no_duplicates(),
        forall|c: usize|
            #[trigger] children_asc(tasks, positions, x, upto).contains(c) <==> ((c as int) < upto && waits_for(
                tasks,
                positions,
                c as int,
            ) == Some(x)),
    decreases upto,
{
    if upto > 0 {
        let prev = children_asc(tasks, positions, x, (upto - 1) as nat);
        lemma_children_contents(tasks, positions, x, (upto - 1) as nat);
        let k = (upto - 1) as usize;
        assert(k as int == upto - 1);
        let r = children_asc(tasks, positions, x, upto);
        if waits_for(tasks, positions, k as int) == Some(x) {
            lemma_place_contents(tasks, prev, k);
            assert(r == place_by_id(tasks, prev, k));
        } else {
            assert(r == prev);
        }
        assert forall|c: usize| r.contains(c) <==> ((c as int) < upto && waits_for(tasks, positions, c as int) == Some(x)) by {
            assert(prev.contains(c) <==> ((c as int) < upto - 1 && waits_for(tasks, positions, c as int) == Some(x)));
        }
    }
}

proof fn lemma_roots_contents(tasks: Seq<(u64, CivilianTask)>, positions: Seq<(TilePos, u64)>, upto: nat)
    requires
        upto <= tasks.len() <= usize::MAX,
    ensures
        roots_asc(tasks, positions, upto).no_duplicates(),
        forall|c: usize|
            #[trigger] roots_asc(tasks, positions, upto).contains(c) <==> ((c as int) < upto && waits_for(
                tasks,
                positions,
                c as int,
            ) is None),
    decreases upto,
{
    if upto > 0 {
        let prev = roots_asc(tasks, positions, (upto - 1) as nat);
        lemma_roots_contents(tasks, positions, (upto - 1) as nat);
        let k = (upto - 1) as usize;
        assert(k as int == upto - 1);
        let r = roots_asc(tasks, positions, upto);
        if waits_for(tasks, positions, k as int) is None {
            lemma_place_contents(tasks, prev, k);
            assert(r == place_by_id(tasks, prev, k));
        } else {
            assert(r == prev);
        }
        assert forall|c: usize| r.contains(c) <==> ((c as int) < upto && waits_for(tasks, positions, c as int) is None) by {
            assert(prev.contains(c) <==> ((c as int) < upto - 1 && waits_for(tasks, positions, c as int) is None));
        }
    }
}

proof fn lemma_push_index(s: Seq<usize>, x: usize, n: int)
    requires
        distinct_indices(s, n),
        (x as int) < n,
        !s.contains(x),
    ensures
        distinct_indices(s.push(x), n),
{
    let t = s.push(x);
    assert forall|m: int, l: int| 0 <= m < t.len() && 0 <= l < t.len() && m != l implies #[trigger] t[m]
        != #[trigger] t[l] by {
        if m == s.len() {
            assert(t[l] == s[l]);
        } else if l == s.len() {
            assert(t[m] == s[m]);
        } else {
            assert(t[m] == s[m] && t[l] == s[l]);
        }
    }
    assert forall|m: int| 0 <= m < t.len() implies (#[trigger] t[m]) < n by {
        if m < s.len() {
            assert(t[m] == s[m]);
        }
    }
}

fn place_index_by_id(tasks: &Vec<(u64, CivilianTask)>, sorted: &mut Vec<usize>, k: usize)
    requires
        (k as int) < tasks@.len(),
        forall|m: int| 0 <= m < old(sorted)@.len() ==> (#[trigger] old(sorted)@[m] as int) < tasks@.len(),
    ensures
        final(sorted)@ == place_by_id(tasks@, old(sorted)@, k),
{
    let mut pos: usize = 0;
    assert(sorted@.skip(0) =~= sorted@);
    while pos < sorted.len() && tasks[sorted[pos]].0 <= tasks[k].0
        invariant
            pos <= sorted@.len(),
            sorted@ == old(sorted)@,
            (k as int) < tasks@.len(),
            forall|m: int| 0 <= m < sorted@.len() ==> (#[trigger] sorted@[m] as int) < tasks@.len(),
            id_slot(tasks@, sorted@, k) == pos + id_slot(tasks@, sorted@.skip(pos as int), k),
        decreases sorted@.len() - pos,
    {
        assert(sorted@.skip(pos as int).drop_first() =~= sorted@.skip(pos + 1));
        assert(sorted@.skip(pos as int)[0] == sorted@[pos as int]);
        pos = pos + 1;
    }
    proof {
        if pos < sorted@.len() {
            assert(sorted@.skip(pos as int)[0] == sorted@[pos as int]);
        }
    }
    sorted.insert(pos, k);
}

fn children_of(
    tasks: &Vec<(u64, CivilianTask)>,
    positions: &Vec<(TilePos, u64)>,
    pred: &Vec<Option<usize>>,
    x: usize,
) -> (r: Vec<usize>)
    requires
        pred@.len() == tasks@.len(),
        forall|k: int| 0 <= k < tasks@.len() ==> #[trigger] pred@[k] == waits_for(tasks@, positions@, k),
    ensures
        r@ == children_asc(tasks@, positions@, x, tasks@.len()),
{
    let mut out: Vec<usize> = Vec::new();
    let mut k: usize = 0;
    while k < pred.len()
        invariant
            k <= pred@.len() == tasks@.len(),
            forall|j: int| 0 <= j < tasks@.len() ==> #[trigger] pred@[j] == waits_for(tasks@, positions@, j),
            out@ == children_asc(tasks@, positions@, x, k as nat),
        decreases pred@.len() - k,
    {
        proof {
            lemma_children_contents(tasks@, positions@, x, k as nat);
            assert forall|m: int| 0 <= m < out@.len() implies (#[trigger] out@[m] as int) < tasks@.len() by {
                let c = out@[m];
                assert(out@.contains(c));
                assert((c as int) < k);
            }
        }
        if pred[k] == Some(x) {
            place_index_by_id(tasks, &mut out, k);
        }
        k = k + 1;
    }
    out
}

fn roots_of(tasks: &Vec<(u64, CivilianTask)>, positions: &Vec<(TilePos, u64)>, pred: &Vec<Option<usize>>) -> (r: Vec<
    usize,
>)
    requires
        pred@.len() == tasks@.len(),
        forall|k: int| 0 <= k < tasks@.len() ==> #[trigger] pred@[k] == waits_for(tasks@, positions@, k),
    ensures
        r@ == roots_asc(tasks@, positions@, tasks@.len()),
{
    let mut out: Vec<usize> = Vec::new();
    let mut k: usize = 0;
    while k < pred.len()
        invariant
            k <= pred@.len() == tasks@.len(),
            forall|j: int| 0 <= j < tasks@.len() ==> #[trigger] pred@[j] == waits_for(tasks@, positions@, j),
            out@ == roots_asc(tasks@, positions@, k as nat),
        decreases pred@.len() - k,
    {
        proof {
            lemma_roots_contents(tasks@, positions@, k as nat);
            assert forall|m: int| 0 <= m < out@.len() implies (#[trigger] out@[m] as int) < tasks@.len() by {
                assert(out@.contains(out@[m]));
            }
        }
        if pred[k].is_none() {
            place_index_by_id(tasks, &mut out, k);
        }
        k = k + 1;
    }
    out
}

proof fn lemma_waits_for_other(tasks: Seq<(u64, CivilianTask)>, positions: Seq<(TilePos, u64)>, k: int)
    requires
        0 <= k < tasks.len() <= usize::MAX,
    ensures
        waits_for(tasks, positions, k) matches Some(j) ==> (j as int) < tasks.len() && j as int != k,
{
    match blocker(tasks, positions, tasks[k]) {
        Some(b) => {
            let i = choose|i: int| 0 <= i < tasks.len() && (#[trigger] tasks[i]).0 == b;
            assert((i as usize) as int == i);
            assert(tasks[(i as usize) as int].0 == b);
            let j = choose|j: usize| (j as int) < tasks.len() && tasks[j as int].0 == b;
            assert(tasks[j as int].0 != tasks[k].0);
        },
        None => {},
    }
}

/// One step of working through the stack keeps what the stack and the
/// emitted list promise.
proof fn lemma_stack_step(
    tasks: Seq<(u64, CivilianTask)>,
    positions: Seq<(TilePos, u64)>,
    pred: Seq<Option<usize>>,
    old_done: Seq<bool>,
    done: Seq<bool>,
    old_order: Seq<usize>,
    order: Seq<usize>,
    old_stack: Seq<usize>,
    stack: Seq<usize>,
    children: Seq<usize>,
    x: usize,
    n: int,
)
    requires
        n == tasks.len() <= usize::MAX,
        pred.len() == n,
        old_done.len() == n,
        done == old_done.update(x as int, true),
        forall|k: int| 0 <= k < n ==> #[trigger] pred[k] == waits_for(tasks, positions, k),
        distinct_indices(old_order, n),
        distinct_indices(old_stack, n),
        old_stack.len() > 0,
        x == old_stack.last(),
        forall|m: int| 0 <= m < old_stack.len() ==> !old_order.contains(#[trigger] old_stack[m]),
        forall|y: int| 0 <= y < n ==> (#[trigger] old_done[y] <==> old_order.contains(y as usize)),
        preds_first(pred, old_order),
        forall|m: int|
            0 <= m < old_stack.len() ==> match #[trigger] pred[old_stack[m] as int] {
                Some(p) => old_done[p as int],
                None => true,
            },
        forall|y: int|
            0 <= y < n && !(#[trigger] old_done[y]) && !old_stack.contains(y as usize) ==> match pred[y] {
                Some(p) => !old_done[p as int],
                None => false,
            },
        order == old_order.push(x),
        children.no_duplicates(),
        forall|c: usize| children.contains(c) <==> ((c as int) < n && waits_for(tasks, positions, c as int) == Some(x)),
        stack == old_stack.drop_last() + children,
    ensures
        distinct_indices(order, n),
        distinct_indices(stack, n),
        forall|m: int| 0 <= m < stack.len() ==> !order.contains(#[trigger] stack[m]),
        forall|y: int| 0 <= y < n ==> (#[trigger] done[y] <==> order.contains(y as usize)),
        preds_first(pred, order),
        forall|m: int|
            0 <= m < stack.len() ==> match #[trigger] pred[stack[m] as int] {
                Some(p) => done[p as int],
                None => true,
            },
        forall|y: int|
            0 <= y < n && !(#[trigger] done[y]) && !stack.contains(y as usize) ==> match pred[y] {
                Some(p) => !done[p as int],
                None => false,
            },
{
    broadcast use vstd::seq_lib::group_seq_properties;

    let rest = old_stack.drop_last();
    let top = old_stack.len() - 1;
    assert(old_stack[top] == x);
    assert(!old_order.contains(x));
    assert((x as int) < n);
    assert(!old_done[x as int]);
    lemma_push_index(old_order, x, n);
    // Facts about the children.
    assert forall|c: usize| children.contains(c) implies !old_order.contains(c) && c != x && !rest.contains(c) by {
        lemma_waits_for_other(tasks, positions, c as int);
        assert(pred[c as int] == Some(x));
        if old_order.contains(c) {
            let m = choose|m: int| 0 <= m < old_order.len() && old_order[m] == c;
            assert(match pred[old_order[m] as int] {
                Some(p) => exists|l: int| 0 <= l < m && old_order[l] == p,
                None => true,
            });
            let l = choose|l: int| 0 <= l < m && old_order[l] == x;
            assert(old_order.contains(x));
        }
        if rest.contains(c) {
            let m = choose|m: int| 0 <= m < rest.len() && rest[m] == c;
            assert(old_stack[m] == c);
            assert(match pred[old_stack[m] as int] {
                Some(p) => old_done[p as int],
                None => true,
            });
        }
    }
    assert forall|m: int| 0 <= m < rest.len() implies rest[m] != x && !old_order.contains(#[trigger] rest[m]) by {
        assert(rest[m] == old_stack[m]);
        assert(m != top);
    }
    // The new stack lists indices, none twice.
    assert forall|m: int, l: int| 0 <= m < stack.len() && 0 <= l < stack.len() && m != l implies #[trigger] stack[m]
        != #[trigger] stack[l] by {
        if m < rest.len() && l < rest.len() {
            assert(stack[m] == old_stack[m] && stack[l] == old_stack[l]);
        } else if m < rest.len() {
            assert(stack[l] == children[l - rest.len()]);
            assert(children.contains(stack[l]));
            assert(rest.contains(stack[m]));
        } else if l < rest.len() {
            assert(stack[m] == children[m - rest.len()]);
            assert(children.contains(stack[m]));
            assert(rest.contains(stack[l]));
        } else {
            assert(stack[m] == children[m - rest.len()] && stack[l] == children[l - rest.len()]);
        }
    }
    assert forall|m: int| 0 <= m < stack.len() implies (#[trigger] stack[m]) < n && !order.contains(stack[m]) by {
        if m < rest.len() {
            assert(stack[m] == rest[m]);
            assert(stack[m] == old_stack[m]);
        } else {
            assert(stack[m] == children[m - rest.len()]);
            assert(children.contains(stack[m]));
        }
    }
    assert forall|y: int| 0 <= y < n implies (#[trigger] done[y] <==> order.contains(y as usize)) by {
        if y != x as int {
            assert(order.contains(y as usize) <==> old_order.contains(y as usize));
        } else {
            assert(order[order.len() - 1] == x);
        }
    }
    assert forall|m: int| 0 <= m < order.len() implies match #[trigger] pred[order[m] as int] {
        Some(p) => exists|l: int| 0 <= l < m && order[l] == p,
        None => true,
    } by {
        if m < old_order.len() {
            assert(order[m] == old_order[m]);
            match pred[old_order[m] as int] {
                Some(p) => {
                    let l = choose|l: int| 0 <= l < m && old_order[l] == p;
                    assert(order[l] == p);
                },
                None => {},
            }
        } else {
            assert(order[m] == x);
            match pred[x as int] {
                Some(p) => {
                    assert(match pred[old_stack[top] as int] {
                        Some(q) => old_done[q as int],
                        None => true,
                    });
                    assert(old_order.contains(p));
                    let l = choose|l: int| 0 <= l < old_order.len() && old_order[l] == p;
                    assert(order[l] == p);
                },
                None => {},
            }
        }
    }
    assert forall|m: int| 0 <= m < stack.len() implies match #[trigger] pred[stack[m] as int] {
        Some(p) => done[p as int],
        None => true,
    } by {
        if m < rest.len() {
            assert(stack[m] == old_stack[m]);
        } else {
            assert(stack[m] == children[m - rest.len()]);
            assert(children.contains(stack[m]));
        }
    }
    assert forall|y: int| 0 <= y < n && !(#[trigger] done[y]) && !stack.contains(y as usize) implies match pred[y] {
        Some(p) => !done[p as int],
        None => false,
    } by {
        assert(y != x as int);
        if old_stack.contains(y as usize) {
            let m = choose|m: int| 0 <= m < old_stack.len() && old_stack[m] == y as usize;
            assert(m != top);
            assert(stack[m] == y as usize);
        }
        match pred[y] {
            Some(p) => {
                if p == x {
                    assert(children.contains(y as usize));
                    let m = choose|m: int| 0 <= m < children.len() && children[m] == y as usize;
                    assert(stack[rest.len() + m] == y as usize);
                }
            },
            None => {},
        }
    }
}

/// Orders the tasks so that a civilian moving onto a tile held by another
/// tasked civilian acts after it: the tasks that wait for no one go first,
/// highest civilian id first, each followed depth-first by the tasks waiting
/// for it (again highest id first); civilians caught in a cycle of such
/// waits come last, in the order given. See `execution_order`.
pub fn sort_civilian_tasks_topologically(
    tasks: &Vec<(u64, CivilianTask)>,
    current_positions: &Vec<(TilePos, u64)>,
) -> (out: Vec<(u64, CivilianTask)>)
    requires
        distinct_civilians(tasks@),
    ensures
        out@ == execution_order(tasks@, current_positions@),
        same_tasks(tasks@, out@),
        exists|ready: int| dependency_order(tasks@, current_positions@, out@, ready),
{
    let n = tasks.len();
    // pred[i]: index of the task that task i waits for.
    let mut pred: Vec<Option<usize>> = Vec::new();
    let mut i: usize = 0;
    while i < n
        invariant
            n == tasks@.len(),
            i <= n,
            pred@.len() == i,
            distinct_civilians(tasks@),
            forall|k: int|
                0 <= k < i ==> match #[trigger] pred@[k] {
                    Some(j) => j < n && blocker(tasks@, current_positions@, tasks@[k]) == Some(
                        tasks@[j as int].0,
                    ),
                    None => blocker(tasks@, current_positions@, tasks@[k]) is None,
                },
        decreases n - i,
    {
        let (id, task) = tasks[i];
        let p: Option<usize> = match task {
            CivilianTask::MoveTo { target } | CivilianTask::BuildRailTo { target } => {
                match find_occupant(current_positions, target) {
                    Some(o) => if o != id {
                        find_task(tasks, o)
                    } else {
                        None
                    },
                    None => None,
                }
            },
            _ => None,
        };
        pred.push(p);
        i = i + 1;
    }
    let mut done: Vec<bool> = Vec::new();
    let mut k: usize = 0;
    while k < n
        invariant
            k <= n,
            done@.len() == k,
            forall|m: int| 0 <= m < k ==> !(#[trigger] done@[m]),
        decreases n - k,
    {
        done.push(false);
        k = k + 1;
    }
    proof {
        assert forall|k: int| 0 <= k < n implies #[trigger] pred@[k] == waits_for(tasks@, current_positions@, k) by {
            match pred@[k] {
                Some(j) => {
                    let b = tasks@[j as int].0;
                    let c = choose|c: usize| (c as int) < tasks@.len() && tasks@[c as int].0 == b;
                    assert(tasks@[j as int].0 == b);
                    if c != j {
                        assert(tasks@[c as int].0 != tasks@[j as int].0);
                    }
                },
                None => {},
            }
        }
    }
    let mut stack = roots_of(tasks, current_positions, &pred);
    proof {
        lemma_roots_contents(tasks@, current_positions@, n as nat);
        assert forall|m: int| 0 <= m < stack@.len() implies (#[trigger] stack@[m]) < n && pred@[stack@[m] as int]
            is None by {
            assert(stack@.contains(stack@[m]));
        }
        assert forall|m: int, l: int| 0 <= m < stack@.len() && 0 <= l < stack@.len() && m != l implies #[trigger] stack@[m]
            != #[trigger] stack@[l] by {
            assert(stack@.no_duplicates());
        }
        assert forall|y: int| 0 <= y < n && !(#[trigger] done@[y]) && !stack@.contains(y as usize) implies match pred@[y] {
            Some(p) => !done@[p as int],
            None => false,
        } by {
            if pred@[y] is None {
                assert(stack@.contains(y as usize));
            }
        }
    }
    let mut order: Vec<usize> = Vec::new();
    while stack.len() > 0
        invariant
            n == tasks@.len(),
            pred@.len() == n,
            done@.len() == n,
            distinct_civilians(tasks@),
            forall|k: int| 0 <= k < n ==> #[trigger] pred@[k] == waits_for(tasks@, current_positions@, k),
            preds_bounded(pred@, n as int),
            order@.len() <= n,
            distinct_indices(order@, n as int),
            distinct_indices(stack@, n as int),
            forall|m: int| 0 <= m < stack@.len() ==> !order@.contains(#[trigger] stack@[m]),
            forall|x: int| 0 <= x < n ==> (#[trigger] done@[x] <==> order@.contains(x as usize)),
            preds_first(pred@, order@),
            forall|m: int|
                0 <= m < stack@.len() ==> match #[trigger] pred@[stack@[m] as int] {
                    Some(p) => done@[p as int],
                    None => true,
                },
            forall|x: int|
                0 <= x < n && !(#[trigger] done@[x]) && !stack@.contains(x as usize) ==> match pred@[x] {
                    Some(p) => !done@[p as int],
                    None => false,
                },
            stack_run(tasks@, current_positions@, stack@, order@, (n - order@.len()) as nat) == settled_order(
                tasks@,
                current_positions@,
            ),
        decreases n - order@.len(),
    {
        let ghost old_stack = stack@;
        let ghost old_order = order@;
        let ghost old_done = done@;
        let x = stack.pop().unwrap();
        proof {
            assert(old_stack =~= stack@.push(x));
            assert(old_stack[old_stack.len() - 1] == x);
            assert(!old_order.contains(x));
            lemma_push_index(old_order, x, n as int);
            lemma_distinct_indices_len(old_order.push(x), n as int);
        }
        order.push(x);
        done.set(x, true);
        let children = children_of(tasks, current_positions, &pred, x);
        proof {
            lemma_children_contents(tasks@, current_positions@, x, n as nat);
        }
        let ghost popped = stack@;
        let mut c: usize = 0;
        while c < children.len()
            invariant
                c <= children@.len(),
                stack@ == popped + children@.take(c as int),
            decreases children@.len() - c,
        {
            stack.push(children[c]);
            c = c + 1;
            assert(stack@ =~= popped + children@.take(c as int));
        }
        proof {
            assert(children@.take(c as int) =~= children@);
            assert(stack@ == old_stack.drop_last() + children@);
            assert(order@ == old_order.push(x));
            assert(stack_run(tasks@, current_positions@, old_stack, old_order, (n - old_order.len()) as nat)
                == stack_run(tasks@, current_positions@, stack@, order@, (n - order@.len()) as nat));
            lemma_stack_step(
                tasks@,
                current_positions@,
                pred@,
                old_done,
                done@,
                old_order,
                order@,
                old_stack,
                stack@,
                children@,
                x,
                n as int,
            );
        }
    }
    proof {
        assert forall|x: int| 0 <= x < n && !(#[trigger] done@[x]) implies match pred@[x] {
            Some(p) => !done@[p as int],
            None => false,
        } by {
            assert(!stack@.contains(x as usize));
        }
        assert(stack_run(tasks@, current_positions@, stack@, order@, (n - order@.len()) as nat) == order@);
    }
    let ready_count = order.len();
    let ghost prefix = order@;
    let mut t: usize = 0;
    while t < n
        invariant
            t <= n,
            n == tasks@.len(),
            done@.len() == n,
            pred@.len() == n,
            ready_count <= order@.len(),
            order@.take(ready_count as int) == prefix,
            prefix.len() == ready_count,
            distinct_indices(prefix, n as int),
            forall|x: int| 0 <= x < n ==> (#[trigger] done@[x] <==> prefix.contains(x as usize)),
            forall|l: int|
                ready_count <= l < order@.len() ==> (#[trigger] order@[l]) < t && !done@[order@[l] as int],
            forall|l: int, k: int|
                ready_count <= l < k < order@.len() ==> #[trigger] order@[l] < #[trigger] order@[k],
            forall|y: int|
                0 <= y < t && !done@[y] ==> exists|l: int|
                    ready_count <= l < order@.len() && #[trigger] order@[l] == y as usize,
            order@ == prefix + left_waiting(prefix, t as nat),
        decreases n - t,
    {
        proof {
            assert(done@[t as int] <==> prefix.contains(t as usize));
        }
        if !done[t] {
            let ghost old_order = order@;
            order.push(t);
            proof {
                assert(order@.take(ready_count as int) =~= old_order.take(ready_count as int));
                assert forall|y: int| 0 <= y < t + 1 && !done@[y] implies exists|l: int|
                    ready_count <= l < order@.len() && #[trigger] order@[l] == y as usize by {
                    if y == t {
                        assert(order@[order@.len() - 1] == t);
                    } else {
                        let l = choose|l: int| ready_count <= l < old_order.len() && old_order[l] == y as usize;
                        assert(order@[l] == y as usize);
                    }
                }
            }
        }
        t = t + 1;
        assert(order@ =~= prefix + left_waiting(prefix, t as nat));
    }
    proof {
        assert forall|l: int| 0 <= l < ready_count implies order@[l] == #[trigger] prefix[l] by {
            assert(order@.take(ready_count as int)[l] == order@[l]);
        }
        assert forall|m: int| 0 <= m < order@.len() implies (#[trigger] order@[m]) < n by {
            if m < ready_count {
                assert(order@[m] == prefix[m]);
            }
        }
        assert forall|m: int, l: int|
            0 <= m < order@.len() && 0 <= l < order@.len() && m != l implies #[trigger] order@[m]
                != #[trigger] order@[l] by {
            if m < ready_count && l < ready_count {
                assert(order@[m] == prefix[m]);
                assert(order@[l] == prefix[l]);
            } else if m < ready_count {
                assert(order@[m] == prefix[m]);
                assert(prefix.contains(prefix[m]));
                assert(done@[order@[m] as int]);
            } else if l < ready_count {
                assert(order@[l] == prefix[l]);
                assert(prefix.contains(prefix[l]));
                assert(done@[order@[l] as int]);
            } else if m < l {
                assert(order@[m] < order@[l]);
            } else {
                assert(order@[l] < order@[m]);
            }
        }
        assert forall|x: int| 0 <= x < n implies #[trigger] order@.contains(x as usize) by {
            if done@[x] {
                let l = choose|l: int| 0 <= l < prefix.len() && prefix[l] == x as usize;
                assert(order@[l] == x as usize);
            } else {
                let l = choose|l: int| ready_count <= l < order@.len() && #[trigger] order@[l] == x as usize;
            }
        }
        lemma_distinct_indices_len(order@, n as int);
        assert forall|l: int| 0 <= l < order@.len() implies (done@[#[trigger] order@[l] as int] <==> l < ready_count) by {
            if l < ready_count {
                assert(prefix.contains(prefix[l]));
            }
        }
        assert forall|mm: int|
            0 <= mm < ready_count implies match #[trigger] pred@[order@[mm] as int] {
                Some(p) => exists|l: int| 0 <= l < mm && order@[l] == p,
                None => true,
            } by {
            assert(order@[mm] == prefix[mm]);
            match pred@[prefix[mm] as int] {
                Some(p) => {
                    let l = choose|l: int| 0 <= l < mm && prefix[l] == p;
                    assert(order@[l] == p);
                },
                None => {},
            }
        }
    }
    let mut out: Vec<(u64, CivilianTask)> = Vec::new();
    let mut m: usize = 0;
    while m < order.len()
        invariant
            m <= order@.len(),
            out@.len() == m,
            forall|l: int| 0 <= l < m ==> out@[l] == tasks@[order@[l] as int],
            distinct_indices(order@, tasks@.len() as int),
        decreases order@.len() - m,
    {
        out.push(tasks[order[m]]);
        m = m + 1;
    }
    proof {
        lemma_emit_order(tasks@, current_positions@, pred@, done@, order@, out@, ready_count as int);
        assert(order@ == settled_order(tasks@, current_positions@) + left_waiting(
            settled_order(tasks@, current_positions@),
            tasks@.len(),
        ));
        assert(out@ =~= execution_order(tasks@, current_positions@));
    }
    out
}

/// An order the AI issues to carry out its plan.
#[derive(Clone, Copy, Debug, PartialEq, Eq, Structural)]
pub enum AiOrder {
    /// Give a civilian an order.
    Civilian { civilian: u64, order: CivilianOrderKind },
    /// Change a standing market order.
    Market(AdjustMarketOrder),
    /// Hire a civilian.
    Hire { nation: u64, kind: CivilianKind },
    /// Change a building's production.
    Production(AdjustProduction),
    /// Change the transport capacity given to a commodity.
    Transport { nation: u64, commodity: TransportCommodity, requested: u32 },
}

/// The civilian orders for tasks taken in the given order; idle civilians
/// get none.
pub open spec fn civilian_orders(tasks: Seq<(u64, CivilianTask)>) -> Seq<AiOrder>
    decreases tasks.len(),
{
    if tasks.len() == 0 {
        Seq::empty()
    } else {
        let prev = civilian_orders(tasks.drop_last());
        match task_order(tasks.last().1) {
            Some(o) => prev.push(AiOrder::Civilian { civilian: tasks.last().0, order: o }),
            None => prev,
        }
    }
}

pub open spec fn market_requests(nation: u64, items: Seq<(Good, u32)>, kind: MarketInterest) -> Seq<AiOrder>
    decreases items.len(),
{
    if items.len() == 0 {
        Seq::empty()
    } else {
        market_requests(nation, items.drop_last(), kind).push(
            AiOrder::Market(
                AdjustMarketOrder { nation, good: items.last().0, kind, requested: items.last().1 },
            ),
        )
    }
}

pub open spec fn hire_requests(nation: u64, kinds: Seq<CivilianKind>) -> Seq<AiOrder>
    decreases kinds.len(),
{
    if kinds.len() == 0 {
        Seq::empty()
    } else {
        hire_requests(nation, kinds.drop_last()).push(AiOrder::Hire { nation, kind: kinds.last() })
    }
}

pub open spec fn production_requests(nation: u64, orders: Seq<ProductionOrder>) -> Seq<AiOrder>
    decreases orders.len(),
{
    if orders.len() == 0 {
        Seq::empty()
    } else {
        let o = orders.last();
        production_requests(nation, orders.drop_last()).push(
            AiOrder::Production(
                AdjustProduction { nation, building: o.building, output_good: o.output, target_output: o.qty },
            ),
        )
    }
}

pub open spec fn transport_requests(nation: u64, items: Seq<(TransportCommodity, u32)>) -> Seq<AiOrder>
    decreases items.len(),
{
    if items.len() == 0 {
        Seq::empty()
    } else {
        transport_requests(nation, items.drop_last()).push(
            AiOrder::Transport { nation, commodity: items.last().0, requested: items.last().1 },
        )
    }
}

/// Every order of the plan: civilian orders in the given task order, then
/// purchases, sales, hires, production changes and transport allocations.
pub open spec fn plan_orders(nation: u64, plan: NationPlan, sorted: Seq<(u64, CivilianTask)>) -> Seq<AiOrder> {
    civilian_orders(sorted) + market_requests(nation, plan.market_buys@, MarketInterest::Buy)
        + market_requests(nation, plan.market_sells@, MarketInterest::Sell) + hire_requests(
        nation,
        plan.civilians_to_hire@,
    ) + production_requests(nation, plan.production_orders@) + transport_requests(
        nation,
        plan.transport_allocations@,
    )
}

/// Where each civilian of the roster stands, as (tile, civilian) entries.
pub open spec fn roster_positions(civs: Seq<CivilianSnapshot>) -> Seq<(TilePos, u64)>
    decreases civs.len(),
{
    if civs.len() == 0 {
        Seq::empty()
    } else {
        roster_positions(civs.drop_last()).push((civs.last().position, civs.last().entity))
    }
}

/// The orders that carry out `plan` for `nation`: civilians act in an order
/// where each moves only after the civilian on its destination has (see
/// `sort_civilian_tasks_topologically`), then come the market, hiring,
/// production and transport orders.
pub fn execute_plan(plan: &NationPlan, nation: &NationSnapshot) -> (orders: Vec<AiOrder>)
    requires
        distinct_civilians(plan.civilian_tasks@),
    ensures
        orders@ == plan_orders(
            nation.entity,
            *plan,
            execution_order(plan.civilian_tasks@, roster_positions(nation.civilians@)),
        ),
        exists|sorted: Seq<(u64, CivilianTask)>, ready: int|
            same_tasks(plan.civilian_tasks@, sorted) && dependency_order(
                plan.civilian_tasks@,
                roster_positions(nation.civilians@),
                sorted,
                ready,
            ) && orders@ == plan_orders(nation.entity, *plan, sorted),
{
    let e = nation.entity;
    let mut positions: Vec<(TilePos, u64)> = Vec::new();
    let mut i: usize = 0;
    while i < nation.civilians.len()
        invariant
            i <= nation.civilians@.len(),
            positions@ == roster_positions(nation.civilians@.take(i as int)),
        decreases nation.civilians@.len() - i,
    {
        assert(nation.civilians@.take(i + 1).drop_last() =~= nation.civilians@.take(i as int));
        positions.push((nation.civilians[i].position, nation.civilians[i].entity));
        i = i + 1;
    }
    assert(nation.civilians@.take(i as int) =~= nation.civilians@);
    let sorted = sort_civilian_tasks_topologically(&plan.civilian_tasks, &positions);
    let mut orders: Vec<AiOrder> = Vec::new();
    let mut k: usize = 0;
    while k < sorted.len()
        invariant
            k <= sorted@.len(),
            orders@ == civilian_orders(sorted@.take(k as int)),
        decreases sorted@.len() - k,
    {
        assert(sorted@.take(k + 1).drop_last() =~= sorted@.take(k as int));
        let (c, task) = sorted[k];
        if let Some(o) = task_to_order(&task) {
            orders.push(AiOrder::Civilian { civilian: c, order: o });
        }
        k = k + 1;
    }
    assert(sorted@.take(k as int) =~= sorted@);
    let ghost base0 = orders@;
    let mut b: usize = 0;
    while b < plan.market_buys.len()
        invariant
            b <= plan.market_buys@.len(),
            orders@ == base0 + market_requests(e, plan.market_buys@.take(b as int), MarketInterest::Buy),
        decreases plan.market_buys@.len() - b,
    {
        assert(plan.market_buys@.take(b + 1).drop_last() =~= plan.market_buys@.take(b as int));
        let (good, qty) = plan.market_buys[b];
        orders.push(AiOrder::Market(AdjustMarketOrder { nation: e, good, kind: MarketInterest::Buy, requested: qty }));
        b = b + 1;
        assert(orders@ =~= base0 + market_requests(e, plan.market_buys@.take(b as int), MarketInterest::Buy));
    }
    assert(plan.market_buys@.take(b as int) =~= plan.market_buys@);
    let ghost base1 = orders@;
    let mut s: usize = 0;
    while s < plan.market_sells.len()
        invariant
            s <= plan.market_sells@.len(),
            orders@ == base1 + market_requests(e, plan.market_sells@.take(s as int), MarketInterest::Sell),
        decreases plan.market_sells@.len() - s,
    {
        assert(plan.market_sells@.take(s + 1).drop_last() =~= plan.market_sells@.take(s as int));
        let (good, qty) = plan.market_sells[s];
        orders.push(AiOrder::Market(AdjustMarketOrder { nation: e, good, kind: MarketInterest::Sell, requested: qty }));
        s = s + 1;
        assert(orders@ =~= base1 + market_requests(e, plan.market_sells@.take(s as int), MarketInterest::Sell));
    }
    assert(plan.market_sells@.take(s as int) =~= plan.market_sells@);
    let ghost base2 = orders@;
    let mut h: usize = 0;
    while h < plan.civilians_to_hire.len()
        invariant
            h <= plan.civilians_to_hire@.len(),
            orders@ == base2 + hire_requests(e, plan.civilians_to_hire@.take(h as int)),
        decreases plan.civilians_to_hire@.len() - h,
    {
        assert(plan.civilians_to_hire@.take(h + 1).drop_last() =~= plan.civilians_to_hire@.take(h as int));
        orders.push(AiOrder::Hire { nation: e, kind: plan.civilians_to_hire[h] });
        h = h + 1;
        assert(orders@ =~= base2 + hire_requests(e, plan.civilians_to_hire@.take(h as int)));
    }
    assert(plan.civilians_to_hire@.take(h as int) =~= plan.civilians_to_hire@);
    let ghost base3 = orders@;
    let mut p: usize = 0;
    while p < plan.production_orders.len()
        invariant
            p <= plan.production_orders@.len(),
            orders@ == base3 + production_requests(e, plan.production_orders@.take(p as int)),
        decreases plan.production_orders@.len() - p,
    {
        assert(plan.production_orders@.take(p + 1).drop_last() =~= plan.production_orders@.take(p as int));
        let o = plan.production_orders[p];
        orders.push(
            AiOrder::Production(
                AdjustProduction { nation: e, building: o.building, output_good: o.output, target_output: o.qty },
            ),
        );
        p = p + 1;
        assert(orders@ =~= base3 + production_requests(e, plan.production_orders@.take(p as int)));
    }
    assert(plan.production_orders@.take(p as int) =~= plan.production_orders@);
    let ghost base4 = orders@;
    let mut t: usize = 0;
    while t < plan.transport_allocations.len()
        invariant
            t <= plan.transport_allocations@.len(),
            orders@ == base4 + transport_requests(e, plan.transport_allocations@.take(t as int)),
        decreases plan.transport_allocations@.len() - t,
    {
        assert(plan.transport_allocations@.take(t + 1).drop_last() =~= plan.transport_allocations@.take(t as int));
        let (commodity, requested) = plan.transport_allocations[t];
        orders.push(AiOrder::Transport { nation: e, commodity, requested });
        t = t + 1;
        assert(orders@ =~= base4 + transport_requests(e, plan.transport_allocations@.take(t as int)));
    }
    assert(plan.transport_allocations@.take(t as int) =~= plan.transport_allocations@);
    proof {
        let ready = choose|ready: int| dependency_order(plan.civilian_tasks@, positions@, sorted@, ready);
        assert(orders@ =~= plan_orders(e, *plan, sorted@));
        assert(same_tasks(plan.civilian_tasks@, sorted@) && dependency_order(
            plan.civilian_tasks@,
            roster_positions(nation.civilians@),
            sorted@,
            ready,
        ));
    }
    orders
}

} // verus!
