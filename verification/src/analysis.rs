//! Cycle detection over the control-flow graph.
//!
//! Before a function is evaluated, a depth-first search over its blocks,
//! tracking the current path, looks for a back-edge. [`find_loop`] returns
//! the blocks of a cycle when one is reachable from the entry block, and
//! `None` otherwise; [`lemma_find_loop_decides_cycles`] proves that this
//! search answers `Some` exactly on the graphs that have a reachable
//! cycle.

use vstd::prelude::*;
use vstd::set_lib::lemma_int_range;
use vstd::set_lib::lemma_len_subset;
use vstd::set_lib::set_int_range;

use crate::mir::Function;
use crate::mir::Terminator;

verus! {

/// The blocks a terminator can continue at.
pub open spec fn block_successors(t: Terminator) -> Seq<usize> {
    match t {
        Terminator::Return => Seq::empty(),
        Terminator::Goto(b) => seq![b.0],
        Terminator::Call(_, _, _, cont) => seq![cont.0],
        Terminator::SwitchInt(_, _, cases, default) => Seq::new(
            cases@.len() + 1,
            |i: int| if i < cases@.len() {
                cases@[i].1.0
            } else {
                default.0
            },
        ),
        Terminator::Assert(_, _, target) => seq![target.0],
    }
}

/// There is an edge from block `a` to block `b`.
pub open spec fn edge(f: Function, a: usize, b: usize) -> bool {
    a < f.blocks@.len() && block_successors(f.blocks@[a as int].terminator).contains(b)
}

/// Step `i` of `p` follows an edge.
pub open spec fn walk_step(f: Function, p: Seq<usize>, i: int) -> bool {
    edge(f, p[i], p[i + 1])
}

/// Consecutive entries of `p` are connected by edges.
pub open spec fn is_walk(f: Function, p: Seq<usize>) -> bool {
    forall|i: int| 0 <= i < p.len() - 1 ==> #[trigger] walk_step(f, p, i)
}

/// Some walk from the entry block returns to one of its earlier blocks.
pub open spec fn has_cycle(f: Function) -> bool {
    exists|p: Seq<usize>|
        p.len() >= 2 && p[0] == 0 && is_walk(f, p) && (exists|i: int|
            0 <= i < p.len() - 1 && p[i] == p.last())
}

/// The search state is sound: the path so far has no repeats and stays
/// inside the function's blocks.
pub open spec fn dfs_ok(f: Function, visited: Seq<usize>) -> bool {
    visited.no_duplicates() && (forall|i: int|
        0 <= i < visited.len() ==> visited[i] < f.blocks@.len())
}

/// A path without repeats over `n` blocks has at most `n` entries.
proof fn lemma_distinct_bounded(s: Seq<usize>, n: int)
    requires
        0 <= n,
        s.no_duplicates(),
        forall|i: int| 0 <= i < s.len() ==> s[i] < n,
    ensures
        s.len() <= n,
{
    let m = s.map_values(|v: usize| v as int);
    s.lemma_no_duplicates_injective(|v: usize| v as int);
    m.unique_seq_to_set();
    assert forall|x: int| m.to_set().contains(x) implies set_int_range(0, n).contains(x) by {
        let i = choose|i: int| 0 <= i < m.len() && m[i] == x;
        assert(s[i] < n);
    }
    lemma_int_range(0, n);
    lemma_len_subset(m.to_set(), set_int_range(0, n));
}

/// What the depth-first search decides from `block` with path `visited`:
/// `true` exactly when some walk from `block` meets the path or repeats a
/// block of its own.
pub open spec fn spec_loop_from(f: Function, block: usize, visited: Seq<usize>) -> bool
    decreases f.blocks@.len() - visited.len(), 0int,
        when dfs_ok(f, visited)
        via spec_loop_from_decreases
{
    if visited.contains(block) {
        true
    } else if block >= f.blocks@.len() {
        false
    } else {
        spec_loop_any(
            f,
            block_successors(f.blocks@[block as int].terminator),
            visited.push(block),
        )
    }
}

/// Does the search succeed from any block of `succs`?
pub open spec fn spec_loop_any(f: Function, succs: Seq<usize>, visited: Seq<usize>) -> bool
    decreases f.blocks@.len() - visited.len(), 1int,
        when dfs_ok(f, visited)
        via spec_loop_any_decreases
{
    exists|k: int| 0 <= k < succs.len() && spec_loop_from(f, succs[k], visited)
}

#[via_fn]
proof fn spec_loop_from_decreases(f: Function, block: usize, visited: Seq<usize>) {
    if dfs_ok(f, visited) && !visited.contains(block) && block < f.blocks@.len() {
        lemma_distinct_bounded(visited.push(block), f.blocks@.len() as int);
    }
}

#[via_fn]
proof fn spec_loop_any_decreases(f: Function, succs: Seq<usize>, visited: Seq<usize>) {
    lemma_distinct_bounded(visited, f.blocks@.len() as int);
}

/// The search from the entry block.
pub open spec fn spec_find_loop(f: Function) -> bool {
    spec_loop_from(f, 0, Seq::empty())
}

/// A walk witnesses trouble for the path `visited` when it meets the path
/// or repeats one of its own blocks.
pub open spec fn walk_collides(p: Seq<usize>, visited: Seq<usize>) -> bool {
    (exists|i: int| 0 <= i < p.len() && visited.contains(p[i])) || (exists|i: int, j: int|
        0 <= i < j < p.len() && p[i] == p[j])
}

/// Completeness of the search: a colliding walk from `block` forces the
/// search to answer `true`.
proof fn lemma_dfs_complete(f: Function, block: usize, visited: Seq<usize>, p: Seq<usize>)
    requires
        dfs_ok(f, visited),
        p.len() >= 1,
        p[0] == block,
        is_walk(f, p),
        walk_collides(p, visited),
    ensures
        spec_loop_from(f, block, visited),
    decreases p.len(),
{
    if visited.contains(block) {
        return ;
    }
    // The walk cannot be a lone unvisited block: a collision needs either
    // a visited entry or a repeat, and both need more of the walk.
    if p.len() == 1 {
        assert(forall|i: int| 0 <= i < p.len() ==> p[i] == block);
        assert(false);
    }
    // So the walk continues, and its first step is an edge out of `block`,
    // which therefore is a real block.
    assert(walk_step(f, p, 0));
    assert(edge(f, p[0], p[1]));
    let succs = block_successors(f.blocks@[block as int].terminator);
    let visited2 = visited.push(block);
    let q = p.subrange(1, p.len() as int);
    assert(q[0] == p[1]);
    assert forall|i: int| 0 <= i < q.len() - 1 implies #[trigger] walk_step(f, q, i) by {
        assert(walk_step(f, p, i + 1));
        assert(q[i] == p[i + 1]);
        assert(q[i + 1] == p[i + 2]);
    }
    // The tail still collides, now against the extended path.
    if exists|i: int| 0 <= i < p.len() && visited.contains(p[i]) {
        let i = choose|i: int| 0 <= i < p.len() && visited.contains(p[i]);
        assert(i >= 1);
        assert(q[i - 1] == p[i]);
        let j = choose|j: int| 0 <= j < visited.len() && visited[j] == p[i];
        assert(visited2[j] == p[i]);
        assert(visited2.contains(p[i]));
        assert(walk_collides(q, visited2));
    } else {
        let (i, j) = choose|i: int, j: int| 0 <= i < j < p.len() && p[i] == p[j];
        if i >= 1 {
            assert(q[i - 1] == p[i] && q[j - 1] == p[j]);
            assert(0 <= i - 1 < j - 1 < q.len() && q[i - 1] == q[j - 1]);
            assert(walk_collides(q, visited2));
        } else {
            // The repeat returns to `block` itself, which the extended
            // path now holds.
            assert(q[j - 1] == p[j]);
            assert(visited2.last() == block);
            assert(visited2.contains(p[j]));
            assert(walk_collides(q, visited2));
        }
    }
    assert(dfs_ok(f, visited2)) by {
        assert forall|i: int| 0 <= i < visited2.len() implies visited2[i] < f.blocks@.len() by {
            if i < visited.len() {
                assert(visited[i] < f.blocks@.len());
            }
        }
    }
    lemma_dfs_complete(f, p[1], visited2, q);
    let k = choose|k: int| 0 <= k < succs.len() && succs[k] == p[1];
    assert(spec_loop_from(f, succs[k], visited2));
    assert(spec_loop_any(f, succs, visited2));
}

/// The path so far is a real walk from the entry block to `block`.
pub open spec fn dfs_pre(f: Function, block: usize, visited: Seq<usize>) -> bool {
    if visited.len() == 0 {
        block == 0
    } else {
        visited[0] == 0 && is_walk(f, visited) && edge(f, visited.last(), block)
    }
}

/// Soundness of the search: an answer of `true` on a real walk exhibits a
/// reachable cycle.
proof fn lemma_dfs_sound(f: Function, block: usize, visited: Seq<usize>)
    requires
        dfs_ok(f, visited),
        dfs_pre(f, block, visited),
        spec_loop_from(f, block, visited),
    ensures
        has_cycle(f),
    decreases f.blocks@.len() - visited.len(),
{
    lemma_distinct_bounded(visited, f.blocks@.len() as int);
    if visited.contains(block) {
        let p = visited.push(block);
        let i = choose|i: int| 0 <= i < visited.len() && visited[i] == block;
        assert forall|m: int| 0 <= m < p.len() - 1 implies #[trigger] walk_step(f, p, m) by {
            if m < visited.len() - 1 {
                assert(walk_step(f, visited, m));
                assert(p[m] == visited[m] && p[m + 1] == visited[m + 1]);
            } else {
                assert(p[m] == visited.last() && p[m + 1] == block);
            }
        }
        assert(p.len() >= 2 && p[0] == 0 && is_walk(f, p));
        assert(0 <= i < p.len() - 1 && p[i] == p.last());
        assert(has_cycle(f));
    } else if block >= f.blocks@.len() {
        // The search answers false on a missing block, against the premise.
        assert(false);
    } else {
        let succs = block_successors(f.blocks@[block as int].terminator);
        let visited2 = visited.push(block);
        let k = choose|k: int| 0 <= k < succs.len() && spec_loop_from(f, succs[k], visited2);
        assert(dfs_ok(f, visited2)) by {
            assert forall|i: int| 0 <= i < visited2.len() implies visited2[i]
                < f.blocks@.len() by {
                if i < visited.len() {
                    assert(visited[i] < f.blocks@.len());
                }
            }
        }
        assert(dfs_pre(f, succs[k], visited2)) by {
            assert(visited2[0] == 0);
            assert forall|m: int| 0 <= m < visited2.len() - 1 implies #[trigger] walk_step(
                f,
                visited2,
                m,
            ) by {
                if m < visited.len() - 1 {
                    assert(walk_step(f, visited, m));
                    assert(visited2[m] == visited[m] && visited2[m + 1] == visited[m + 1]);
                } else {
                    assert(visited2[m] == visited.last() && visited2[m + 1] == block);
                }
            }
            assert(edge(f, block, succs[k]));
        }
        lemma_distinct_bounded(visited2, f.blocks@.len() as int);
        lemma_dfs_sound(f, succs[k], visited2);
    }
}

/// Extending a sound search state by an unvisited block keeps it sound.
proof fn lemma_push_ok(f: Function, block: usize, visited: Seq<usize>)
    requires
        dfs_ok(f, visited),
        !visited.contains(block),
        block < f.blocks@.len(),
    ensures
        dfs_ok(f, visited.push(block)),
{
    let v2 = visited.push(block);
    assert forall|i: int, j: int| 0 <= i < v2.len() && 0 <= j < v2.len() && i != j implies v2[i]
        != v2[j] by {
        if i < visited.len() && j < visited.len() {
            assert(visited[i] == v2[i] && visited[j] == v2[j]);
        }
    }
    assert forall|i: int| 0 <= i < v2.len() implies v2[i] < f.blocks@.len() by {
        if i < visited.len() {
            assert(visited[i] < f.blocks@.len());
        }
    }
}

/// Stepping the search to a successor keeps the path a real walk.
proof fn lemma_push_pre(f: Function, block: usize, visited: Seq<usize>, next: usize)
    requires
        dfs_pre(f, block, visited),
        block < f.blocks@.len(),
        block_successors(f.blocks@[block as int].terminator).contains(next),
    ensures
        dfs_pre(f, next, visited.push(block)),
{
    let v2 = visited.push(block);
    assert(v2[0] == 0);
    assert forall|m: int| 0 <= m < v2.len() - 1 implies #[trigger] walk_step(f, v2, m) by {
        if m < visited.len() - 1 {
            assert(walk_step(f, visited, m));
            assert(v2[m] == visited[m] && v2[m + 1] == visited[m + 1]);
        } else {
            assert(v2[m] == visited.last() && v2[m + 1] == block);
        }
    }
    assert(v2.last() == block);
    assert(edge(f, block, next));
}

/// The depth-first search itself. The path `visited` is what the search
/// walked so far; a hit hands back the blocks of the detected cycle.
#[verifier::loop_isolation(false)]
fn loop_from(f: &Function, block: usize, visited: Vec<usize>) -> (r: Option<Vec<usize>>)
    requires
        dfs_ok(*f, visited@),
        dfs_pre(*f, block, visited@),
    ensures
        (r is Some) == spec_loop_from(*f, block, visited@),
        r matches Some(c) ==> c@.len() >= 1 && is_walk(*f, c@) && edge(*f, c@.last(), c@[0]),
    decreases f.blocks@.len() - visited@.len(),
{
    let mut i: usize = 0;
    while i < visited.len()
        invariant
            i <= visited@.len(),
            forall|j: int| 0 <= j < i ==> visited@[j] != block,
        decreases visited@.len() - i,
    {
        if visited[i] == block {
            let mut v = visited;
            let c = v.split_off(i);
            proof {
                assert(visited@.contains(block));
                assert(c@ =~= visited@.subrange(i as int, visited@.len() as int));
                assert forall|m: int| 0 <= m < c@.len() - 1 implies #[trigger] walk_step(
                    *f,
                    c@,
                    m,
                ) by {
                    assert(walk_step(*f, visited@, m + i));
                    assert(c@[m] == visited@[m + i] && c@[m + 1] == visited@[m + i + 1]);
                }
                assert(c@[0] == block);
                assert(c@.last() == visited@.last());
            }
            return Some(c);
        }
        i = i + 1;
    }
    proof {
        assert(!visited@.contains(block));
    }
    if block >= f.blocks.len() {
        return None;
    }
    let ghost vis0 = visited@;
    let ghost succs = block_successors(f.blocks@[block as int].terminator);
    let mut v2 = visited;
    v2.push(block);
    proof {
        lemma_push_ok(*f, block, vis0);
        lemma_distinct_bounded(v2@, f.blocks@.len() as int);
    }
    let blk = &f.blocks[block];
    match &blk.terminator {
        Terminator::Return => {
            proof {
                assert(succs.len() == 0);
                assert(!spec_loop_any(*f, succs, v2@));
            }
            None
        },
        Terminator::Goto(b) => {
            proof {
                assert(succs[0] == b.0);
                assert(succs.contains(b.0));
                lemma_push_pre(*f, block, vis0, b.0);
            }
            let r = loop_from(f, b.0, v2);
            proof {
                if spec_loop_any(*f, succs, v2@) {
                    let k = choose|k: int|
                        0 <= k < succs.len() && spec_loop_from(*f, succs[k], v2@);
                    assert(k == 0);
                }
            }
            r
        },
        Terminator::Call(_, _, _, cont) => {
            proof {
                assert(succs[0] == cont.0);
                assert(succs.contains(cont.0));
                lemma_push_pre(*f, block, vis0, cont.0);
            }
            let r = loop_from(f, cont.0, v2);
            proof {
                if spec_loop_any(*f, succs, v2@) {
                    let k = choose|k: int|
                        0 <= k < succs.len() && spec_loop_from(*f, succs[k], v2@);
                    assert(k == 0);
                }
            }
            r
        },
        Terminator::Assert(_, _, target) => {
            proof {
                assert(succs[0] == target.0);
                assert(succs.contains(target.0));
                lemma_push_pre(*f, block, vis0, target.0);
            }
            let r = loop_from(f, target.0, v2);
            proof {
                if spec_loop_any(*f, succs, v2@) {
                    let k = choose|k: int|
                        0 <= k < succs.len() && spec_loop_from(*f, succs[k], v2@);
                    assert(k == 0);
                }
            }
            r
        },
        Terminator::SwitchInt(_, _, cases, default) => {
            let mut k: usize = 0;
            while k < cases.len()
                invariant
                    k <= cases@.len(),
                    forall|j: int| 0 <= j < k ==> !spec_loop_from(*f, succs[j], v2@),
                decreases cases@.len() - k,
            {
                proof {
                    assert(succs[k as int] == cases@[k as int].1.0);
                    assert(succs.contains(cases@[k as int].1.0));
                    lemma_push_pre(*f, block, vis0, cases[k as int].1.0);
                }
                let vc = copy_path(&v2);
                let r = loop_from(f, cases[k].1.0, vc);
                if r.is_some() {
                    proof {
                        assert(spec_loop_from(*f, succs[k as int], v2@));
                        assert(spec_loop_any(*f, succs, v2@));
                    }
                    return r;
                }
                k = k + 1;
            }
            proof {
                assert(succs[cases@.len() as int] == default.0);
                assert(succs.contains(default.0));
                lemma_push_pre(*f, block, vis0, default.0);
            }
            let r = loop_from(f, default.0, v2);
            proof {
                if r is None {
                    assert forall|j: int| 0 <= j < succs.len() implies !spec_loop_from(
                        *f,
                        succs[j],
                        v2@,
                    ) by {
                        if j < cases@.len() {
                            assert(!spec_loop_from(*f, succs[j], v2@));
                        } else {
                            assert(succs[j] == default.0);
                        }
                    }
                    assert(!spec_loop_any(*f, succs, v2@));
                } else {
                    assert(spec_loop_from(*f, succs[cases@.len() as int], v2@));
                    assert(spec_loop_any(*f, succs, v2@));
                }
            }
            r
        },
    }
}

/// A copy of the search path, so sibling branches explore independently.
#[verifier::loop_isolation(false)]
fn copy_path(v: &Vec<usize>) -> (r: Vec<usize>)
    ensures
        r@ == v@,
{
    let mut out: Vec<usize> = Vec::new();
    let mut i: usize = 0;
    while i < v.len()
        invariant
            i <= v@.len(),
            out@ == v@.take(i as int),
        decreases v@.len() - i,
    {
        out.push(v[i]);
        proof {
            assert(out@ =~= v@.take(i + 1));
        }
        i = i + 1;
    }
    proof {
        assert(v@.take(v@.len() as int) =~= v@);
    }
    out
}

/// Search the whole graph: the blocks of a cycle reachable from the entry
/// block, or `None` when every walk from the entry is loop-free.
pub fn find_loop(f: &Function) -> (r: Option<Vec<usize>>)
    ensures
        (r is Some) == has_cycle(*f),
        r matches Some(c) ==> c@.len() >= 1 && is_walk(*f, c@) && edge(*f, c@.last(), c@[0]),
{
    proof {
        lemma_find_loop_decides_cycles(*f);
        assert(Seq::<usize>::empty().no_duplicates());
    }
    loop_from(f, 0, Vec::new())
}

/// The search from the entry block answers `true` exactly on the graphs
/// with a reachable cycle.
pub proof fn lemma_find_loop_decides_cycles(f: Function)
    ensures
        spec_find_loop(f) <==> has_cycle(f),
{
    if spec_find_loop(f) {
        lemma_dfs_sound(f, 0, Seq::empty());
    }
    if has_cycle(f) {
        let p = choose|p: Seq<usize>|
            p.len() >= 2 && p[0] == 0 && is_walk(f, p) && (exists|i: int|
                0 <= i < p.len() - 1 && p[i] == p.last());
        let i = choose|i: int| 0 <= i < p.len() - 1 && p[i] == p.last();
        assert(0 <= i < p.len() - 1 < p.len() && p[i] == p[p.len() - 1]);
        assert(walk_collides(p, Seq::empty()));
        lemma_dfs_complete(f, 0, Seq::empty(), p);
    }
}

} // verus!
