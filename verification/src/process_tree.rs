//! Which processes belong together: parents, children and everything below a
//! set of root processes.

use vstd::prelude::*;
use crate::table::Table;

verus! {

/// Whether a list holds a process id.
pub fn lists_pid(pids: &[u32], pid: u32) -> (yes: bool)
    ensures
        yes == pids@.contains(pid),
{
    for i in 0..pids.len()
        invariant
            forall|j: int| 0 <= j < i ==> pids@[j] != pid,
    {
        if pids[i] == pid {
            return true;
        }
    }
    false
}

/// Adds a process id to a list that holds no id twice.
pub fn include_pid(pids: &mut Vec<u32>, pid: u32) -> (added: bool)
    requires
        old(pids)@.no_duplicates(),
    ensures
        final(pids)@.no_duplicates(),
        final(pids)@.to_set() == old(pids)@.to_set().insert(pid),
        added == !old(pids)@.contains(pid),
        final(pids)@ == (if added {
            old(pids)@.push(pid)
        } else {
            old(pids)@
        }),
{
    let ghost before = pids@;
    if lists_pid(pids.as_slice(), pid) {
        assert(before.to_set() =~= before.to_set().insert(pid));
        false
    } else {
        pids.push(pid);
        proof {
            lemma_push_set(before, pid);
        }
        true
    }
}

pub proof fn lemma_push_set(s: Seq<u32>, pid: u32)
    ensures
        s.push(pid).to_set() == s.to_set().insert(pid),
{
    let now = s.push(pid);
    assert(now.to_set() =~= s.to_set().insert(pid)) by {
        assert forall|x: u32| now.to_set().contains(x) == s.to_set().insert(pid).contains(x) by {
            if s.contains(x) {
                let i = choose|i: int| 0 <= i < s.len() && s[i] == x;
                assert(now[i] == x);
            }
            if now.contains(x) && x != pid {
                let i = choose|i: int| 0 <= i < now.len() && now[i] == x;
                assert(s[i] == x);
            }
            assert(now[s.len() as int] == pid);
        }
    }
}

/// `child` is listed as a child of `parent`.
pub open spec fn is_child(children: Map<u32, Vec<u32>>, parent: u32, child: u32) -> bool {
    children.contains_key(parent) && children[parent]@.contains(child)
}

/// A line of descent: each process is listed as a child of the one before it.
pub open spec fn is_descent(children: Map<u32, Vec<u32>>, line: Seq<u32>) -> bool {
    &&& line.len() > 0
    &&& forall|i: int|
        0 <= i < line.len() - 1 ==> is_child(children, #[trigger] line[i], line[i + 1])
}

/// `pid` is one of the roots or stands below one of them. There is no process
/// with the number zero, so a root zero counts for nothing.
pub open spec fn descends(children: Map<u32, Vec<u32>>, roots: Set<u32>, pid: u32) -> bool {
    exists|line: Seq<u32>| #[trigger]
        is_descent(children, line) && roots.contains(line[0]) && line[0] > 0 && line.last() == pid
}

proof fn lemma_descends_step(children: Map<u32, Vec<u32>>, roots: Set<u32>, parent: u32, child: u32)
    requires
        descends(children, roots, parent),
        is_child(children, parent, child),
    ensures
        descends(children, roots, child),
{
    let line = choose|line: Seq<u32>| #[trigger]
        is_descent(children, line) && roots.contains(line[0]) && line[0] > 0 && line.last()
            == parent;
    let longer = line.push(child);
    assert forall|i: int| 0 <= i < longer.len() - 1 implies is_child(
        children,
        #[trigger] longer[i],
        longer[i + 1],
    ) by {
        if i < line.len() - 1 {
            assert(longer[i] == line[i] && longer[i + 1] == line[i + 1]);
        }
    }
    assert(is_descent(children, longer));
}

/// A set of processes that holds the roots and every child of its members holds
/// everything below the roots.
proof fn lemma_closed_holds_descent(children: Map<u32, Vec<u32>>, closed: Seq<u32>, line: Seq<u32>)
    requires
        is_descent(children, line),
        closed.contains(line[0]),
        forall|p: u32, c: u32|
            #![trigger is_child(children, p, c)]
            closed.contains(p) && is_child(children, p, c) ==> closed.contains(c),
    ensures
        closed.contains(line.last()),
    decreases line.len(),
{
    if line.len() > 1 {
        let shorter = line.drop_last();
        assert forall|i: int| 0 <= i < shorter.len() - 1 implies is_child(
            children,
            #[trigger] shorter[i],
            shorter[i + 1],
        ) by {
            assert(shorter[i] == line[i] && shorter[i + 1] == line[i + 1]);
        }
        lemma_closed_holds_descent(children, closed, shorter);
        let i = line.len() - 2;
        assert(line[i] == shorter.last());
        assert(is_child(children, line[i], line[i + 1]));
    }
}

/// There are no more different process ids than the type can count.
proof fn lemma_distinct_pids(pids: Seq<u32>)
    requires
        pids.no_duplicates(),
    ensures
        pids.len() <= 0x1_0000_0000,
{
    let f = |p: u32| p as int;
    let numbers = pids.map_values(f);
    assert(numbers.no_duplicates()) by {
        assert forall|i: int, j: int|
            0 <= i < numbers.len() && 0 <= j < numbers.len() && i != j implies numbers[i]
            != numbers[j] by {
            assert(pids[i] != pids[j]);
        }
    }
    numbers.unique_seq_to_set();
    let all = vstd::set_lib::set_int_range(0, 0x1_0000_0000);
    vstd::set_lib::lemma_int_range(0, 0x1_0000_0000);
    assert(numbers.to_set().subset_of(all)) by {
        assert forall|n: int| numbers.to_set().contains(n) implies all.contains(n) by {
            let i = choose|i: int| 0 <= i < numbers.len() && numbers[i] == n;
            assert(numbers[i] == pids[i] as int);
        }
    }
    vstd::set_lib::lemma_len_subset(numbers.to_set(), all);
}

/// All processes at or below the roots, each once.
pub fn descendants(roots: &[u32], children: &Table<u32, Vec<u32>>) -> (included: Vec<u32>)
    requires
        children.wf(),
    ensures
        included@.no_duplicates(),
        forall|pid: u32|
            #![trigger included@.contains(pid)]
            included@.contains(pid) == descends(children@, roots@.to_set(), pid),
{
    let ghost edges = children@;
    let ghost starts = roots@.to_set();
    let mut pending: Vec<u32> = Vec::new();
    for i in 0..roots.len()
        invariant
            edges == children@,
            starts == roots@.to_set(),
            forall|k: int| 0 <= k < pending@.len() ==> descends(edges, starts, #[trigger] pending@[k]),
            forall|k: int| 0 <= k < i && roots@[k] > 0 ==> pending@.contains(#[trigger] roots@[k]),
    {
        let root = roots[i];
        let ghost before = pending@;
        if root > 0 {
            pending.push(root);
            proof {
                let line = seq![root];
                assert(roots@.contains(root)) by {
                    assert(roots@[i as int] == root);
                }
                assert(is_descent(edges, line) && starts.contains(line[0]) && line.last() == root);
                assert forall|k: int| 0 <= k < i + 1 && roots@[k] > 0 implies pending@.contains(
                    #[trigger] roots@[k],
                ) by {
                    if k < i {
                        let n = choose|n: int| 0 <= n < before.len() && before[n] == roots@[k];
                        assert(pending@[n] == roots@[k]);
                    } else {
                        assert(pending@[before.len() as int] == root);
                    }
                }
            }
        }
    }
    let mut included: Vec<u32> = Vec::new();
    while pending.len() > 0
        invariant
            children.wf(),
            edges == children@,
            starts == roots@.to_set(),
            included@.no_duplicates(),
            included@.len() <= 0x1_0000_0000,
            forall|k: int| 0 <= k < pending@.len() ==> descends(edges, starts, #[trigger] pending@[k]),
            forall|k: int|
                0 <= k < included@.len() ==> descends(edges, starts, #[trigger] included@[k]),
            forall|r: u32|
                #![trigger starts.contains(r)]
                starts.contains(r) && r > 0 ==> pending@.contains(r) || included@.contains(r),
            forall|p: u32, c: u32|
                #![trigger is_child(edges, p, c)]
                included@.contains(p) && is_child(edges, p, c) ==> pending@.contains(c)
                    || included@.contains(c),
        decreases 0x1_0000_0000 - included@.len(), pending@.len(),
    {
        let ghost pending0 = pending@;
        let ghost included0 = included@;
        let pid = pending.pop().unwrap();
        let ghost pending1 = pending@;
        proof {
            assert(pending0[pending0.len() - 1] == pid);
            assert forall|x: u32| pending0.contains(x) implies pending1.contains(x) || x == pid by {
                let n = choose|n: int| 0 <= n < pending0.len() && pending0[n] == x;
                if n < pending1.len() {
                    assert(pending1[n] == x);
                }
            }
            assert forall|k: int| 0 <= k < pending1.len() implies descends(
                edges,
                starts,
                #[trigger] pending1[k],
            ) by {
                assert(pending1[k] == pending0[k]);
            }
        }
        let added = include_pid(&mut included, pid);
        proof {
            lemma_distinct_pids(included@);
            assert forall|x: u32| included0.contains(x) implies included@.contains(x) by {
                let n = choose|n: int| 0 <= n < included0.len() && included0[n] == x;
                assert(included@[n] == x);
            }
            assert(included@.contains(pid)) by {
                if added {
                    assert(included@[included0.len() as int] == pid);
                }
            }
            assert forall|k: int| 0 <= k < included@.len() implies descends(
                edges,
                starts,
                #[trigger] included@[k],
            ) by {
                if k < included0.len() {
                    assert(included@[k] == included0[k]);
                }
            }
        }
        if added {
            if let Some(list) = children.get(&pid) {
                for i in 0..list.len()
                    invariant
                        edges.contains_key(pid),
                        edges[pid] == *list,
                        descends(edges, starts, pid),
                        forall|k: int|
                            0 <= k < pending@.len() ==> descends(
                                edges,
                                starts,
                                #[trigger] pending@[k],
                            ),
                        forall|x: u32| #![trigger pending1.contains(x)] pending1.contains(x) ==> pending@.contains(x),
                        forall|k: int| 0 <= k < i ==> pending@.contains(#[trigger] list@[k]),
                {
                    let child = list[i];
                    let ghost earlier = pending@;
                    pending.push(child);
                    proof {
                        assert(list@.contains(child)) by {
                            assert(list@[i as int] == child);
                        }
                        lemma_descends_step(edges, starts, pid, child);
                        assert forall|x: u32| earlier.contains(x) implies pending@.contains(x) by {
                            let n = choose|n: int| 0 <= n < earlier.len() && earlier[n] == x;
                            assert(pending@[n] == x);
                        }
                        assert(pending@[earlier.len() as int] == child);
                        assert forall|k: int| 0 <= k < pending@.len() implies descends(
                            edges,
                            starts,
                            #[trigger] pending@[k],
                        ) by {
                            if k < earlier.len() {
                                assert(pending@[k] == earlier[k]);
                            }
                        }
                        assert forall|x: u32| pending1.contains(x) implies pending@.contains(x) by {
                            assert(earlier.contains(x));
                        }
                        assert forall|k: int| 0 <= k < i + 1 implies pending@.contains(
                            #[trigger] list@[k],
                        ) by {
                            if k < i {
                                assert(earlier.contains(list@[k]));
                            }
                        }
                    }
                }
                assert forall|c: u32| is_child(edges, pid, c) implies pending@.contains(c) by {
                    let n = choose|n: int| 0 <= n < list@.len() && list@[n] == c;
                    assert(pending@.contains(list@[n]));
                }
            }
            assert forall|c: u32| is_child(edges, pid, c) implies pending@.contains(c) by {}
        }
        proof {
            assert forall|p: u32, c: u32|
                #![trigger is_child(edges, p, c)]
                included@.contains(p) && is_child(edges, p, c) implies pending@.contains(c)
                || included@.contains(c) by {
                if included0.contains(p) {
                    assert(pending0.contains(c) || included0.contains(c));
                } else {
                    let n = choose|n: int| 0 <= n < included@.len() && included@[n] == p;
                    assert(n >= included0.len() as int) by {
                        if n < included0.len() {
                            assert(included0[n] == p);
                        }
                    }
                    assert(p == pid);
                }
            }
            assert forall|r: u32|
                #![trigger starts.contains(r)]
                starts.contains(r) && r > 0 implies pending@.contains(r) || included@.contains(r) by {
                assert(pending0.contains(r) || included0.contains(r));
            }
        }
    }
    proof {
        assert forall|pid: u32|
            #![trigger included@.contains(pid)]
            included@.contains(pid) == descends(edges, starts, pid) by {
            if included@.contains(pid) {
                let n = choose|n: int| 0 <= n < included@.len() && included@[n] == pid;
                assert(descends(edges, starts, included@[n]));
            }
            if descends(edges, starts, pid) {
                let line = choose|line: Seq<u32>| #[trigger]
                    is_descent(edges, line) && starts.contains(line[0]) && line[0] > 0
                        && line.last() == pid;
                lemma_closed_holds_descent(edges, included@, line);
            }
        }
    }
    included
}

} // verus!
