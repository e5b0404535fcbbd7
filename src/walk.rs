//! The control-flow walker: finds a function's sequences from its entry with
//! an explicit work-list, each marked once.
use vstd::prelude::*;
use crate::ir::{children, Instr, LocalFunction};

verus! {

/// `r` marks the entry, and with every marked sequence each sequence that
/// one of its instructions owns.
pub open spec fn closed(f: LocalFunction, r: Seq<bool>) -> bool {
    &&& r.len() == f.seqs.len()
    &&& r[f.entry as int]
    &&& forall|i: int| 0 <= i < r.len() && r[i] ==> #[trigger] owned_marked(f, r, i)
}

/// Every sequence owned by an instruction of sequence `i` is marked in `r`.
pub open spec fn owned_marked(f: LocalFunction, r: Seq<bool>, i: int) -> bool {
    forall|k: int, c: int|
        0 <= k < f.seqs[i].instrs.len() && 0 <= c < children(f.seqs[i].instrs[k]).len()
            ==> r[#[trigger] children(f.seqs[i].instrs[k])[c] as int]
}

/// An instruction of sequence `j` owns sequence `i`.
pub open spec fn owns(f: LocalFunction, j: int, i: int) -> bool {
    exists|k: int, c: int|
        0 <= k < f.seqs[j].instrs.len() && 0 <= c < children(f.seqs[j].instrs[k]).len()
            && #[trigger] children(f.seqs[j].instrs[k])[c] == i
}

/// `p` is a path down the nesting tree from the entry: each sequence on it
/// owns the next.
pub open spec fn is_path(f: LocalFunction, p: Seq<int>) -> bool {
    &&& p.len() > 0
    &&& p[0] == f.entry
    &&& forall|k: int| 0 <= k < p.len() ==> 0 <= #[trigger] p[k] < f.seqs.len()
    &&& forall|k: int| 0 <= k < p.len() - 1 ==> #[trigger] owns(f, p[k], p[k + 1])
}

/// Sequence `i` lies in the nesting tree below the entry.
pub open spec fn reachable(f: LocalFunction, i: int) -> bool {
    exists|p: Seq<int>| #[trigger] is_path(f, p) && p.last() == i
}

/// A closed marking marks every sequence on a path.
pub proof fn lemma_closed_covers_path(f: LocalFunction, r: Seq<bool>, p: Seq<int>, k: int)
    requires
        closed(f, r),
        is_path(f, p),
        0 <= k < p.len(),
    ensures
        r[p[k]],
    decreases k,
{
    if k > 0 {
        lemma_closed_covers_path(f, r, p, k - 1);
        let j = p[k - 1];
        assert(owns(f, p[k - 1], p[(k - 1) + 1]));
        assert(p[(k - 1) + 1] == p[k]);
        let (a, c) = choose|a: int, c: int|
            0 <= a < f.seqs[j].instrs.len() && 0 <= c < children(f.seqs[j].instrs[a]).len()
                && #[trigger] children(f.seqs[j].instrs[a])[c] == p[k];
        assert(0 <= p[k - 1] < f.seqs.len());
        assert(owned_marked(f, r, j));
        assert(r[children(f.seqs[j].instrs[a])[c] as int]);
    }
}

/// How many entries of `v` are still unmarked.
pub open spec fn unmarked(v: Seq<bool>) -> nat
    decreases v.len(),
{
    if v.len() == 0 {
        0
    } else {
        unmarked(v.drop_last()) + if v.last() { 0nat } else { 1nat }
    }
}

proof fn lemma_unmarked_update(v: Seq<bool>, i: int)
    requires
        0 <= i < v.len(),
    ensures
        unmarked(v.update(i, true)) + (if v[i] { 0nat } else { 1nat }) == unmarked(v),
    decreases v.len(),
{
    if i == v.len() - 1 {
        assert(v.update(i, true).drop_last() =~= v.drop_last());
    } else {
        assert(v.update(i, true).drop_last() =~= v.drop_last().update(i, true));
        lemma_unmarked_update(v.drop_last(), i);
    }
}

/// Marks `id`, and puts it on the work-list if it was not marked before.
fn mark(marks: &mut Vec<bool>, stack: &mut Vec<usize>, id: usize)
    requires
        id < old(marks).len(),
    ensures
        final(marks)@ == old(marks)@.update(id as int, true),
        final(stack)@ == if old(marks)@[id as int] { old(stack)@ } else { old(stack)@.push(id) },
        unmarked(final(marks)@) + (if old(marks)@[id as int] { 0nat } else { 1nat }) == unmarked(old(marks)@),
{
    proof {
        lemma_unmarked_update(marks@, id as int);
    }
    if !marks[id] {
        marks.set(id, true);
        stack.push(id);
    } else {
        assert(marks@.update(id as int, true) =~= marks@);
    }
}

/// Walks the nesting tree of `f` from its entry with a work-list, and returns
/// which sequences it reached: exactly those reachable from the entry, a
/// marking that holds the entry and, with each sequence, those it owns.
pub fn reachable_seqs(f: &LocalFunction) -> (r: Vec<bool>)
    requires
        f.wf(),
    ensures
        closed(*f, r@),
        forall|i: int| 0 <= i < f.seqs.len() ==> (r@[i] <==> reachable(*f, i)),
{
    let n = f.seqs.len();
    let mut marks: Vec<bool> = Vec::new();
    let mut i: usize = 0;
    while i < n
        invariant
            i <= n,
            marks@.len() == i,
            forall|j: int| 0 <= j < i ==> !marks@[j],
        decreases n - i,
    {
        marks.push(false);
        i = i + 1;
    }
    let mut stack: Vec<usize> = Vec::new();
    let ghost blank = marks@;
    mark(&mut marks, &mut stack, f.entry);
    proof {
        assert forall|i: int|
            0 <= i < n && marks@[i] && !stack@.contains(i as usize)
                implies #[trigger] owned_marked(*f, marks@, i) by {
            if i != f.entry {
                assert(!blank[i]);
            }
            assert(stack@[0] == f.entry);
        }
        assert forall|i: int| 0 <= i < n && #[trigger] marks@[i] implies reachable(*f, i) by {
            if i != f.entry {
                assert(!blank[i]);
            }
            let p = seq![f.entry as int];
            assert(is_path(*f, p) && p.last() == i);
        }
    }
    while stack.len() > 0
        invariant
            f.wf(),
            n == f.seqs.len(),
            marks@.len() == n,
            marks@[f.entry as int],
            forall|i: int| 0 <= i < n && #[trigger] marks@[i] ==> reachable(*f, i),
            forall|j: int| 0 <= j < stack@.len() ==> #[trigger] stack@[j] < n && marks@[stack@[j] as int],
            forall|i: int|
                0 <= i < n && marks@[i] && !stack@.contains(i as usize) ==> #[trigger] owned_marked(*f, marks@, i),
        decreases unmarked(marks@), stack.len(),
    {
        let ghost stack0 = stack@;
        let x = stack.pop().unwrap();
        proof {
            assert(stack0 =~= stack@.push(x));
            assert(stack0[stack0.len() - 1] == x);
        }
        let ghost u0 = unmarked(marks@);
        let ghost l0 = stack.len();
        let ghost marks0 = marks@;
        assert(marks@[x as int]);
        assert(reachable(*f, x as int));
        let ghost px = choose|p: Seq<int>| #[trigger] is_path(*f, p) && p.last() == x;
        let instrs = &f.seqs[x].instrs;
        let mut k: usize = 0;
        while k < instrs.len()
            invariant
                f.wf(),
                n == f.seqs.len(),
                x < n,
                instrs == f.seqs[x as int].instrs,
                k <= instrs.len(),
                marks@.len() == n,
                marks@[f.entry as int],
                marks@[x as int],
                is_path(*f, px),
                px.last() == x,
                forall|i: int| 0 <= i < n && #[trigger] marks@[i] ==> reachable(*f, i),
                marks0.len() == n,
                forall|j: int| 0 <= j < n && marks0[j] ==> marks@[j],
                forall|j: int| 0 <= j < stack@.len() ==> #[trigger] stack@[j] < n && marks@[stack@[j] as int],
                forall|i: int|
                    0 <= i < n && marks@[i] && !stack@.contains(i as usize) && i != x
                        ==> #[trigger] owned_marked(*f, marks@, i),
                forall|k2: int, c: int|
                    0 <= k2 < k && 0 <= c < children(instrs@[k2]).len()
                        ==> marks@[#[trigger] children(instrs@[k2])[c] as int],
                stack@.len() >= l0,
                unmarked(marks@) + (stack@.len() - l0) == u0,
            decreases instrs.len() - k,
        {
            let ghost marks1 = marks@;
            let ghost stack1 = stack@;
            assert(crate::ir::children_below(f.seqs[x as int].instrs@, n as nat));
            assert(children(instrs@[k as int]).len() > 0 ==> children(instrs@[k as int])[0] < n);
            match instrs[k] {
                Instr::Block { seq } | Instr::Loop { seq } => {
                    mark(&mut marks, &mut stack, seq);
                },
                Instr::IfElse { consequent, alternative } => {
                    assert(children(instrs@[k as int])[1] < n);
                    mark(&mut marks, &mut stack, consequent);
                    mark(&mut marks, &mut stack, alternative);
                },
                _ => {},
            }
            proof {
                assert forall|i: int| 0 <= i < n && #[trigger] marks@[i] implies reachable(*f, i) by {
                    if !marks1[i] {
                        let c: int = if children(instrs@[k as int])[0] == i { 0 } else { 1 };
                        assert(children(instrs@[k as int])[c] == i);
                        assert(owns(*f, x as int, i));
                        let q = px.push(i);
                        assert forall|m: int| 0 <= m < q.len() implies 0 <= #[trigger] q[m] < f.seqs.len() by {
                            if m < px.len() {
                                assert(q[m] == px[m]);
                            }
                        }
                        assert forall|m: int| 0 <= m < q.len() - 1 implies #[trigger] owns(*f, q[m], q[m + 1]) by {
                            if m < px.len() - 1 {
                                assert(q[m] == px[m] && q[m + 1] == px[m + 1]);
                            }
                        }
                        assert(is_path(*f, q) && q.last() == i);
                    }
                }
                assert forall|i: int|
                    0 <= i < n && marks@[i] && !stack@.contains(i as usize) && i != x
                        implies #[trigger] owned_marked(*f, marks@, i) by {
                    assert(marks1[i]) by {
                        if !marks1[i] {
                            assert(stack@[stack@.len() - 1] == i || stack@[stack@.len() - 2] == i);
                        }
                    }
                    if stack1.contains(i as usize) {
                        let j = choose|j: int| 0 <= j < stack1.len() && stack1[j] == i as usize;
                        assert(stack@[j] == i as usize);
                    }
                    assert(owned_marked(*f, marks1, i));
                }
            }
            k = k + 1;
        }
        proof {
            assert(owned_marked(*f, marks@, x as int));
            assert forall|i: int|
                0 <= i < n && marks@[i] && !stack@.contains(i as usize)
                    implies #[trigger] owned_marked(*f, marks@, i) by {
                if i != x {
                }
            }
        }
    }
    proof {
        assert forall|i: int| 0 <= i < n && reachable(*f, i) implies marks@[i] by {
            let p = choose|p: Seq<int>| #[trigger] is_path(*f, p) && p.last() == i;
            lemma_closed_covers_path(*f, marks@, p, p.len() - 1);
        }
    }
    marks
}

} // verus!
