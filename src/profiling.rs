//! The profiling-print pass: trace calls at function entry, before each
//! return and at the end of every sequence.
use vstd::prelude::*;
use crate::ir::{children, children_below, Instr, InstrSeq, LocalFunction};
use crate::metering::same_shape;
use crate::walk::{closed, reachable, reachable_seqs};

verus! {

/// The value passed to the printer on every exit.
pub const EXIT_MARK: i32 = -1;

/// A call of the printer with `value`.
pub open spec fn print_call(value: i32, printer: usize) -> Seq<Instr> {
    seq![Instr::I32Const { value }, Instr::Call { func: printer }]
}

pub open spec fn is_return(i: Instr) -> bool {
    i is Return
}

/// `s` with an exit print in front of each return.
pub open spec fn with_return_prints(s: Seq<Instr>, printer: usize) -> Seq<Instr>
    decreases s.len(),
{
    if s.len() == 0 {
        seq![]
    } else {
        with_return_prints(s.drop_last(), printer) + (if is_return(s.last()) {
            print_call(EXIT_MARK, printer)
        } else {
            seq![]
        }) + seq![s.last()]
    }
}

/// A sequence after the print pass: the entry sequence first announces the
/// function's id; every sequence prints before each return and at its end.
pub open spec fn printed(s: Seq<Instr>, is_entry: bool, id: i32, printer: usize) -> Seq<Instr> {
    (if is_entry { print_call(id, printer) } else { seq![] }) + with_return_prints(s, printer)
        + print_call(EXIT_MARK, printer)
}

proof fn lemma_printed_children(s: Seq<Instr>, printer: usize, n: nat)
    requires
        children_below(s, n),
    ensures
        children_below(with_return_prints(s, printer), n),
    decreases s.len(),
{
    if s.len() > 0 {
        lemma_printed_children(s.drop_last(), printer, n);
        let a = with_return_prints(s.drop_last(), printer);
        let t = with_return_prints(s, printer);
        assert forall|k: int, j: int| 0 <= k < t.len() && 0 <= j < children(t[k]).len()
            implies children(t[k])[j] < n by {
            if k < a.len() {
                assert(t[k] == a[k]);
            } else if k == t.len() - 1 {
                assert(t[k] == s[s.len() - 1]);
            } else {
                assert(children(t[k]).len() == 0);
            }
        }
    }
}

/// Adds the print calls to one sequence.
fn print_sequence(s: &Vec<Instr>, is_entry: bool, id: i32, printer: usize) -> (r: Vec<Instr>)
    ensures
        r@ == printed(s@, is_entry, id, printer),
{
    let mut out: Vec<Instr> = Vec::new();
    if is_entry {
        out.push(Instr::I32Const { value: id });
        out.push(Instr::Call { func: printer });
    }
    let ghost head = out@;
    let mut k: usize = 0;
    while k < s.len()
        invariant
            k <= s.len(),
            out@ == head + with_return_prints(s@.subrange(0, k as int), printer),
        decreases s.len() - k,
    {
        proof {
            assert(s@.subrange(0, k + 1).drop_last() =~= s@.subrange(0, k as int));
        }
        if let Instr::Return { .. } = s[k] {
            out.push(Instr::I32Const { value: EXIT_MARK });
            out.push(Instr::Call { func: printer });
        }
        out.push(s[k]);
        k = k + 1;
        proof {
            assert(out@ =~= head + with_return_prints(s@.subrange(0, k as int), printer));
        }
    }
    out.push(Instr::I32Const { value: EXIT_MARK });
    out.push(Instr::Call { func: printer });
    proof {
        assert(s@.subrange(0, k as int) =~= s@);
        assert(out@ =~= printed(s@, is_entry, id, printer));
    }
    out
}

/// How many instructions of the first `n` sequences satisfy `pred`.
pub open spec fn count_upto(seqs: Seq<InstrSeq>, n: int, pred: spec_fn(Instr) -> bool) -> nat
    decreases n,
{
    if n <= 0 {
        0
    } else {
        count_upto(seqs, n - 1, pred) + count(seqs[n - 1].instrs@, pred)
    }
}

proof fn lemma_print_calls_upto(old: Seq<InstrSeq>, new: Seq<InstrSeq>, n: int, entry: int, id: i32, printer: usize)
    requires
        0 <= n <= old.len(),
        new.len() == old.len(),
        forall|i: int| 0 <= i < old.len() ==> (#[trigger] new[i]).instrs@ == printed(old[i].instrs@, i == entry, id, printer),
    ensures
        count_upto(new, n, calls_of(printer)) == count_upto(old, n, calls_of(printer))
            + (if 0 <= entry < n { 1nat } else { 0nat }) + count_upto(old, n, return_instrs()) + n,
    decreases n,
{
    if n > 0 {
        lemma_print_calls_upto(old, new, n - 1, entry, id, printer);
        lemma_print_calls(old[n - 1].instrs@, n - 1 == entry, id, printer);
        assert(new[n - 1].instrs@ == printed(old[n - 1].instrs@, n - 1 == entry, id, printer));
    }
}

/// Adds the print calls to every marked sequence of `f`.
pub fn print_sequences(f: &mut LocalFunction, reached: &Vec<bool>, id: i32, printer: usize)
    requires
        old(f).wf(),
        reached@.len() == old(f).seqs.len(),
    ensures
        same_shape(*old(f), *final(f)),
        final(f).wf(),
        forall|i: int| 0 <= i < old(f).seqs.len() ==> (#[trigger] final(f).seqs[i]).instrs@ == if reached@[i] {
            printed(old(f).seqs[i].instrs@, i == old(f).entry, id, printer)
        } else {
            old(f).seqs[i].instrs@
        },
{
    let ghost f0 = *f;
    let mut i: usize = 0;
    while i < f.seqs.len()
        invariant
            f0.wf(),
            reached@.len() == f0.seqs.len(),
            i <= f.seqs.len(),
            same_shape(f0, *f),
            f.wf(),
            forall|j: int| i <= j < f0.seqs.len() ==> (#[trigger] f.seqs[j]) == f0.seqs[j],
            forall|j: int| 0 <= j < i ==> (#[trigger] f.seqs[j]).instrs@ == if reached@[j] {
                printed(f0.seqs[j].instrs@, j == f0.entry, id, printer)
            } else {
                f0.seqs[j].instrs@
            },
        decreases f0.seqs.len() - i,
    {
        if reached[i] {
            let is_entry = i == f.entry;
            let instrs = print_sequence(&f.seqs[i].instrs, is_entry, id, printer);
            proof {
                let s = f.seqs[i as int].instrs@;
                let n = f.seqs.len() as nat;
                assert(children_below(s, n));
                lemma_printed_children(s, printer, n);
                let head = if is_entry { print_call(id, printer) } else { seq![] };
                let tail = print_call(EXIT_MARK, printer);
                let mid = with_return_prints(s, printer);
                assert forall|k: int, j: int| 0 <= k < instrs@.len() && 0 <= j < children(instrs@[k]).len()
                    implies children(instrs@[k])[j] < n by {
                    if head.len() <= k < head.len() + mid.len() {
                        assert(instrs@[k] == mid[k - head.len()]);
                    } else {
                        assert(children(instrs@[k]).len() == 0);
                    }
                }
            }
            let ty = f.seqs[i].ty;
            f.seqs.set(i, InstrSeq { ty, instrs });
        }
        i = i + 1;
    }
}

/// The print pass on one function, whose id the entry announces: walks its
/// sequences from the entry and adds the print calls to each one reached,
/// that is each one reachable from the entry. Where every sequence lies in
/// the tree below the entry, the pass adds one printer call for the entry,
/// one per return and one per sequence.
pub fn inject_profiling_prints(f: &mut LocalFunction, id: i32, printer: usize) -> (reached: Vec<bool>)
    requires
        old(f).wf(),
    ensures
        closed(*old(f), reached@),
        forall|i: int| 0 <= i < old(f).seqs.len() ==> (reached@[i] <==> reachable(*old(f), i)),
        same_shape(*old(f), *final(f)),
        final(f).wf(),
        forall|i: int| 0 <= i < old(f).seqs.len() ==> (#[trigger] final(f).seqs[i]).instrs@ == if reached@[i] {
            printed(old(f).seqs[i].instrs@, i == old(f).entry, id, printer)
        } else {
            old(f).seqs[i].instrs@
        },
        (forall|i: int| 0 <= i < old(f).seqs.len() ==> reachable(*old(f), i)) ==> count_upto(
            final(f).seqs@,
            final(f).seqs.len() as int,
            calls_of(printer),
        ) == count_upto(old(f).seqs@, old(f).seqs.len() as int, calls_of(printer)) + 1 + count_upto(
            old(f).seqs@,
            old(f).seqs.len() as int,
            return_instrs(),
        ) + old(f).seqs.len(),
{
    let ghost f0 = *f;
    let reached = reachable_seqs(f);
    print_sequences(f, &reached, id, printer);
    proof {
        if forall|i: int| 0 <= i < f0.seqs.len() ==> reachable(f0, i) {
            assert forall|i: int| 0 <= i < f0.seqs.len() implies (#[trigger] f.seqs@[i]).instrs@
                == printed(f0.seqs@[i].instrs@, i == f0.entry, id, printer) by {
                assert(reachable(f0, i));
                assert(reached@[i]);
                assert(f.seqs@[i] == f.seqs[i]);
            }
            lemma_print_calls_upto(f0.seqs@, f.seqs@, f0.seqs.len() as int, f0.entry as int, id, printer);
        }
    }
    reached
}

/// How many instructions of `s` satisfy `pred`.
pub open spec fn count(s: Seq<Instr>, pred: spec_fn(Instr) -> bool) -> nat
    decreases s.len(),
{
    if s.len() == 0 {
        0
    } else {
        count(s.drop_last(), pred) + if pred(s.last()) { 1nat } else { 0nat }
    }
}

/// Calls of function `printer`.
pub open spec fn calls_of(printer: usize) -> spec_fn(Instr) -> bool {
    |i: Instr| i == Instr::Call { func: printer }
}

/// Return instructions.
pub open spec fn return_instrs() -> spec_fn(Instr) -> bool {
    |i: Instr| is_return(i)
}

proof fn lemma_count_concat(a: Seq<Instr>, b: Seq<Instr>, pred: spec_fn(Instr) -> bool)
    ensures
        count(a + b, pred) == count(a, pred) + count(b, pred),
    decreases b.len(),
{
    if b.len() == 0 {
        assert(a + b =~= a);
    } else {
        assert((a + b).drop_last() =~= a + b.drop_last());
        lemma_count_concat(a, b.drop_last(), pred);
    }
}

proof fn lemma_count_print_call(value: i32, printer: usize, pred: spec_fn(Instr) -> bool)
    ensures
        count(print_call(value, printer), pred) == (if pred(Instr::I32Const { value }) { 1nat } else { 0nat })
            + (if pred(Instr::Call { func: printer }) { 1nat } else { 0nat }),
{
    let pc = print_call(value, printer);
    let s1 = seq![Instr::I32Const { value }];
    assert(s1.drop_last() =~= Seq::<Instr>::empty());
    assert(pc.drop_last() =~= s1);
    assert(count(Seq::<Instr>::empty(), pred) == 0);
    assert(s1.last() == Instr::I32Const { value });
    assert(count(s1, pred) == (if pred(Instr::I32Const { value }) { 1nat } else { 0nat }));
    assert(pc.last() == Instr::Call { func: printer });
}

proof fn lemma_return_prints_count(s: Seq<Instr>, printer: usize)
    ensures
        count(with_return_prints(s, printer), calls_of(printer))
            == count(s, calls_of(printer)) + count(s, return_instrs()),
    decreases s.len(),
{
    if s.len() > 0 {
        let pred = calls_of(printer);
        lemma_return_prints_count(s.drop_last(), printer);
        let a = with_return_prints(s.drop_last(), printer);
        let mid = if is_return(s.last()) { print_call(EXIT_MARK, printer) } else { seq![] };
        lemma_count_print_call(EXIT_MARK, printer, pred);
        assert(count(Seq::<Instr>::empty(), pred) == 0);
        lemma_count_concat(a, mid, pred);
        lemma_count_concat(a + mid, seq![s.last()], pred);
        assert(seq![s.last()].drop_last() =~= Seq::<Instr>::empty());
    }
}

/// The print pass adds one call of the printer for the entry (in the entry
/// sequence only), one before each return, and one at the end.
pub proof fn lemma_print_calls(s: Seq<Instr>, is_entry: bool, id: i32, printer: usize)
    ensures
        count(printed(s, is_entry, id, printer), calls_of(printer))
            == count(s, calls_of(printer)) + (if is_entry { 1nat } else { 0nat }) + count(s, return_instrs()) + 1,
{
    let pred = calls_of(printer);
    let head = if is_entry { print_call(id, printer) } else { seq![] };
    let mid = with_return_prints(s, printer);
    lemma_count_print_call(id, printer, pred);
    lemma_count_print_call(EXIT_MARK, printer, pred);
    assert(count(Seq::<Instr>::empty(), pred) == 0);
    lemma_return_prints_count(s, printer);
    lemma_count_concat(head, mid, pred);
    lemma_count_concat(head + mid, print_call(EXIT_MARK, printer), pred);
}

/// Where the instructions of `s` stand in `with_return_prints(s, printer)`.
pub open spec fn kept_positions(s: Seq<Instr>, printer: usize) -> Seq<int>
    decreases s.len(),
{
    if s.len() == 0 {
        seq![]
    } else {
        kept_positions(s.drop_last(), printer).push(with_return_prints(s, printer).len() - 1)
    }
}

/// `pos` places the instructions of `s` in `t`, in their order.
pub open spec fn embeds(s: Seq<Instr>, t: Seq<Instr>, pos: Seq<int>) -> bool {
    &&& pos.len() == s.len()
    &&& forall|i: int, j: int| 0 <= i < j < pos.len() ==> pos[i] < pos[j]
    &&& forall|k: int| 0 <= k < pos.len() ==> 0 <= #[trigger] pos[k] < t.len() && t[pos[k]] == s[k]
}

proof fn lemma_kept_positions(s: Seq<Instr>, printer: usize)
    ensures
        embeds(s, with_return_prints(s, printer), kept_positions(s, printer)),
    decreases s.len(),
{
    if s.len() > 0 {
        lemma_kept_positions(s.drop_last(), printer);
        let a = with_return_prints(s.drop_last(), printer);
        let t = with_return_prints(s, printer);
        let pos = kept_positions(s, printer);
        let pa = kept_positions(s.drop_last(), printer);
        assert forall|k: int| 0 <= k < pos.len() implies 0 <= #[trigger] pos[k] < t.len() && t[pos[k]] == s[k] by {
            if k < pa.len() {
                assert(pos[k] == pa[k]);
                assert(t[pa[k]] == a[pa[k]]);
            }
        }
    }
}

/// The print pass removes no instruction and keeps their order: the
/// instructions of `s` stand in the printed sequence at increasing positions.
pub proof fn lemma_print_keeps_order(s: Seq<Instr>, is_entry: bool, id: i32, printer: usize)
    ensures
        exists|pos: Seq<int>| embeds(s, printed(s, is_entry, id, printer), pos),
{
    lemma_kept_positions(s, printer);
    let head = if is_entry { print_call(id, printer) } else { seq![] };
    let mid = with_return_prints(s, printer);
    let t = printed(s, is_entry, id, printer);
    let kp = kept_positions(s, printer);
    let pos = kp.map_values(|q: int| q + head.len());
    assert forall|k: int| 0 <= k < pos.len() implies 0 <= #[trigger] pos[k] < t.len() && t[pos[k]] == s[k] by {
        assert(t[pos[k]] == mid[kp[k]]);
    }
    assert(embeds(s, t, pos));
}

} // verus!
