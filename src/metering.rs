//! Execution-cost metering: the cost accountant, which finds where accounting
//! code goes and what it adds, and the sequence rewriter, which splices it in.
use vstd::prelude::*;
use crate::ir::{children, children_below, Instr, InstrSeq, LocalFunction, SeqType, seq_types};
use crate::walk::{closed, reachable, reachable_seqs};

verus! {

/// A place in a sequence where the cost of the segment ending there is added
/// to the counter. Accounting code goes in front of the instruction at
/// `position`, or at the end when `position` is the sequence's length.
#[derive(Clone, Copy, Debug, PartialEq, Eq, Structural)]
pub struct InjectionPoint {
    pub position: usize,
    pub cost: u64,
}

/// The mathematical value of an injection point: (position, cost).
pub open spec fn point_view(p: InjectionPoint) -> (nat, nat) {
    (p.position as nat, p.cost as nat)
}

pub open spec fn points_view(v: Seq<InjectionPoint>) -> Seq<(nat, nat)> {
    v.map_values(|p: InjectionPoint| point_view(p))
}

/// A block or loop whose declared result has more than one value.
pub open spec fn multi_valued(i: Instr, tys: Seq<SeqType>) -> bool {
    match i {
        Instr::Block { seq } => tys[seq as int] == SeqType::Multi,
        Instr::Loop { seq } => tys[seq as int] == SeqType::Multi,
        _ => false,
    }
}

/// No block or loop of `s` declares a multi-value result.
pub open spec fn multi_free(s: Seq<Instr>, tys: Seq<SeqType>) -> bool {
    forall|k: int| 0 <= k < s.len() ==> !multi_valued(#[trigger] s[k], tys)
}

/// Units that an instruction costs: a block or loop costs one when it yields
/// a single value and nothing when void; every other instruction costs one.
pub open spec fn unit_cost(i: Instr, tys: Seq<SeqType>) -> nat {
    match i {
        Instr::Block { seq } => if tys[seq as int] == SeqType::Single { 1 } else { 0 },
        Instr::Loop { seq } => if tys[seq as int] == SeqType::Single { 1 } else { 0 },
        _ => 1,
    }
}

/// Structured control, branches, returns and traps close the current segment.
pub open spec fn ends_segment(i: Instr) -> bool {
    match i {
        Instr::Block { .. } | Instr::Loop { .. } | Instr::IfElse { .. } | Instr::Br { .. }
        | Instr::BrIf { .. } | Instr::BrTable { .. } | Instr::Return { .. }
        | Instr::Unreachable { .. } => true,
        _ => false,
    }
}

/// The left-to-right scan: the non-zero points of the segments closed so
/// far, and the cost accumulated since the last one closed.
pub open spec fn scan(s: Seq<Instr>, tys: Seq<SeqType>) -> (Seq<(nat, nat)>, nat)
    decreases s.len(),
{
    if s.len() == 0 {
        (seq![], 0)
    } else {
        let prev = scan(s.drop_last(), tys);
        let c = prev.1 + unit_cost(s.last(), tys);
        if ends_segment(s.last()) {
            (if c > 0 { prev.0.push(((s.len() - 1) as nat, c)) } else { prev.0 }, 0)
        } else {
            (prev.0, c)
        }
    }
}

/// The injection points of a sequence: one per closed segment and one for the
/// tail at the end, those of cost zero left out.
pub open spec fn injection_points_of(s: Seq<Instr>, tys: Seq<SeqType>) -> Seq<(nat, nat)> {
    let r = scan(s, tys);
    if r.1 > 0 { r.0.push((s.len(), r.1)) } else { r.0 }
}

/// The accounting snippet: read the counter, add the cost, write it back.
pub open spec fn snippet(counter: usize, cost: nat) -> Seq<Instr> {
    seq![
        Instr::GlobalGet { global: counter },
        Instr::I64Const { value: cost as i64 },
        Instr::I64Add,
        Instr::GlobalSet { global: counter },
    ]
}

/// `s` from `from` on, with the snippet for each point spliced in front of
/// its position.
pub open spec fn splice(s: Seq<Instr>, pts: Seq<(nat, nat)>, from: int, counter: usize) -> Seq<Instr>
    decreases pts.len(),
{
    if pts.len() == 0 {
        s.subrange(from, s.len() as int)
    } else {
        s.subrange(from, pts[0].0 as int) + snippet(counter, pts[0].1) + splice(
            s,
            pts.drop_first(),
            pts[0].0 as int,
            counter,
        )
    }
}

/// A sequence after metering.
pub open spec fn metered(s: Seq<Instr>, tys: Seq<SeqType>, counter: usize) -> Seq<Instr> {
    splice(s, injection_points_of(s, tys), 0, counter)
}

/// Positions increase and stay within `len`.
pub open spec fn well_placed(pts: Seq<(nat, nat)>, len: nat) -> bool {
    &&& forall|i: int, j: int| 0 <= i < j < pts.len() ==> pts[i].0 < pts[j].0
    &&& forall|i: int| 0 <= i < pts.len() ==> pts[i].0 <= len
}

proof fn lemma_scan_bounds(s: Seq<Instr>, tys: Seq<SeqType>)
    ensures
        scan(s, tys).1 <= s.len(),
        forall|i: int| 0 <= i < scan(s, tys).0.len() ==> #[trigger] scan(s, tys).0[i].0 < s.len(),
        forall|i: int| 0 <= i < scan(s, tys).0.len() ==> 0 < #[trigger] scan(s, tys).0[i].1 <= s.len(),
        forall|i: int, j: int|
            0 <= i < j < scan(s, tys).0.len() ==> scan(s, tys).0[i].0 < scan(s, tys).0[j].0,
    decreases s.len(),
{
    if s.len() > 0 {
        lemma_scan_bounds(s.drop_last(), tys);
    }
}

pub proof fn lemma_points_well_placed(s: Seq<Instr>, tys: Seq<SeqType>)
    ensures
        well_placed(injection_points_of(s, tys), s.len()),
        forall|i: int| 0 <= i < injection_points_of(s, tys).len()
            ==> 0 < #[trigger] injection_points_of(s, tys)[i].1 <= s.len(),
{
    lemma_scan_bounds(s, tys);
}

/// The cost accountant: scans `instrs` once and lists its injection points.
pub fn injection_points(seqs: &Vec<InstrSeq>, id: usize) -> (r: Vec<InjectionPoint>)
    requires
        id < seqs.len(),
        children_below(seqs[id as int].instrs@, seqs.len() as nat),
        multi_free(seqs[id as int].instrs@, seq_types(seqs@)),
    ensures
        points_view(r@) == injection_points_of(seqs[id as int].instrs@, seq_types(seqs@)),
{
    let s = &seqs[id].instrs;
    let ghost tys = seq_types(seqs@);
    let mut pts: Vec<InjectionPoint> = Vec::new();
    let mut cost: u64 = 0;
    let mut k: usize = 0;
    while k < s.len()
        invariant
            k <= s.len(),
            s == seqs[id as int].instrs,
            tys == seq_types(seqs@),
            children_below(s@, seqs.len() as nat),
            (points_view(pts@), cost as nat) == scan(s@.subrange(0, k as int), tys),
        decreases s.len() - k,
    {
        proof {
            assert(s@.subrange(0, k + 1).drop_last() =~= s@.subrange(0, k as int));
            lemma_scan_bounds(s@.subrange(0, k as int), tys);
            assert(children(s@[k as int]).len() > 0 ==> children(s@[k as int])[0] < seqs.len());
        }
        let unit: u64 = match s[k] {
            Instr::Block { seq } | Instr::Loop { seq } => {
                match seqs[seq].ty {
                    SeqType::Single => 1,
                    _ => 0,
                }
            },
            _ => 1,
        };
        cost = cost + unit;
        match s[k] {
            Instr::Block { .. } | Instr::Loop { .. } | Instr::IfElse { .. } | Instr::Br { .. }
            | Instr::BrIf { .. } | Instr::BrTable { .. } | Instr::Return { .. }
            | Instr::Unreachable { .. } => {
                if cost > 0 {
                    pts.push(InjectionPoint { position: k, cost });
                }
                cost = 0;
            },
            _ => {},
        }
        k = k + 1;
        proof {
            assert(points_view(pts@) =~= scan(s@.subrange(0, k as int), tys).0);
        }
    }
    proof {
        assert(s@.subrange(0, k as int) =~= s@);
        lemma_scan_bounds(s@, tys);
    }
    if cost > 0 {
        pts.push(InjectionPoint { position: k, cost });
    }
    proof {
        assert(points_view(pts@) =~= injection_points_of(s@, tys));
    }
    pts
}

/// The sequence rewriter: copies `instrs` and puts the accounting snippet in
/// front of each point's position, adding that point's cost to `counter`.
pub fn splice_points(instrs: &Vec<Instr>, points: &Vec<InjectionPoint>, counter: usize) -> (r: Vec<Instr>)
    requires
        well_placed(points_view(points@), instrs.len() as nat),
    ensures
        r@ == splice(instrs@, points_view(points@), 0, counter),
{
    let ghost s = instrs@;
    let ghost pv = points_view(points@);
    let mut out: Vec<Instr> = Vec::new();
    let mut last: usize = 0;
    let mut k: usize = 0;
    assert(pv.subrange(0, pv.len() as int) =~= pv);
    while k < points.len()
        invariant
            pv == points_view(points@),
            s == instrs@,
            well_placed(pv, s.len()),
            k <= points.len(),
            last <= s.len(),
            k == 0 ==> last == 0,
            k > 0 ==> last == pv[k - 1].0,
            out@ + splice(s, pv.subrange(k as int, pv.len() as int), last as int, counter)
                == splice(s, pv, 0, counter),
        decreases points.len() - k,
    {
        let p = points[k].position;
        assert(pv[k as int].0 == p);
        let ghost out0 = out@;
        let mut j: usize = last;
        while j < p
            invariant
                last <= j <= p <= s.len(),
                s == instrs@,
                out@ == out0 + s.subrange(last as int, j as int),
            decreases p - j,
        {
            out.push(instrs[j]);
            j = j + 1;
            assert(out@ =~= out0 + s.subrange(last as int, j as int));
        }
        out.push(Instr::GlobalGet { global: counter });
        out.push(Instr::I64Const { value: #[verifier::truncate] (points[k].cost as i64) });
        out.push(Instr::I64Add);
        out.push(Instr::GlobalSet { global: counter });
        proof {
            let rest = pv.subrange(k as int, pv.len() as int);
            assert(rest.drop_first() =~= pv.subrange(k + 1, pv.len() as int));
            assert(out@ =~= out0 + s.subrange(last as int, p as int) + snippet(counter, pv[k as int].1));
        }
        last = p;
        k = k + 1;
    }
    let ghost out0 = out@;
    let mut j: usize = last;
    while j < instrs.len()
        invariant
            last <= j <= s.len(),
            s == instrs@,
            out@ == out0 + s.subrange(last as int, j as int),
        decreases s.len() - j,
    {
        out.push(instrs[j]);
        j = j + 1;
        assert(out@ =~= out0 + s.subrange(last as int, j as int));
    }
    proof {
        assert(pv.subrange(k as int, pv.len() as int) =~= Seq::<(nat, nat)>::empty());
        assert(s.subrange(last as int, j as int) =~= s.subrange(last as int, s.len() as int));
    }
    out
}

/// No block or loop of any sequence of `f` declares a multi-value result.
pub open spec fn supported(f: LocalFunction) -> bool {
    forall|i: int| 0 <= i < f.seqs.len() ==> multi_free(#[trigger] f.seqs[i].instrs@, seq_types(f.seqs@))
}

/// `new` is `old` with only the instruction lists of its sequences changed.
pub open spec fn same_shape(old: LocalFunction, new: LocalFunction) -> bool {
    &&& new.params == old.params
    &&& new.locals == old.locals
    &&& new.entry == old.entry
    &&& new.seqs.len() == old.seqs.len()
    &&& forall|i: int| 0 <= i < old.seqs.len() ==> (#[trigger] new.seqs[i]).ty == old.seqs[i].ty
}

/// Checks that no block or loop of `f` declares a multi-value result.
pub fn is_supported(f: &LocalFunction) -> (r: bool)
    requires
        f.wf(),
    ensures
        r == supported(*f),
{
    let ghost tys = seq_types(f.seqs@);
    let mut i: usize = 0;
    while i < f.seqs.len()
        invariant
            f.wf(),
            tys == seq_types(f.seqs@),
            i <= f.seqs.len(),
            forall|j: int| 0 <= j < i ==> multi_free(#[trigger] f.seqs[j].instrs@, tys),
        decreases f.seqs.len() - i,
    {
        let s = &f.seqs[i].instrs;
        assert(children_below(s@, f.seqs.len() as nat));
        let mut k: usize = 0;
        while k < s.len()
            invariant
                f.wf(),
                tys == seq_types(f.seqs@),
                i < f.seqs.len(),
                s == f.seqs[i as int].instrs,
                children_below(s@, f.seqs.len() as nat),
                k <= s.len(),
                forall|k2: int| 0 <= k2 < k ==> !multi_valued(#[trigger] s@[k2], tys),
            decreases s.len() - k,
        {
            assert(children(s@[k as int]).len() > 0 ==> children(s@[k as int])[0] < f.seqs.len());
            match s[k] {
                Instr::Block { seq } | Instr::Loop { seq } => {
                    if f.seqs[seq].ty == SeqType::Multi {
                        assert(multi_valued(s@[k as int], tys));
                        return false;
                    }
                },
                _ => {},
            }
            k = k + 1;
        }
        i = i + 1;
    }
    true
}

proof fn lemma_children_below_concat(a: Seq<Instr>, b: Seq<Instr>, n: nat)
    requires
        children_below(a, n),
        children_below(b, n),
    ensures
        children_below(a + b, n),
{
    assert forall|k: int, j: int|
        0 <= k < (a + b).len() && 0 <= j < children((a + b)[k]).len()
            implies children((a + b)[k])[j] < n by {
        if k < a.len() {
            assert((a + b)[k] == a[k]);
        } else {
            assert((a + b)[k] == b[k - a.len()]);
        }
    }
}

proof fn lemma_children_below_subrange(s: Seq<Instr>, lo: int, hi: int, n: nat)
    requires
        children_below(s, n),
        0 <= lo <= hi <= s.len(),
    ensures
        children_below(s.subrange(lo, hi), n),
{
    assert forall|k: int, j: int|
        0 <= k < hi - lo && 0 <= j < children(s.subrange(lo, hi)[k]).len()
            implies children(s.subrange(lo, hi)[k])[j] < n by {
        assert(s.subrange(lo, hi)[k] == s[k + lo]);
    }
}

proof fn lemma_splice_children(s: Seq<Instr>, pts: Seq<(nat, nat)>, from: int, counter: usize, n: nat)
    requires
        children_below(s, n),
        0 <= from <= s.len(),
        well_placed(pts, s.len()),
        forall|i: int| 0 <= i < pts.len() ==> from <= #[trigger] pts[i].0,
    ensures
        children_below(splice(s, pts, from, counter), n),
    decreases pts.len(),
{
    if pts.len() == 0 {
        lemma_children_below_subrange(s, from, s.len() as int, n);
    } else {
        let p = pts[0].0 as int;
        lemma_children_below_subrange(s, from, p, n);
        let sn = snippet(counter, pts[0].1);
        assert(children_below(sn, n)) by {
            assert forall|k: int, j: int| 0 <= k < sn.len() && 0 <= j < children(sn[k]).len()
                implies children(sn[k])[j] < n by {
                assert(children(sn[k]).len() == 0);
            }
        }
        let rest = pts.drop_first();
        assert forall|i: int| 0 <= i < rest.len() implies p <= #[trigger] rest[i].0 by {
            assert(rest[i] == pts[i + 1]);
        }
        lemma_splice_children(s, rest, p, counter, n);
        lemma_children_below_concat(s.subrange(from, p), sn, n);
        lemma_children_below_concat(s.subrange(from, p) + sn, splice(s, rest, p, counter), n);
    }
}

/// Meters every marked sequence of `f`; the others stay as they were.
pub fn meter_sequences(f: &mut LocalFunction, reached: &Vec<bool>, counter: usize)
    requires
        old(f).wf(),
        supported(*old(f)),
        reached@.len() == old(f).seqs.len(),
    ensures
        same_shape(*old(f), *final(f)),
        final(f).wf(),
        forall|i: int| 0 <= i < old(f).seqs.len() ==> (#[trigger] final(f).seqs[i]).instrs@ == if reached@[i] {
            metered(old(f).seqs[i].instrs@, seq_types(old(f).seqs@), counter)
        } else {
            old(f).seqs[i].instrs@
        },
{
    let ghost f0 = *f;
    let ghost tys = seq_types(f0.seqs@);
    let mut i: usize = 0;
    while i < f.seqs.len()
        invariant
            f0.wf(),
            supported(f0),
            reached@.len() == f0.seqs.len(),
            tys == seq_types(f0.seqs@),
            i <= f.seqs.len(),
            same_shape(f0, *f),
            f.wf(),
            forall|j: int| i <= j < f0.seqs.len() ==> (#[trigger] f.seqs[j]) == f0.seqs[j],
            forall|j: int| 0 <= j < i ==> (#[trigger] f.seqs[j]).instrs@ == if reached@[j] {
                metered(f0.seqs[j].instrs@, tys, counter)
            } else {
                f0.seqs[j].instrs@
            },
        decreases f0.seqs.len() - i,
    {
        if reached[i] {
            proof {
                assert(seq_types(f.seqs@) =~= tys);
                assert(f.seqs[i as int] == f0.seqs[i as int]);
                assert(multi_free(f0.seqs[i as int].instrs@, tys));
                assert(children_below(f.seqs[i as int].instrs@, f.seqs.len() as nat));
            }
            let pts = injection_points(&f.seqs, i);
            proof {
                lemma_points_well_placed(f.seqs[i as int].instrs@, tys);
                lemma_splice_children(f.seqs[i as int].instrs@, points_view(pts@), 0, counter, f.seqs.len() as nat);
            }
            let instrs = splice_points(&f.seqs[i].instrs, &pts, counter);
            let ty = f.seqs[i].ty;
            f.seqs.set(i, InstrSeq { ty, instrs });
        }
        i = i + 1;
    }
}

/// The metering pass on one function: walks its sequences from the entry and
/// meters each one reached. Returns which sequences were metered: those
/// reachable from the entry.
pub fn inject_metering(f: &mut LocalFunction, counter: usize) -> (reached: Vec<bool>)
    requires
        old(f).wf(),
        supported(*old(f)),
    ensures
        closed(*old(f), reached@),
        forall|i: int| 0 <= i < old(f).seqs.len() ==> (reached@[i] <==> reachable(*old(f), i)),
        same_shape(*old(f), *final(f)),
        final(f).wf(),
        forall|i: int| 0 <= i < old(f).seqs.len() ==> (#[trigger] final(f).seqs[i]).instrs@ == if reached@[i] {
            metered(old(f).seqs[i].instrs@, seq_types(old(f).seqs@), counter)
        } else {
            old(f).seqs[i].instrs@
        },
{
    let reached = reachable_seqs(f);
    meter_sequences(f, &reached, counter);
    reached
}

/// The units of all instructions of `s`.
pub open spec fn units(s: Seq<Instr>, tys: Seq<SeqType>) -> nat
    decreases s.len(),
{
    if s.len() == 0 {
        0
    } else {
        units(s.drop_last(), tys) + unit_cost(s.last(), tys)
    }
}

/// The sum of the costs of `pts`.
pub open spec fn total(pts: Seq<(nat, nat)>) -> nat
    decreases pts.len(),
{
    if pts.len() == 0 {
        0
    } else {
        total(pts.drop_last()) + pts.last().1
    }
}

proof fn lemma_total_push(pts: Seq<(nat, nat)>, p: (nat, nat))
    ensures
        total(pts.push(p)) == total(pts) + p.1,
{
    assert(pts.push(p).drop_last() =~= pts);
}

proof fn lemma_scan_total(s: Seq<Instr>, tys: Seq<SeqType>)
    ensures
        total(scan(s, tys).0) + scan(s, tys).1 == units(s, tys),
    decreases s.len(),
{
    if s.len() > 0 {
        lemma_scan_total(s.drop_last(), tys);
        let prev = scan(s.drop_last(), tys);
        let c = prev.1 + unit_cost(s.last(), tys);
        lemma_total_push(prev.0, ((s.len() - 1) as nat, c));
    }
}

/// The injection points of a sequence account for every unit of it exactly
/// once: their costs add up to the units of all its instructions.
pub proof fn lemma_points_account_every_unit(s: Seq<Instr>, tys: Seq<SeqType>)
    ensures
        total(injection_points_of(s, tys)) == units(s, tys),
{
    lemma_scan_total(s, tys);
    let r = scan(s, tys);
    lemma_total_push(r.0, (s.len(), r.1));
}

proof fn lemma_units_concat(a: Seq<Instr>, b: Seq<Instr>, tys: Seq<SeqType>)
    ensures
        units(a + b, tys) == units(a, tys) + units(b, tys),
    decreases b.len(),
{
    if b.len() == 0 {
        assert(a + b =~= a);
    } else {
        assert((a + b).drop_last() =~= a + b.drop_last());
        lemma_units_concat(a, b.drop_last(), tys);
    }
}

proof fn lemma_snippet_units(counter: usize, cost: nat, tys: Seq<SeqType>)
    ensures
        units(snippet(counter, cost), tys) == 4,
{
    let sn = snippet(counter, cost);
    let s1 = seq![Instr::GlobalGet { global: counter }];
    let s2 = s1.push(Instr::I64Const { value: cost as i64 });
    let s3 = s2.push(Instr::I64Add);
    assert(s1.drop_last() =~= Seq::<Instr>::empty());
    assert(s2.drop_last() =~= s1);
    assert(s3.drop_last() =~= s2);
    assert(sn.drop_last() =~= s3);
    assert(units(Seq::<Instr>::empty(), tys) == 0);
    assert(s1.last() == Instr::GlobalGet { global: counter });
    assert(units(s1, tys) == 1);
    assert(units(s2, tys) == 2);
    assert(units(s3, tys) == 3);
}

proof fn lemma_splice_units(s: Seq<Instr>, pts: Seq<(nat, nat)>, from: int, counter: usize, tys: Seq<SeqType>)
    requires
        0 <= from <= s.len(),
        well_placed(pts, s.len()),
        forall|i: int| 0 <= i < pts.len() ==> from <= #[trigger] pts[i].0,
    ensures
        units(splice(s, pts, from, counter), tys) == units(s.subrange(from, s.len() as int), tys) + 4 * pts.len(),
    decreases pts.len(),
{
    if pts.len() > 0 {
        let p = pts[0].0 as int;
        let rest = pts.drop_first();
        assert forall|i: int| 0 <= i < rest.len() implies p <= #[trigger] rest[i].0 by {
            assert(rest[i] == pts[i + 1]);
        }
        lemma_splice_units(s, rest, p, counter, tys);
        let a = s.subrange(from, p);
        let sn = snippet(counter, pts[0].1);
        lemma_snippet_units(counter, pts[0].1, tys);
        lemma_units_concat(a, sn, tys);
        lemma_units_concat(a + sn, splice(s, rest, p, counter), tys);
        assert(s.subrange(from, s.len() as int) =~= a + s.subrange(p, s.len() as int));
        lemma_units_concat(a, s.subrange(p, s.len() as int), tys);
    }
}

/// Metering is not idempotent: metering an already metered sequence
/// accounts its original cost again, plus the four units of every
/// accounting snippet that the first run put in.
pub proof fn lemma_metering_twice(s: Seq<Instr>, tys: Seq<SeqType>, counter: usize)
    ensures
        total(injection_points_of(metered(s, tys, counter), tys))
            == total(injection_points_of(s, tys)) + 4 * injection_points_of(s, tys).len(),
{
    let pts = injection_points_of(s, tys);
    lemma_points_well_placed(s, tys);
    lemma_splice_units(s, pts, 0, counter, tys);
    assert(s.subrange(0, s.len() as int) =~= s);
    lemma_points_account_every_unit(s, tys);
    lemma_points_account_every_unit(metered(s, tys, counter), tys);
}

proof fn lemma_scan_straight(s: Seq<Instr>, tys: Seq<SeqType>)
    requires
        forall|k: int| 0 <= k < s.len() ==> !ends_segment(#[trigger] s[k]),
    ensures
        scan(s, tys) == (Seq::<(nat, nat)>::empty(), s.len()),
    decreases s.len(),
{
    if s.len() > 0 {
        assert(!ends_segment(s[s.len() - 1]));
        lemma_scan_straight(s.drop_last(), tys);
    }
}

/// A non-empty sequence without control instructions gets exactly one
/// injection point: at its end, with its length as cost.
pub proof fn lemma_straight_line(s: Seq<Instr>, tys: Seq<SeqType>)
    requires
        s.len() > 0,
        forall|k: int| 0 <= k < s.len() ==> !ends_segment(#[trigger] s[k]),
    ensures
        injection_points_of(s, tys) == seq![(s.len(), s.len())],
{
    lemma_scan_straight(s, tys);
    assert(Seq::<(nat, nat)>::empty().push((s.len(), s.len())) =~= seq![(s.len(), s.len())]);
}

/// A block after `b` instructions without control flow closes a segment of
/// cost `b + 1` when it yields a single value and `b` when it is void; the
/// segment is instrumented in front of the block unless its cost is zero.
pub proof fn lemma_block_segment(s: Seq<Instr>, seq: usize, tys: Seq<SeqType>)
    requires
        forall|k: int| 0 <= k < s.len() ==> !ends_segment(#[trigger] s[k]),
        tys[seq as int] != SeqType::Multi,
    ensures
        ({
            let cost = s.len() + if tys[seq as int] == SeqType::Single { 1nat } else { 0nat };
            injection_points_of(s.push(Instr::Block { seq }), tys)
                == if cost > 0 { seq![(s.len(), cost)] } else { Seq::<(nat, nat)>::empty() }
        }),
{
    lemma_scan_straight(s, tys);
    let t = s.push(Instr::Block { seq });
    assert(t.drop_last() =~= s);
    assert(Seq::<(nat, nat)>::empty().push((s.len(), s.len() + 1)) =~= seq![(s.len(), s.len() + 1)]);
    assert(Seq::<(nat, nat)>::empty().push((s.len(), s.len())) =~= seq![(s.len(), s.len())]);
}

} // verus!
