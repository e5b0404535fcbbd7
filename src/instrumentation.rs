//! The whole instrumentation: metering and print calls in every local
//! function, two new counters, the printer and the diagnostic endpoint.
use vstd::prelude::*;
use crate::ir::{Export, Function, Global, InstrSeq, LocalFunction, Module, SeqType, ValType, seq_types};
use crate::metering::{is_supported, metered, meter_sequences, same_shape, supported};
use crate::profiling::{print_sequences, printed};
use crate::synth::{getter_body, getter_body_of, printer_body, printer_body_of};
use crate::walk::{reachable, reachable_seqs};

verus! {

/// Where the host's capabilities were found: the logging import, the
/// reply-append and reply-send imports, and the linear memory.
#[derive(Clone, Copy, Debug, PartialEq, Eq, Structural)]
pub struct HostImports {
    pub debug_print: Option<usize>,
    pub reply_data_append: Option<usize>,
    pub reply: Option<usize>,
    pub memory: Option<usize>,
}

/// Why a module was not instrumented.
#[derive(Clone, Copy, Debug, PartialEq, Eq, Structural)]
pub enum InstrumentError {
    /// A block or loop declares a multi-value result.
    UnsupportedStructure,
    /// A host import or the linear memory was not found.
    MissingHostCapability,
}

/// `id` names an imported function of `m`.
pub open spec fn is_import(m: Module, id: Option<usize>) -> bool {
    match id {
        Some(i) => i < m.funcs.len() && m.funcs[i as int] is Imported,
        None => false,
    }
}

/// Every capability that the added functions use was found in `m`.
pub open spec fn host_ok(m: Module, h: HostImports) -> bool {
    &&& is_import(m, h.debug_print)
    &&& is_import(m, h.reply_data_append)
    &&& is_import(m, h.reply)
    &&& match h.memory {
        Some(mi) => mi < m.memories,
        None => false,
    }
}

/// No local function of `m` has a block or loop with a multi-value result.
pub open spec fn all_supported(m: Module) -> bool {
    forall|f: int| 0 <= f < m.funcs.len() ==> match #[trigger] m.funcs[f] {
        Function::Local(lf) => supported(lf),
        Function::Imported => true,
    }
}

/// `new` is `old` metered with `counter` and then given the print calls of
/// function `id`, on every sequence reachable from the entry.
pub open spec fn instrumented_fn(old: LocalFunction, new: LocalFunction, id: int, counter: usize, printer: usize) -> bool {
    &&& same_shape(old, new)
    &&& forall|i: int|
        0 <= i < old.seqs.len() ==> (#[trigger] new.seqs[i]).instrs@ == if reachable(old, i) {
            printed(metered(old.seqs[i].instrs@, seq_types(old.seqs@), counter), i == old.entry, id as i32, printer)
        } else {
            old.seqs[i].instrs@
        }
}

/// `f` is a local function with the given parameters, no other locals, and
/// one void sequence, its entry, holding `body`.
pub open spec fn one_sequence(f: Function, params: Seq<ValType>, body: Seq<crate::ir::Instr>) -> bool {
    match f {
        Function::Local(lf) => {
            &&& lf.params@ == params
            &&& lf.locals@.len() == 0
            &&& lf.entry == 0
            &&& lf.seqs@.len() == 1
            &&& lf.seqs[0].ty == SeqType::Void
            &&& lf.seqs[0].instrs@ == body
        },
        Function::Imported => false,
    }
}

/// The result of instrumenting `old` with the capabilities in `h`.
pub open spec fn instrumented(old: Module, new: Module, h: HostImports) -> bool {
    let counter = old.globals.len();
    let log_size = (old.globals.len() + 1) as usize;
    let printer = old.funcs.len();
    let getter = (old.funcs.len() + 1) as usize;
    &&& new.globals@ == old.globals@ + seq![
        Global { ty: ValType::I64, mutable: true, init: 0 },
        Global { ty: ValType::I32, mutable: true, init: 0 },
    ]
    &&& new.memories == old.memories
    &&& new.funcs.len() == old.funcs.len() + 2
    &&& forall|f: int| 0 <= f < old.funcs.len() ==> match (#[trigger] old.funcs[f], new.funcs[f]) {
        (Function::Imported, Function::Imported) => true,
        (Function::Local(a), Function::Local(b)) => instrumented_fn(a, b, f, counter, printer),
        _ => false,
    }
    &&& one_sequence(new.funcs[printer as int], seq![ValType::I32],
        printer_body_of(log_size, counter, h.memory->0, h.debug_print->0))
    &&& one_sequence(new.funcs[getter as int], seq![],
        getter_body_of(counter, h.memory->0, h.reply_data_append->0, h.reply->0))
    &&& new.exports.len() == old.exports.len() + 1
    &&& forall|e: int| 0 <= e < old.exports.len() ==> #[trigger] new.exports[e] == old.exports[e]
    &&& new.exports[old.exports.len() as int].func == getter
    &&& new.exports[old.exports.len() as int].name@ == "canister_query __get_cycles"@
}

fn find_capability(m: &Module, id: Option<usize>) -> (r: bool)
    ensures
        r == is_import(*m, id),
{
    match id {
        Some(i) => i < m.funcs.len() && matches!(m.funcs[i], Function::Imported),
        None => false,
    }
}

/// Instruments `m` in place: adds a 64-bit cost counter and a 32-bit log
/// cursor, meters and adds print calls to every local function, then appends
/// the printer and the exported diagnostic endpoint. Apply it at most once:
/// a second run also counts the accounting code of the first.
/// On an error `m` is left as it was.
pub fn instrument(m: &mut Module, host: &HostImports) -> (r: Result<(), InstrumentError>)
    requires
        old(m).wf(),
    ensures
        !host_ok(*old(m), *host) ==> r == Err::<(), InstrumentError>(InstrumentError::MissingHostCapability)
            && *final(m) == *old(m),
        host_ok(*old(m), *host) && !all_supported(*old(m))
            ==> r == Err::<(), InstrumentError>(InstrumentError::UnsupportedStructure) && *final(m) == *old(m),
        host_ok(*old(m), *host) && all_supported(*old(m)) ==> r is Ok && instrumented(*old(m), *final(m), *host),
{
    if !(find_capability(m, host.debug_print) && find_capability(m, host.reply_data_append)
        && find_capability(m, host.reply)) {
        return Err(InstrumentError::MissingHostCapability);
    }
    let memory: usize = match host.memory {
        Some(mi) => mi,
        None => {
            return Err(InstrumentError::MissingHostCapability);
        },
    };
    if memory >= m.memories {
        return Err(InstrumentError::MissingHostCapability);
    }
    let ghost m_in = *m;
    assert(host_ok(m_in, *host));
    let mut f: usize = 0;
    while f < m.funcs.len()
        invariant
            *m == m_in,
            host_ok(m_in, *host),
            memory == host.memory->0,
            m.wf(),
            f <= m.funcs.len(),
            forall|g: int| 0 <= g < f ==> match #[trigger] m.funcs[g] {
                Function::Local(lf) => supported(lf),
                Function::Imported => true,
            },
        decreases m.funcs.len() - f,
    {
        if let Function::Local(lf) = &m.funcs[f] {
            assert(lf.wf());
            if !is_supported(lf) {
                return Err(InstrumentError::UnsupportedStructure);
            }
        }
        f = f + 1;
    }
    let ghost m0 = *m;
    let counter = m.globals.len();
    m.globals.push(Global { ty: ValType::I64, mutable: true, init: 0 });
    let log_size = m.globals.len();
    m.globals.push(Global { ty: ValType::I32, mutable: true, init: 0 });
    let printer = m.funcs.len();
    let mut f: usize = 0;
    while f < m.funcs.len()
        invariant
            m0.wf(),
            all_supported(m0),
            host_ok(m0, *host),
            memory == host.memory->0,
            f <= m.funcs.len(),
            m.funcs.len() == m0.funcs.len(),
            printer == m0.funcs.len(),
            counter == m0.globals.len(),
            m.globals@ == m0.globals@ + seq![
                Global { ty: ValType::I64, mutable: true, init: 0 },
                Global { ty: ValType::I32, mutable: true, init: 0 },
            ],
            m.memories == m0.memories,
            m.exports == m0.exports,
            forall|g: int| f <= g < m0.funcs.len() ==> #[trigger] m.funcs[g] == m0.funcs[g],
            forall|g: int| 0 <= g < f ==> match (#[trigger] m0.funcs[g], m.funcs[g]) {
                (Function::Imported, Function::Imported) => true,
                (Function::Local(a), Function::Local(b)) => instrumented_fn(a, b, g, counter, printer),
                _ => false,
            },
        decreases m0.funcs.len() - f,
    {
        let mut taken = Function::Imported;
        m.funcs.set_and_swap(f, &mut taken);
        assert(taken == m0.funcs[f as int]);
        let put = match taken {
            Function::Local(mut lf) => {
                let ghost lf0 = lf;
                assert(lf0.wf() && supported(lf0));
                let reached = reachable_seqs(&lf);
                meter_sequences(&mut lf, &reached, counter);
                let id: i32 = #[verifier::truncate] (f as i32);
                print_sequences(&mut lf, &reached, id, printer);
                proof {
                    assert(instrumented_fn(lf0, lf, f as int, counter, printer));
                }
                Function::Local(lf)
            },
            Function::Imported => Function::Imported,
        };
        m.funcs.set(f, put);
        f = f + 1;
    }
    let params = vec![ValType::I32];
    assert(params@ =~= seq![ValType::I32]);
    let printer_fn = LocalFunction {
        params,
        locals: Vec::new(),
        entry: 0,
        seqs: vec![InstrSeq { ty: SeqType::Void, instrs: printer_body(log_size, counter, memory, host.debug_print.unwrap()) }],
    };
    m.funcs.push(Function::Local(printer_fn));
    let getter = m.funcs.len();
    let getter_fn = LocalFunction {
        params: Vec::new(),
        locals: Vec::new(),
        entry: 0,
        seqs: vec![InstrSeq {
            ty: SeqType::Void,
            instrs: getter_body(counter, memory, host.reply_data_append.unwrap(), host.reply.unwrap()),
        }],
    };
    m.funcs.push(Function::Local(getter_fn));
    m.exports.push(Export { name: "canister_query __get_cycles".to_owned(), func: getter });
    proof {
        assert(m.funcs.len() == m0.funcs.len() + 2);
        assert(one_sequence(m.funcs[printer as int], seq![ValType::I32],
            printer_body_of(log_size, counter, memory, host.debug_print->0)));
        assert(one_sequence(m.funcs[getter as int], seq![],
            getter_body_of(counter, memory, host.reply_data_append->0, host.reply->0)));
    }
    Ok(())
}

} // verus!
