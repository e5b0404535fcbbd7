use wasm_utils::instrumentation::{instrument, HostImports, InstrumentError};
use wasm_utils::ir::{Function, Global, Instr, InstrSeq, LocalFunction, Module, SeqType, ValType};
use wasm_utils::metering::{injection_points, inject_metering, is_supported, splice_points, InjectionPoint};
use wasm_utils::profiling::inject_profiling_prints;
use wasm_utils::synth::{getter_body, printer_body, reply_payload};
use wasm_utils::walk::reachable_seqs;

fn other(code: u64) -> Instr {
    Instr::Other { code }
}

fn seq(ty: SeqType, instrs: Vec<Instr>) -> InstrSeq {
    InstrSeq { ty, instrs }
}

fn func(entry: usize, seqs: Vec<InstrSeq>) -> LocalFunction {
    LocalFunction { params: vec![], locals: vec![], entry, seqs }
}

fn snippet(counter: usize, cost: i64) -> Vec<Instr> {
    vec![
        Instr::GlobalGet { global: counter },
        Instr::I64Const { value: cost },
        Instr::I64Add,
        Instr::GlobalSet { global: counter },
    ]
}

#[test]
fn push_constant_drop_return() {
    let mut f = func(0, vec![seq(SeqType::Void, vec![other(1), other(2), Instr::Return { code: 3 }])]);
    let pts = injection_points(&f.seqs, 0);
    assert_eq!(pts, vec![InjectionPoint { position: 2, cost: 3 }]);
    let reached = inject_metering(&mut f, 7);
    assert_eq!(reached, vec![true]);
    let mut expected = vec![other(1), other(2)];
    expected.extend(snippet(7, 3));
    expected.push(Instr::Return { code: 3 });
    assert_eq!(f.seqs[0].instrs, expected);
}

#[test]
fn void_loop_around_two_instructions() {
    let mut f = func(
        0,
        vec![
            seq(SeqType::Void, vec![Instr::Loop { seq: 1 }]),
            seq(SeqType::Void, vec![other(1), other(2)]),
        ],
    );
    assert_eq!(injection_points(&f.seqs, 0), vec![]);
    assert_eq!(injection_points(&f.seqs, 1), vec![InjectionPoint { position: 2, cost: 2 }]);
    inject_metering(&mut f, 0);
    assert_eq!(f.seqs[0].instrs, vec![Instr::Loop { seq: 1 }]);
    let mut expected = vec![other(1), other(2)];
    expected.extend(snippet(0, 2));
    assert_eq!(f.seqs[1].instrs, expected);
}

#[test]
fn straight_line_gets_one_point_at_end() {
    let seqs = vec![seq(SeqType::Void, vec![other(1), other(2), other(3), other(4), other(5)])];
    assert_eq!(injection_points(&seqs, 0), vec![InjectionPoint { position: 5, cost: 5 }]);
}

#[test]
fn empty_sequence_gets_no_point() {
    let mut f = func(0, vec![seq(SeqType::Void, vec![])]);
    assert_eq!(injection_points(&f.seqs, 0), vec![]);
    inject_metering(&mut f, 0);
    assert_eq!(f.seqs[0].instrs, vec![]);
}

#[test]
fn single_value_block_adds_one() {
    let seqs = vec![
        seq(SeqType::Void, vec![other(1), other(2), Instr::Block { seq: 1 }, other(3)]),
        seq(SeqType::Single, vec![other(4)]),
    ];
    assert_eq!(
        injection_points(&seqs, 0),
        vec![InjectionPoint { position: 2, cost: 3 }, InjectionPoint { position: 4, cost: 1 }]
    );
}

#[test]
fn void_block_adds_nothing() {
    let seqs = vec![
        seq(SeqType::Void, vec![other(1), other(2), Instr::Block { seq: 1 }]),
        seq(SeqType::Void, vec![other(4)]),
    ];
    assert_eq!(injection_points(&seqs, 0), vec![InjectionPoint { position: 2, cost: 2 }]);
}

#[test]
fn branches_close_segments() {
    let seqs = vec![seq(
        SeqType::Void,
        vec![
            other(1),
            Instr::BrIf { code: 2 },
            Instr::Br { code: 3 },
            other(4),
            other(5),
            Instr::BrTable { code: 6 },
            Instr::Unreachable { code: 7 },
            Instr::IfElse { consequent: 0, alternative: 0 },
        ],
    )];
    assert_eq!(
        injection_points(&seqs, 0),
        vec![
            InjectionPoint { position: 1, cost: 2 },
            InjectionPoint { position: 2, cost: 1 },
            InjectionPoint { position: 5, cost: 3 },
            InjectionPoint { position: 6, cost: 1 },
            InjectionPoint { position: 7, cost: 1 },
        ]
    );
}

#[test]
fn splice_keeps_tail() {
    let instrs = vec![other(1), Instr::Return { code: 2 }, other(3)];
    let pts = vec![InjectionPoint { position: 1, cost: 2 }, InjectionPoint { position: 3, cost: 1 }];
    let mut expected = vec![other(1)];
    expected.extend(snippet(4, 2));
    expected.push(Instr::Return { code: 2 });
    expected.push(other(3));
    expected.extend(snippet(4, 1));
    assert_eq!(splice_points(&instrs, &pts, 4), expected);
}

#[test]
fn metering_twice_counts_snippets() {
    let mut f = func(0, vec![seq(SeqType::Void, vec![other(1), other(2)])]);
    inject_metering(&mut f, 0);
    let pts = injection_points(&f.seqs, 0);
    assert_eq!(pts, vec![InjectionPoint { position: 6, cost: 6 }]);
    inject_metering(&mut f, 0);
    assert_eq!(f.seqs[0].instrs.len(), 10);
    assert_eq!(f.seqs[0].instrs[7], Instr::I64Const { value: 6 });
}

#[test]
fn multi_value_block_is_unsupported() {
    let f = func(
        0,
        vec![seq(SeqType::Void, vec![Instr::Block { seq: 1 }]), seq(SeqType::Multi, vec![other(1)])],
    );
    assert!(!is_supported(&f));
    let g = func(0, vec![seq(SeqType::Void, vec![Instr::Loop { seq: 1 }]), seq(SeqType::Single, vec![])]);
    assert!(is_supported(&g));
}

#[test]
fn walker_reaches_nested_sequences() {
    let f = func(
        1,
        vec![
            seq(SeqType::Void, vec![other(1)]),
            seq(SeqType::Void, vec![Instr::IfElse { consequent: 2, alternative: 3 }]),
            seq(SeqType::Void, vec![Instr::Block { seq: 4 }]),
            seq(SeqType::Void, vec![]),
            seq(SeqType::Void, vec![]),
        ],
    );
    assert_eq!(reachable_seqs(&f), vec![false, true, true, true, true]);
}

#[test]
fn print_calls_at_entry_returns_and_ends() {
    let mut f = func(
        0,
        vec![
            seq(SeqType::Void, vec![Instr::Block { seq: 1 }, Instr::Return { code: 1 }]),
            seq(SeqType::Void, vec![other(2), Instr::Return { code: 3 }]),
        ],
    );
    inject_profiling_prints(&mut f, 5, 9);
    let print = |v: i32| vec![Instr::I32Const { value: v }, Instr::Call { func: 9 }];
    let mut entry = print(5);
    entry.push(Instr::Block { seq: 1 });
    entry.extend(print(-1));
    entry.push(Instr::Return { code: 1 });
    entry.extend(print(-1));
    assert_eq!(f.seqs[0].instrs, entry);
    let mut inner = vec![other(2)];
    inner.extend(print(-1));
    inner.push(Instr::Return { code: 3 });
    inner.extend(print(-1));
    assert_eq!(f.seqs[1].instrs, inner);
    let calls = f
        .seqs
        .iter()
        .flat_map(|s| s.instrs.iter())
        .filter(|i| **i == Instr::Call { func: 9 })
        .count();
    assert_eq!(calls, 1 + 2 + 2);
}

#[test]
fn reply_payload_holds_counter_twice() {
    let n: u64 = 0x0102030405060708;
    let r = reply_payload(n);
    assert_eq!(r.len(), 24);
    assert_eq!(&r[0..8], b"DIDL\x00\x02\x74\x74");
    assert_eq!(&r[8..16], &n.to_le_bytes());
    assert_eq!(&r[16..24], &n.to_le_bytes());
    assert_eq!(&reply_payload(0)[8..24], &[0u8; 16]);
}

#[test]
fn printer_and_getter_bodies() {
    let p = printer_body(3, 2, 0, 1);
    assert_eq!(p.len(), 15);
    assert_eq!(p[1], Instr::LocalGet { local: 0 });
    assert_eq!(p[9], Instr::I32Const { value: 3 });
    assert_eq!(p[14], Instr::Call { func: 1 });
    let g = getter_body(2, 0, 5, 6);
    assert_eq!(g[1], Instr::I64Const { value: 0x747402004c444944 });
    assert_eq!(g[3], Instr::I32Const { value: 8 });
    assert_eq!(g[6], Instr::I32Const { value: 16 });
    assert_eq!(g[10], Instr::I32Const { value: 24 });
    assert_eq!(&g[11..], &[Instr::Call { func: 5 }, Instr::Call { func: 6 }]);
}

fn sample_module() -> Module {
    Module {
        funcs: vec![
            Function::Imported,
            Function::Imported,
            Function::Imported,
            Function::Local(func(0, vec![seq(SeqType::Void, vec![other(1), Instr::Return { code: 2 }])])),
        ],
        globals: vec![Global { ty: ValType::I32, mutable: false, init: 5 }],
        memories: 1,
        exports: vec![],
    }
}

fn sample_host() -> HostImports {
    HostImports { debug_print: Some(0), reply_data_append: Some(1), reply: Some(2), memory: Some(0) }
}

#[test]
fn instrument_whole_module() {
    let mut m = sample_module();
    assert_eq!(instrument(&mut m, &sample_host()), Ok(()));
    assert_eq!(m.globals.len(), 3);
    assert_eq!(m.globals[1], Global { ty: ValType::I64, mutable: true, init: 0 });
    assert_eq!(m.globals[2], Global { ty: ValType::I32, mutable: true, init: 0 });
    assert_eq!(m.funcs.len(), 6);
    assert_eq!(m.exports.len(), 1);
    assert_eq!(m.exports[0].name, "canister_query __get_cycles");
    assert_eq!(m.exports[0].func, 5);
    match &m.funcs[3] {
        Function::Local(lf) => {
            let mut expected = vec![Instr::I32Const { value: 3 }, Instr::Call { func: 4 }, other(1)];
            expected.extend(snippet(1, 2));
            expected.extend(vec![Instr::I32Const { value: -1 }, Instr::Call { func: 4 }]);
            expected.push(Instr::Return { code: 2 });
            expected.extend(vec![Instr::I32Const { value: -1 }, Instr::Call { func: 4 }]);
            assert_eq!(lf.seqs[0].instrs, expected);
        }
        Function::Imported => panic!("local function became an import"),
    }
    match &m.funcs[4] {
        Function::Local(lf) => {
            assert_eq!(lf.params, vec![ValType::I32]);
            assert_eq!(lf.seqs[0].instrs, printer_body(2, 1, 0, 0));
        }
        Function::Imported => panic!("printer missing"),
    }
    match &m.funcs[5] {
        Function::Local(lf) => assert_eq!(lf.seqs[0].instrs, getter_body(1, 0, 1, 2)),
        Function::Imported => panic!("endpoint missing"),
    }
}

#[test]
fn instrument_without_memory_fails() {
    let mut m = sample_module();
    let host = HostImports { memory: None, ..sample_host() };
    assert_eq!(instrument(&mut m, &host), Err(InstrumentError::MissingHostCapability));
    assert_eq!(m.funcs.len(), 4);
    assert_eq!(m.globals.len(), 1);
    let host = HostImports { reply: Some(3), ..sample_host() };
    assert_eq!(instrument(&mut m, &host), Err(InstrumentError::MissingHostCapability));
}

#[test]
fn instrument_rejects_multi_value() {
    let mut m = sample_module();
    m.funcs.push(Function::Local(func(
        0,
        vec![seq(SeqType::Void, vec![Instr::Block { seq: 1 }]), seq(SeqType::Multi, vec![])],
    )));
    assert_eq!(instrument(&mut m, &sample_host()), Err(InstrumentError::UnsupportedStructure));
    assert_eq!(m.funcs.len(), 5);
    assert_eq!(m.globals.len(), 1);
    assert!(m.exports.is_empty());
}
