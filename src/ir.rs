//! The module representation that the instrumentation passes work on.
use vstd::prelude::*;

verus! {

/// The declared result of an instruction sequence.
#[derive(Clone, Copy, Debug, PartialEq, Eq, Structural)]
pub enum SeqType {
    Void,
    Single,
    Multi,
}

/// A numeric value type of a global, a parameter or a local.
#[derive(Clone, Copy, Debug, PartialEq, Eq, Structural)]
pub enum ValType {
    I32,
    I64,
}

/// One instruction. The kinds that the passes discriminate have their own
/// variant; every other instruction of a decoded module is `Other`, carrying
/// a handle by which its owner can find the original again.
#[derive(Clone, Copy, Debug, PartialEq, Eq, Structural)]
pub enum Instr {
    Block { seq: usize },
    Loop { seq: usize },
    IfElse { consequent: usize, alternative: usize },
    Br { code: u64 },
    BrIf { code: u64 },
    BrTable { code: u64 },
    Return { code: u64 },
    Unreachable { code: u64 },
    GlobalGet { global: usize },
    GlobalSet { global: usize },
    LocalGet { local: usize },
    I32Const { value: i32 },
    I64Const { value: i64 },
    I32Add,
    I64Add,
    StoreI32 { memory: usize, align: u32 },
    StoreI64 { memory: usize, align: u32 },
    Call { func: usize },
    Other { code: u64 },
}

/// An instruction sequence with its declared result.
#[derive(Clone, Debug)]
pub struct InstrSeq {
    pub ty: SeqType,
    pub instrs: Vec<Instr>,
}

/// A function with a body: its sequences, indexed by id, and the entry one.
#[derive(Clone, Debug)]
pub struct LocalFunction {
    pub params: Vec<ValType>,
    pub locals: Vec<ValType>,
    pub entry: usize,
    pub seqs: Vec<InstrSeq>,
}

/// A function of the module: imported from the host, or local.
#[derive(Clone, Debug)]
pub enum Function {
    Imported,
    Local(LocalFunction),
}

/// A module-wide mutable cell.
#[derive(Clone, Copy, Debug, PartialEq, Eq, Structural)]
pub struct Global {
    pub ty: ValType,
    pub mutable: bool,
    pub init: i64,
}

/// A function exported under a name.
#[derive(Clone, Debug)]
pub struct Export {
    pub name: String,
    pub func: usize,
}

/// Functions (indexed by id), globals (indexed by id), memories and exports.
#[derive(Clone, Debug)]
pub struct Module {
    pub funcs: Vec<Function>,
    pub globals: Vec<Global>,
    pub memories: usize,
    pub exports: Vec<Export>,
}

/// The sequences that an instruction owns.
pub open spec fn children(i: Instr) -> Seq<usize> {
    match i {
        Instr::Block { seq } => seq![seq],
        Instr::Loop { seq } => seq![seq],
        Instr::IfElse { consequent, alternative } => seq![consequent, alternative],
        _ => seq![],
    }
}

/// The declared result types of a function's sequences, by id.
pub open spec fn seq_types(seqs: Seq<InstrSeq>) -> Seq<SeqType> {
    seqs.map_values(|s: InstrSeq| s.ty)
}

/// Every sequence id that an instruction of `instrs` names is below `n`.
pub open spec fn children_below(instrs: Seq<Instr>, n: nat) -> bool {
    forall|k: int, j: int|
        0 <= k < instrs.len() && 0 <= j < children(instrs[k]).len() ==> children(instrs[k])[j] < n
}

impl LocalFunction {
    /// The entry and every child sequence id name a sequence of the function.
    pub open spec fn wf(&self) -> bool {
        &&& self.entry < self.seqs.len()
        &&& forall|i: int| 0 <= i < self.seqs.len() ==> children_below(#[trigger] self.seqs[i].instrs@, self.seqs.len() as nat)
    }
}

impl Module {
    /// Every local function is well formed.
    pub open spec fn wf(&self) -> bool {
        forall|f: int| 0 <= f < self.funcs.len() ==> match #[trigger] self.funcs[f] {
            Function::Local(lf) => lf.wf(),
            Function::Imported => true,
        }
    }
}

} // verus!
