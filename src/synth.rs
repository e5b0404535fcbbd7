//! The two functions that instrumentation adds: the trace printer and the
//! diagnostic endpoint that replies with the cost counter.
use vstd::prelude::*;
use crate::ir::Instr;

verus! {

/// The reply header at offset 0: "DIDL", no type table entries, two values
/// of type nat64 (0x74), read as a little-endian 64-bit word.
pub const REPLY_HEADER: u64 = 0x747402004c444944;

/// Offset of the first copy of the counter in the reply.
pub const FIRST_COPY: i32 = 8;

/// Offset of the second copy of the counter in the reply.
pub const SECOND_COPY: i32 = 16;

/// Length of the reply in bytes.
pub const REPLY_LEN: i32 = 24;

/// How far the log cursor advances per trace record.
pub const RECORD_STRIDE: i32 = 3;

/// The `len` low-order bytes of `n`, least significant first.
pub open spec fn le_bytes(n: nat, len: nat) -> Seq<u8>
    decreases len,
{
    if len == 0 {
        seq![]
    } else {
        seq![(n % 256) as u8] + le_bytes(n / 256, (len - 1) as nat)
    }
}

/// The bytes that the diagnostic endpoint replies with when the counter
/// holds `n`.
pub open spec fn reply_of(n: u64) -> Seq<u8> {
    le_bytes(REPLY_HEADER as nat, 8) + le_bytes(n as nat, 8) + le_bytes(n as nat, 8)
}

/// Appends the eight little-endian bytes of `n` to `out`.
fn push_le64(out: &mut Vec<u8>, n: u64)
    ensures
        final(out)@ == old(out)@ + le_bytes(n as nat, 8),
{
    let ghost head = old(out)@;
    let mut x: u64 = n;
    let mut k: u64 = 0;
    while k < 8
        invariant
            k <= 8,
            out@ + le_bytes(x as nat, (8 - k) as nat) == head + le_bytes(n as nat, 8),
        decreases 8 - k,
    {
        proof {
            let rest = le_bytes(x as nat, (8 - k) as nat);
            assert(rest == seq![(x as nat % 256) as u8] + le_bytes((x / 256) as nat, (8 - k - 1) as nat));
        }
        out.push((x % 256) as u8);
        x = x / 256;
        k = k + 1;
        proof {
            assert(out@ + le_bytes(x as nat, (8 - k) as nat) =~= head + le_bytes(n as nat, 8));
        }
    }
    proof {
        assert(out@ + le_bytes(x as nat, 0) =~= out@);
    }
}

/// The diagnostic endpoint's reply when the counter holds `n`: the header,
/// then `n` twice, each as eight little-endian bytes.
pub fn reply_payload(n: u64) -> (r: Vec<u8>)
    ensures
        r@ == reply_of(n),
        r@.len() == REPLY_LEN,
        r@.subrange(FIRST_COPY as int, SECOND_COPY as int) == le_bytes(n as nat, 8),
        r@.subrange(SECOND_COPY as int, REPLY_LEN as int) == le_bytes(n as nat, 8),
{
    let mut out: Vec<u8> = Vec::new();
    push_le64(&mut out, REPLY_HEADER);
    push_le64(&mut out, n);
    push_le64(&mut out, n);
    proof {
        lemma_le_bytes_len(REPLY_HEADER as nat, 8);
        lemma_le_bytes_len(n as nat, 8);
        assert(out@.subrange(8, 16) =~= le_bytes(n as nat, 8));
        assert(out@.subrange(16, 24) =~= le_bytes(n as nat, 8));
    }
    out
}

proof fn lemma_le_bytes_len(n: nat, len: nat)
    ensures
        le_bytes(n, len).len() == len,
    decreases len,
{
    if len > 0 {
        lemma_le_bytes_len(n / 256, (len - 1) as nat);
    }
}

/// The body of the printer, whose one parameter is local 0: store the value
/// at the log cursor, store the counter one byte past it, advance the cursor
/// by the record stride, then hand memory from 0 to the cursor to `print`.
pub open spec fn printer_body_of(log_size: usize, counter: usize, memory: usize, print: usize) -> Seq<Instr> {
    seq![
        Instr::GlobalGet { global: log_size },
        Instr::LocalGet { local: 0 },
        Instr::StoreI32 { memory, align: 4 },
        Instr::GlobalGet { global: log_size },
        Instr::I32Const { value: 1 },
        Instr::I32Add,
        Instr::GlobalGet { global: counter },
        Instr::StoreI64 { memory, align: 8 },
        Instr::GlobalGet { global: log_size },
        Instr::I32Const { value: RECORD_STRIDE },
        Instr::I32Add,
        Instr::GlobalSet { global: log_size },
        Instr::I32Const { value: 0 },
        Instr::GlobalGet { global: log_size },
        Instr::Call { func: print },
    ]
}

/// The body of the diagnostic endpoint: write the header at 0 and the
/// counter at both copy offsets, then append the reply and send it.
pub open spec fn getter_body_of(counter: usize, memory: usize, reply_data: usize, reply: usize) -> Seq<Instr> {
    seq![
        Instr::I32Const { value: 0 },
        Instr::I64Const { value: REPLY_HEADER as i64 },
        Instr::StoreI64 { memory, align: 8 },
        Instr::I32Const { value: FIRST_COPY },
        Instr::GlobalGet { global: counter },
        Instr::StoreI64 { memory, align: 8 },
        Instr::I32Const { value: SECOND_COPY },
        Instr::GlobalGet { global: counter },
        Instr::StoreI64 { memory, align: 8 },
        Instr::I32Const { value: 0 },
        Instr::I32Const { value: REPLY_LEN },
        Instr::Call { func: reply_data },
        Instr::Call { func: reply },
    ]
}

/// Builds the printer's body.
pub fn printer_body(log_size: usize, counter: usize, memory: usize, print: usize) -> (r: Vec<Instr>)
    ensures
        r@ == printer_body_of(log_size, counter, memory, print),
{
    let r = vec![
        Instr::GlobalGet { global: log_size },
        Instr::LocalGet { local: 0 },
        Instr::StoreI32 { memory, align: 4 },
        Instr::GlobalGet { global: log_size },
        Instr::I32Const { value: 1 },
        Instr::I32Add,
        Instr::GlobalGet { global: counter },
        Instr::StoreI64 { memory, align: 8 },
        Instr::GlobalGet { global: log_size },
        Instr::I32Const { value: RECORD_STRIDE },
        Instr::I32Add,
        Instr::GlobalSet { global: log_size },
        Instr::I32Const { value: 0 },
        Instr::GlobalGet { global: log_size },
        Instr::Call { func: print },
    ];
    assert(r@ =~= printer_body_of(log_size, counter, memory, print));
    r
}

/// Builds the diagnostic endpoint's body.
pub fn getter_body(counter: usize, memory: usize, reply_data: usize, reply: usize) -> (r: Vec<Instr>)
    ensures
        r@ == getter_body_of(counter, memory, reply_data, reply),
{
    let r = vec![
        Instr::I32Const { value: 0 },
        Instr::I64Const { value: REPLY_HEADER as i64 },
        Instr::StoreI64 { memory, align: 8 },
        Instr::I32Const { value: FIRST_COPY },
        Instr::GlobalGet { global: counter },
        Instr::StoreI64 { memory, align: 8 },
        Instr::I32Const { value: SECOND_COPY },
        Instr::GlobalGet { global: counter },
        Instr::StoreI64 { memory, align: 8 },
        Instr::I32Const { value: 0 },
        Instr::I32Const { value: REPLY_LEN },
        Instr::Call { func: reply_data },
        Instr::Call { func: reply },
    ];
    assert(r@ =~= getter_body_of(counter, memory, reply_data, reply));
    r
}

} // verus!
