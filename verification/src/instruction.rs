//! One instruction of a code array (JVMS 6.5), decoded from its bytes: its width, whether it
//! decodes at all, and its typed operands.

use crate::bytecode::{ImmediateValue, InstructionOperands, LocalOperand, SwitchOperands, switch_padding};
use crate::bytes::{be16, be32, be64, read_u32, read_u64};
use crate::cpool::{CpSlotLayout, slot_at, slot_of, wf_layout, wf_slot};
use vstd::prelude::*;

verus! {


/// Why the bytes at a BCI are not an instruction.
#[derive(Clone, Copy, Debug, Eq, PartialEq)]
pub enum DecodeKind {
    /// The instruction's operands run past the end of the code array.
    UnexpectedEnd,
    /// An opcode no instruction has, a reserved byte that is not zero, a negative count, or a
    /// `wide` that wraps an opcode it cannot.
    InvalidInstruction,
    /// A `newarray` element type outside 4..=11.
    InvalidTag,
}

/// Why a decoded instruction has no width this reader publishes.
#[derive(Clone, Copy, Debug, Eq, PartialEq)]
pub enum AdapterKind {
    /// A `tableswitch` whose high is below its low.
    InvalidRange,
    /// A width that does not fit the code address space.
    WidthOverflow,
}

/// What the bytes at one BCI are.
pub enum Step {
    Width(nat),
    Fail(DecodeKind),
    Adapter(AdapterKind),
}

/// The width of an instruction whose width its opcode alone decides.
pub open spec fn fixed_width(op: u8) -> nat {
    if op == 0xb9 || op == 0xba || op == 0xc8 || op == 0xc9 {
        5
    } else if op == 0xc5 {
        4
    } else if op == 0x11 || op == 0x13 || op == 0x14 || op == 0x84 || (0x99 <= op <= 0xa8)
        || (0xb2 <= op <= 0xb8) || op == 0xbb || op == 0xbd || op == 0xc0 || op == 0xc1 || op == 0xc6 || op == 0xc7 {
        3
    } else if op == 0x10 || op == 0x12 || (0x15 <= op <= 0x19) || (0x36 <= op <= 0x3a) || op == 0xa9 || op == 0xbc {
        2
    } else {
        1
    }
}

/// The opcodes `wide` may wrap with a two-byte local index.
pub open spec fn wide_local_opcode(op: u8) -> bool {
    (0x15 <= op <= 0x19) || (0x36 <= op <= 0x3a) || op == 0xa9
}

/// The padding before a switch's four-byte fields.
pub open spec fn padding(bci: int) -> int {
    3 - (bci % 4)
}

/// A signed 32-bit field.
pub open spec fn i32_at(code: Seq<u8>, at: int) -> int {
    be32(code, at) as i32 as int
}

/// A signed 16-bit field.
pub open spec fn i16_at(code: Seq<u8>, at: int) -> int {
    be16(code, at) as i16 as int
}

pub open spec fn table_step(code: Seq<u8>, bci: int) -> Step {
    let f = bci + 1 + padding(bci);
    if f + 12 > code.len() {
        Step::Fail(DecodeKind::UnexpectedEnd)
    } else {
        let count = i32_at(code, f + 8) - i32_at(code, f + 4) + 1;
        if count < 0 {
            Step::Fail(DecodeKind::InvalidInstruction)
        } else if f + 12 + 4 * count > code.len() {
            Step::Fail(DecodeKind::UnexpectedEnd)
        } else if count == 0 {
            Step::Adapter(AdapterKind::InvalidRange)
        } else if 1 + padding(bci) + 12 + 4 * count > u32::MAX {
            Step::Adapter(AdapterKind::WidthOverflow)
        } else {
            Step::Width((1 + padding(bci) + 12 + 4 * count) as nat)
        }
    }
}

pub open spec fn lookup_step(code: Seq<u8>, bci: int) -> Step {
    let f = bci + 1 + padding(bci);
    if f + 8 > code.len() {
        Step::Fail(DecodeKind::UnexpectedEnd)
    } else {
        let n = i32_at(code, f + 4);
        if n < 0 {
            Step::Fail(DecodeKind::InvalidInstruction)
        } else if f + 8 + 8 * n > code.len() {
            Step::Fail(DecodeKind::UnexpectedEnd)
        } else if 1 + padding(bci) + 8 + 8 * n > u32::MAX {
            Step::Adapter(AdapterKind::WidthOverflow)
        } else {
            Step::Width((1 + padding(bci) + 8 + 8 * n) as nat)
        }
    }
}

pub open spec fn wide_step(code: Seq<u8>, bci: int) -> Step {
    if bci + 2 > code.len() {
        Step::Fail(DecodeKind::UnexpectedEnd)
    } else if code[bci + 1] == 0x84 {
        if bci + 6 > code.len() {
            Step::Fail(DecodeKind::UnexpectedEnd)
        } else {
            Step::Width(6)
        }
    } else if wide_local_opcode(code[bci + 1]) {
        if bci + 4 > code.len() {
            Step::Fail(DecodeKind::UnexpectedEnd)
        } else {
            Step::Width(4)
        }
    } else {
        Step::Fail(DecodeKind::InvalidInstruction)
    }
}

/// What the bytes at `bci` decode to (the opcode is the byte at `bci`).
pub open spec fn step_at(code: Seq<u8>, bci: int) -> Step {
    let op = code[bci];
    if op >= 0xca {
        Step::Fail(DecodeKind::InvalidInstruction)
    } else if op == 0xaa {
        table_step(code, bci)
    } else if op == 0xab {
        lookup_step(code, bci)
    } else if op == 0xc4 {
        wide_step(code, bci)
    } else if op == 0xba {
        if bci + 4 > code.len() {
            Step::Fail(DecodeKind::UnexpectedEnd)
        } else if code[bci + 3] != 0 {
            Step::Fail(DecodeKind::InvalidInstruction)
        } else if bci + 5 > code.len() {
            Step::Fail(DecodeKind::UnexpectedEnd)
        } else if code[bci + 4] != 0 {
            Step::Fail(DecodeKind::InvalidInstruction)
        } else {
            Step::Width(5)
        }
    } else if bci + fixed_width(op) > code.len() {
        Step::Fail(DecodeKind::UnexpectedEnd)
    } else if op == 0xb9 && code[bci + 4] != 0 {
        Step::Fail(DecodeKind::InvalidInstruction)
    } else if op == 0xbc && !(4 <= code[bci + 1] <= 11) {
        Step::Fail(DecodeKind::InvalidTag)
    } else {
        Step::Width(fixed_width(op))
    }
}

/// The constant-pool index an instruction's bytes carry (`ldc` one byte, the rest two).
pub open spec fn pool_index_of(op: u8, ins: Seq<u8>) -> Option<u16> {
    if op == 0x12 {
        if ins.len() >= 2 { Some(ins[1] as u16) } else { None }
    } else if op == 0x13 || op == 0x14 || (0xb2 <= op <= 0xb9) || op == 0xba || op == 0xbb || op == 0xbd
        || op == 0xc0 || op == 0xc1 || op == 0xc5 {
        if ins.len() >= 3 { Some(be16(ins, 1)) } else { None }
    } else {
        None
    }
}

/// The constant-pool index one instruction's bytes carry.
pub fn constant_pool_index(opcode: u8, instruction: &[u8]) -> (r: Option<u16>)
    ensures
        r == pool_index_of(opcode, instruction@),
{
    if opcode == 0x12 {
        if instruction.len() >= 2 { Some(instruction[1] as u16) } else { None }
    } else if opcode == 0x13 || opcode == 0x14 || (0xb2 <= opcode && opcode <= 0xb9) || opcode == 0xba
        || opcode == 0xbb || opcode == 0xbd || opcode == 0xc0 || opcode == 0xc1 || opcode == 0xc5 {
        if instruction.len() >= 3 {
            Some(((instruction[1] as u32) * 256 + instruction[2] as u32) as u16)
        } else {
            None
        }
    } else {
        None
    }
}

/// The opcode an instruction is: the one `wide` wraps, else its own.
pub open spec fn effective_of(code: Seq<u8>, bci: int) -> u8 {
    if code[bci] == 0xc4 && bci + 1 < code.len() {
        code[bci + 1]
    } else {
        code[bci]
    }
}

/// The relative branch offset a branch instruction encodes.
pub open spec fn branch_of(code: Seq<u8>, bci: int) -> Option<int> {
    let op = code[bci];
    if (0x99 <= op <= 0xa8) || op == 0xc6 || op == 0xc7 {
        Some(i16_at(code, bci + 1))
    } else if op == 0xc8 || op == 0xc9 {
        Some(i32_at(code, bci + 1))
    } else {
        None
    }
}

fn u16_in(code: &[u8], at: usize) -> (v: u16)
    requires
        at + 2 <= code@.len(),
    ensures
        v == be16(code@, at as int),
{
    ((code[at] as u32) * 256 + code[at + 1] as u32) as u16
}

fn u32_in(code: &[u8], at: usize) -> (v: u32)
    requires
        at + 4 <= code@.len(),
    ensures
        v == be32(code@, at as int),
{
    let v: u64 = (code[at] as u64) * 0x100_0000 + (code[at + 1] as u64) * 0x1_0000 + (code[at + 2] as u64) * 0x100 + code[at + 3] as u64;
    v as u32
}

/// The result of decoding the bytes at one BCI.
pub enum Decoded {
    Instruction { width: u32, operands: InstructionOperands },
    DecodeFailure { kind: DecodeKind },
    AdapterFailure { kind: AdapterKind },
}

/// The literal the slot of a measured pool that holds `index` is, when it is an `Integer`,
/// `Float`, `Long` or `Double`; none for any other slot, and for an index no slot holds.
pub open spec fn slot_literal(class: Seq<u8>, slots: Seq<CpSlotLayout>, index: u16) -> Option<ImmediateValue> {
    match slot_at(slots, index) {
        Some(s) => {
            let ps = s.payload_start as int;
            if s.tag == 3 {
                Some(ImmediateValue::Int(be32(class, ps) as i32))
            } else if s.tag == 4 {
                Some(ImmediateValue::Float(be32(class, ps)))
            } else if s.tag == 5 {
                Some(ImmediateValue::Long(be64(class, ps) as i64))
            } else if s.tag == 6 {
                Some(ImmediateValue::Double(be64(class, ps)))
            } else {
                None
            }
        },
        None => None,
    }
}

/// The literal an `ldc`-family index names in the measured pool.
fn literal_at(class: &[u8], slots: &[CpSlotLayout], index: u16) -> (v: Option<ImmediateValue>)
    requires
        wf_layout(class@, slots@),
    ensures
        v == slot_literal(class@, slots@, index),
{
    match slot_of(slots, index) {
        None => None,
        Some(s) => {
            proof {
                let p = choose|i: int| 0 <= i < slots@.len() && #[trigger] slots@[i].index == index;
                assert(wf_slot(class@, slots@[p]));
            }
            if s.tag == 3 {
                match read_u32(class, s.payload_start) {
                    Ok(v) => Some(ImmediateValue::Int(v as i32)),
                    Err(_) => None,
                }
            } else if s.tag == 4 {
                match read_u32(class, s.payload_start) {
                    Ok(v) => Some(ImmediateValue::Float(v)),
                    Err(_) => None,
                }
            } else if s.tag == 5 {
                match read_u64(class, s.payload_start) {
                    Ok(v) => Some(ImmediateValue::Long(v as i64)),
                    Err(_) => None,
                }
            } else if s.tag == 6 {
                match read_u64(class, s.payload_start) {
                    Ok(v) => Some(ImmediateValue::Double(v)),
                    Err(_) => None,
                }
            } else {
                None
            }
        },
    }
}

/// The immediate value an opcode encodes in itself.
pub open spec fn implicit_immediate(op: u8) -> Option<ImmediateValue> {
    if 0x02 <= op <= 0x08 {
        Some(ImmediateValue::Int((op - 3) as i32))
    } else if op == 0x09 || op == 0x0a {
        Some(ImmediateValue::Long((op - 9) as i64))
    } else if op == 0x0b {
        Some(ImmediateValue::Float(0))
    } else if op == 0x0c {
        Some(ImmediateValue::Float(0x3f80_0000))
    } else if op == 0x0d {
        Some(ImmediateValue::Float(0x4000_0000))
    } else if op == 0x0e {
        Some(ImmediateValue::Double(0))
    } else if op == 0x0f {
        Some(ImmediateValue::Double(0x3ff0_0000_0000_0000))
    } else {
        None
    }
}

fn implicit_value(op: u8) -> (v: Option<ImmediateValue>)
    ensures
        v == implicit_immediate(op),
{
    if 0x02 <= op && op <= 0x08 {
        Some(ImmediateValue::Int(op as i32 - 3))
    } else if op == 0x09 || op == 0x0a {
        Some(ImmediateValue::Long(op as i64 - 9))
    } else if op == 0x0b {
        Some(ImmediateValue::Float(0))
    } else if op == 0x0c {
        Some(ImmediateValue::Float(0x3f80_0000))
    } else if op == 0x0d {
        Some(ImmediateValue::Float(0x4000_0000))
    } else if op == 0x0e {
        Some(ImmediateValue::Double(0))
    } else if op == 0x0f {
        Some(ImmediateValue::Double(0x3ff0_0000_0000_0000))
    } else {
        None
    }
}

/// The value the instruction at `bci` pushes directly: a `bipush`/`sipush` operand, the literal
/// an `ldc`-family index names, or the constant an opcode encodes in itself.
pub open spec fn immediate_of(code: Seq<u8>, bci: int, class: Seq<u8>, slots: Seq<CpSlotLayout>) -> Option<ImmediateValue> {
    let op = code[bci];
    if op == 0x10 {
        Some(ImmediateValue::Int(code[bci + 1] as i8 as i32))
    } else if op == 0x11 {
        Some(ImmediateValue::Int(be16(code, bci + 1) as i16 as i32))
    } else if op == 0x12 {
        slot_literal(class, slots, code[bci + 1] as u16)
    } else if op == 0x13 || op == 0x14 {
        slot_literal(class, slots, be16(code, bci + 1))
    } else {
        implicit_immediate(op)
    }
}

/// The local variable slot the instruction at `bci` names.
pub open spec fn local_of(code: Seq<u8>, bci: int) -> Option<LocalOperand> {
    let op = code[bci];
    if 0x1a <= op <= 0x2d {
        Some(LocalOperand { index: ((op - 0x1a) % 4) as u16, wide: false })
    } else if 0x3b <= op <= 0x4e {
        Some(LocalOperand { index: ((op - 0x3b) % 4) as u16, wide: false })
    } else if wide_local_opcode(op) || op == 0x84 {
        Some(LocalOperand { index: code[bci + 1] as u16, wide: false })
    } else if op == 0xc4 {
        Some(LocalOperand { index: be16(code, bci + 2), wide: true })
    } else {
        None
    }
}

/// The signed increment an `iinc` (plain or `wide`) encodes.
pub open spec fn increment_of(code: Seq<u8>, bci: int) -> Option<i32> {
    let op = code[bci];
    if op == 0x84 {
        Some(code[bci + 2] as i8 as i32)
    } else if op == 0xc4 && code[bci + 1] == 0x84 {
        Some(be16(code, bci + 4) as i16 as i32)
    } else {
        None
    }
}

/// The payload of a `tableswitch` whose four-byte fields start at `f`: the default offset, the
/// key range, and one offset per key.
pub open spec fn table_agrees(code: Seq<u8>, f: int, default_offset: i32, low: i32, high: i32, offsets: Seq<i32>) -> bool {
    &&& default_offset == i32_at(code, f)
    &&& low == i32_at(code, f + 4)
    &&& high == i32_at(code, f + 8)
    &&& offsets.len() == high - low + 1
    &&& forall|k: int| 0 <= k < offsets.len() ==> #[trigger] offsets[k] == i32_at(code, f + 12 + 4 * k)
}

/// The payload of a `lookupswitch` whose four-byte fields start at `f`: the default offset and
/// the match-offset pairs.
pub open spec fn lookup_agrees(code: Seq<u8>, f: int, default_offset: i32, pairs: Seq<(i32, i32)>) -> bool {
    &&& default_offset == i32_at(code, f)
    &&& pairs.len() == i32_at(code, f + 4)
    &&& forall|k: int| 0 <= k < pairs.len() ==> pair_agrees(code, f, k, #[trigger] pairs[k])
}

/// Pair `k` of a `lookupswitch` whose four-byte fields start at `f`: its match and its offset.
pub open spec fn pair_agrees(code: Seq<u8>, f: int, k: int, pair: (i32, i32)) -> bool {
    pair.0 == i32_at(code, f + 8 + 8 * k) && pair.1 == i32_at(code, f + 12 + 8 * k)
}

/// The payload of the switch at `bci`, read after its padding; none for any other instruction.
pub open spec fn switch_agrees(code: Seq<u8>, bci: int, s: Option<SwitchOperands>) -> bool {
    let op = code[bci];
    let f = bci + 1 + padding(bci);
    if op == 0xaa {
        match s {
            Some(SwitchOperands::Table { default_offset, low, high, offsets }) => table_agrees(code, f, default_offset, low, high, offsets@),
            _ => false,
        }
    } else if op == 0xab {
        match s {
            Some(SwitchOperands::Lookup { default_offset, pairs }) => lookup_agrees(code, f, default_offset, pairs@),
            _ => false,
        }
    } else {
        s is None
    }
}

/// The typed operands of the instruction of width `width` at `bci`, the literals an
/// `ldc`-family index names read from the class's measured constant pool.
pub open spec fn operands_agree(code: Seq<u8>, bci: int, width: int, class: Seq<u8>, slots: Seq<CpSlotLayout>, o: InstructionOperands) -> bool {
    let op = code[bci];
    &&& o.immediate == immediate_of(code, bci, class, slots)
    &&& o.local == local_of(code, bci)
    &&& o.increment == increment_of(code, bci)
    &&& o.constant_pool_index == pool_index_of(op, code.subrange(bci, bci + width))
    &&& (branch_of(code, bci) matches Some(b) ==> o.branch_offset == Some(b as i32))
    &&& (branch_of(code, bci) is None ==> o.branch_offset is None)
    &&& switch_agrees(code, bci, o.switch)
    &&& o.effective_opcode == effective_of(code, bci)
    &&& o.atype == (if op == 0xbc { Some(code[bci + 1]) } else { None })
    &&& o.dimensions == (if op == 0xc5 { Some(code[bci + 3]) } else { None })
    &&& o.interface_count == (if op == 0xb9 { Some(code[bci + 3]) } else { None })
}

/// The `count` jump offsets of a `tableswitch`, from `at` on.
fn table_offsets(code: &[u8], at: usize, count: usize) -> (v: Vec<i32>)
    requires
        at + 4 * count <= code@.len(),
    ensures
        v@.len() == count,
        forall|k: int| 0 <= k < count ==> #[trigger] v@[k] == i32_at(code@, at + 4 * k),
{
    let n = code.len();
    let mut offsets: Vec<i32> = Vec::new();
    let mut k: usize = 0;
    while k < count
        invariant
            n == code@.len(),
            k <= count,
            at + 4 * count <= code@.len(),
            offsets@.len() == k,
            forall|j: int| 0 <= j < k ==> #[trigger] offsets@[j] == i32_at(code@, at + 4 * j),
        decreases count - k,
    {
        assert(4 * k + 4 <= 4 * count) by (nonlinear_arith)
            requires
                k < count,
        ;
        offsets.push(u32_in(code, at + 4 * k) as i32);
        k = k + 1;
    }
    offsets
}

/// The `count` match-offset pairs of a `lookupswitch`, from `at` on.
fn lookup_pairs(code: &[u8], at: usize, count: usize) -> (v: Vec<(i32, i32)>)
    requires
        at + 8 * count <= code@.len(),
    ensures
        v@.len() == count,
        forall|k: int| 0 <= k < count ==> #[trigger] v@[k].0 == i32_at(code@, at + 8 * k) && v@[k].1 == i32_at(code@, at + 8 * k + 4),
{
    let n = code.len();
    let mut pairs: Vec<(i32, i32)> = Vec::new();
    let mut k: usize = 0;
    while k < count
        invariant
            n == code@.len(),
            k <= count,
            at + 8 * count <= code@.len(),
            pairs@.len() == k,
            forall|j: int| 0 <= j < k ==> #[trigger] pairs@[j].0 == i32_at(code@, at + 8 * j) && pairs@[j].1 == i32_at(code@, at + 8 * j + 4),
        decreases count - k,
    {
        assert(8 * k + 8 <= 8 * count) by (nonlinear_arith)
            requires
                k < count,
        ;
        let key = u32_in(code, at + 8 * k) as i32;
        let offset = u32_in(code, at + 8 * k + 4) as i32;
        pairs.push((key, offset));
        k = k + 1;
    }
    pairs
}

/// Decodes the instruction at `bci`: its width and typed operands, or why it has none.
#[verifier::rlimit(60)]
pub fn decode_instruction(code: &[u8], bci: usize, class: &[u8], slots: &[CpSlotLayout]) -> (r: Decoded)
    requires
        bci < code@.len(),
        code@.len() <= u32::MAX,
        wf_layout(class@, slots@),
    ensures
        r matches Decoded::Instruction { width, operands } ==> step_at(code@, bci as int) == Step::Width(width as nat)
            && operands.effective_opcode == effective_of(code@, bci as int)
            && operands.constant_pool_index == pool_index_of(code@[bci as int], code@.subrange(bci as int, bci + width))
            && (branch_of(code@, bci as int) matches Some(o) ==> operands.branch_offset == Some(o as i32))
            && (branch_of(code@, bci as int) is None ==> operands.branch_offset is None)
            && operands_agree(code@, bci as int, width as int, class@, slots@, operands),
        r matches Decoded::DecodeFailure { kind } ==> step_at(code@, bci as int) == Step::Fail(kind),
        r matches Decoded::AdapterFailure { kind } ==> step_at(code@, bci as int) == Step::Adapter(kind),
{
    let n = code.len();
    let op = code[bci];
    if op >= 0xca {
        return Decoded::DecodeFailure { kind: DecodeKind::InvalidInstruction };
    }
    let mut operands = InstructionOperands {
        immediate: implicit_value(op),
        local: None,
        increment: None,
        constant_pool_index: None,
        branch_offset: None,
        switch: None,
        effective_opcode: op,
        atype: None,
        dimensions: None,
        interface_count: None,
    };
    if 0x1a <= op && op <= 0x2d {
        operands.local = Some(LocalOperand { index: ((op - 0x1a) % 4) as u16, wide: false });
    } else if 0x3b <= op && op <= 0x4e {
        operands.local = Some(LocalOperand { index: ((op - 0x3b) % 4) as u16, wide: false });
    }
    let width: u32;
    if op == 0xaa || op == 0xab {
        let pad = switch_padding(bci as u32) as usize;
        assert(pad == padding(bci as int));
        let scalars: usize = if op == 0xaa { 12 } else { 8 };
        if n - bci - 1 < pad {
            return Decoded::DecodeFailure { kind: DecodeKind::UnexpectedEnd };
        }
        let f = bci + 1 + pad;
        if n - f < scalars {
            return Decoded::DecodeFailure { kind: DecodeKind::UnexpectedEnd };
        }
        let default_offset = u32_in(code, f) as i32;
        if op == 0xaa {
            let low = u32_in(code, f + 4) as i32;
            let high = u32_in(code, f + 8) as i32;
            let count: i64 = high as i64 - low as i64 + 1;
            if count < 0 {
                return Decoded::DecodeFailure { kind: DecodeKind::InvalidInstruction };
            }
            if (count as u64) > ((n - f - 12) / 4) as u64 {
                return Decoded::DecodeFailure { kind: DecodeKind::UnexpectedEnd };
            }
            if count == 0 {
                return Decoded::AdapterFailure { kind: AdapterKind::InvalidRange };
            }
            let c = count as usize;
            let total: u64 = 1 + pad as u64 + 12 + 4 * (c as u64);
            if total > u32::MAX as u64 {
                return Decoded::AdapterFailure { kind: AdapterKind::WidthOverflow };
            }
            width = total as u32;
            let offsets = table_offsets(code, f + 12, c);
            proof {
                assert(f == bci + 1 + padding(bci as int));
                assert(offsets@.len() == high - low + 1);
                assert forall|k: int| 0 <= k < offsets@.len() implies #[trigger] offsets@[k] == i32_at(code@, f + 12 + 4 * k) by {
                }
            }
            assert(table_agrees(code@, f as int, default_offset, low, high, offsets@));
            operands.switch = Some(SwitchOperands::Table { default_offset, low, high, offsets });
        } else {
            let count = u32_in(code, f + 4) as i32;
            if count < 0 {
                return Decoded::DecodeFailure { kind: DecodeKind::InvalidInstruction };
            }
            if (count as u64) > ((n - f - 8) / 8) as u64 {
                return Decoded::DecodeFailure { kind: DecodeKind::UnexpectedEnd };
            }
            let c = count as usize;
            let total: u64 = 1 + pad as u64 + 8 + 8 * (c as u64);
            if total > u32::MAX as u64 {
                return Decoded::AdapterFailure { kind: AdapterKind::WidthOverflow };
            }
            width = total as u32;
            let pairs = lookup_pairs(code, f + 8, c);
            proof {
                assert(f == bci + 1 + padding(bci as int));
                assert(pairs@.len() == i32_at(code@, f + 4));
                assert forall|k: int| 0 <= k < pairs@.len() implies pair_agrees(code@, f as int, k, #[trigger] pairs@[k]) by {
                    let at: int = (f + 8) as int;
                    assert(pairs@[k].0 == i32_at(code@, at + 8 * k) && pairs@[k].1 == i32_at(code@, at + 8 * k + 4));
                    assert(at + 8 * k + 4 == f + 12 + 8 * k);
                    assert(at + 8 * k == f + 8 + 8 * k);
                }
            }
            assert(lookup_agrees(code@, f as int, default_offset, pairs@));
            operands.switch = Some(SwitchOperands::Lookup { default_offset, pairs });
        }
    } else if op == 0xc4 {
        if n - bci < 2 {
            return Decoded::DecodeFailure { kind: DecodeKind::UnexpectedEnd };
        }
        let wrapped = code[bci + 1];
        operands.effective_opcode = wrapped;
        if wrapped == 0x84 {
            if n - bci < 6 {
                return Decoded::DecodeFailure { kind: DecodeKind::UnexpectedEnd };
            }
            operands.local = Some(LocalOperand { index: u16_in(code, bci + 2), wide: true });
            operands.increment = Some(u16_in(code, bci + 4) as i16 as i32);
            width = 6;
        } else if (0x15 <= wrapped && wrapped <= 0x19) || (0x36 <= wrapped && wrapped <= 0x3a) || wrapped == 0xa9 {
            if n - bci < 4 {
                return Decoded::DecodeFailure { kind: DecodeKind::UnexpectedEnd };
            }
            operands.local = Some(LocalOperand { index: u16_in(code, bci + 2), wide: true });
            width = 4;
        } else {
            return Decoded::DecodeFailure { kind: DecodeKind::InvalidInstruction };
        }
    } else if op == 0xba {
        if n - bci < 4 {
            return Decoded::DecodeFailure { kind: DecodeKind::UnexpectedEnd };
        }
        if code[bci + 3] != 0 {
            return Decoded::DecodeFailure { kind: DecodeKind::InvalidInstruction };
        }
        if n - bci < 5 {
            return Decoded::DecodeFailure { kind: DecodeKind::UnexpectedEnd };
        }
        if code[bci + 4] != 0 {
            return Decoded::DecodeFailure { kind: DecodeKind::InvalidInstruction };
        }
        width = 5;
    } else {
        let w: u32 = if op == 0xb9 || op == 0xc8 || op == 0xc9 {
            5
        } else if op == 0xc5 {
            4
        } else if op == 0x11 || op == 0x13 || op == 0x14 || op == 0x84 || (0x99 <= op && op <= 0xa8)
            || (0xb2 <= op && op <= 0xb8) || op == 0xbb || op == 0xbd || op == 0xc0 || op == 0xc1 || op == 0xc6 || op == 0xc7 {
            3
        } else if op == 0x10 || op == 0x12 || (0x15 <= op && op <= 0x19) || (0x36 <= op && op <= 0x3a) || op == 0xa9 || op == 0xbc {
            2
        } else {
            1
        };
        assert(w == fixed_width(op));
        if (n - bci) < w as usize {
            return Decoded::DecodeFailure { kind: DecodeKind::UnexpectedEnd };
        }
        if op == 0xb9 && code[bci + 4] != 0 {
            return Decoded::DecodeFailure { kind: DecodeKind::InvalidInstruction };
        }
        if op == 0xbc && !(4 <= code[bci + 1] && code[bci + 1] <= 11) {
            return Decoded::DecodeFailure { kind: DecodeKind::InvalidTag };
        }
        width = w;
        if op == 0x10 {
            operands.immediate = Some(ImmediateValue::Int(code[bci + 1] as i8 as i32));
        } else if op == 0x11 {
            operands.immediate = Some(ImmediateValue::Int(u16_in(code, bci + 1) as i16 as i32));
        } else if (0x15 <= op && op <= 0x19) || (0x36 <= op && op <= 0x3a) || op == 0xa9 {
            operands.local = Some(LocalOperand { index: code[bci + 1] as u16, wide: false });
        } else if op == 0x84 {
            operands.local = Some(LocalOperand { index: code[bci + 1] as u16, wide: false });
            operands.increment = Some(code[bci + 2] as i8 as i32);
        } else if op == 0xbc {
            operands.atype = Some(code[bci + 1]);
        } else if op == 0xc5 {
            operands.dimensions = Some(code[bci + 3]);
        } else if op == 0xb9 {
            operands.interface_count = Some(code[bci + 3]);
        } else if (0x99 <= op && op <= 0xa8) || op == 0xc6 || op == 0xc7 {
            operands.branch_offset = Some(u16_in(code, bci + 1) as i16 as i32);
        } else if op == 0xc8 || op == 0xc9 {
            operands.branch_offset = Some(u32_in(code, bci + 1) as i32);
        }
    }
    let ins = vstd::slice::slice_subrange(code, bci, bci + width as usize);
    operands.constant_pool_index = constant_pool_index(op, ins);
    if op == 0x12 || op == 0x13 || op == 0x14 {
        match operands.constant_pool_index {
            Some(index) => operands.immediate = literal_at(class, slots, index),
            None => {},
        }
    }
    Decoded::Instruction { width, operands }
}


/// A decoded width stays inside the code array and is at least one byte.
pub proof fn lemma_step_fits(code: Seq<u8>, bci: int)
    requires
        0 <= bci < code.len(),
    ensures
        step_at(code, bci) matches Step::Width(w) ==> 1 <= w && bci + w <= code.len(),
{
}

} // verus!
