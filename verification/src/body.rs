//! One method body decoded from its `Code` attribute content: the exception table first, then
//! the instruction stream, each step billed and polled, stopping with the reliable prefix.

use crate::budget::{Budget, CountedBudgetDimension, Limits, UsageSnapshot, counted_refusal};
use crate::bytecode::{BytecodeStop, ExceptionHandlerFact, InstructionFact, InstructionOperands, LocalDebugName, LocalDebugTable};
use crate::bytes::{be16, be32, read_u32};
use crate::cpool::{CpEntryFacts, CpSlotLayout, cp_utf8, wf_layout};
use crate::error::{Error, Result, is_invalid, is_stop};
use crate::instruction::{AdapterKind, DecodeKind, Decoded, Step, decode_instruction, operands_agree, pool_index_of, step_at};
use crate::model::{ByteSpan, ExecutionReport, TerminationReason};
use vstd::prelude::*;

verus! {


/// The fixed fields and table positions of one `Code` attribute content (JVMS 4.7.3).
#[derive(Clone, Copy, Debug, Eq, PartialEq)]
pub struct CodeLayout {
    pub max_stack: u16,
    pub max_locals: u16,
    pub code_length: u32,
    pub handler_count: u16,
    /// Content offset of the first exception-table record.
    pub handlers_at: usize,
    /// Content offset of the nested attribute count.
    pub attributes_at: usize,
}

/// The layout of a content whose fixed fields and tables fit it.
pub open spec fn layout_of(c: Seq<u8>, l: CodeLayout) -> bool {
    &&& 8 + l.code_length + 2 <= c.len()
    &&& l.max_stack == be16(c, 0)
    &&& l.max_locals == be16(c, 2)
    &&& l.code_length == be32(c, 4)
    &&& l.handler_count == be16(c, 8 + l.code_length)
    &&& l.handlers_at == 8 + l.code_length + 2
    &&& l.attributes_at == l.handlers_at + 8 * l.handler_count
    &&& l.attributes_at + 2 <= c.len()
}

/// `count` nested attributes from content offset `at` on: each one's six-byte header, and the
/// content its length declares, inside the content.
pub open spec fn nested_fit(c: Seq<u8>, at: int, count: int) -> bool
    decreases count,
{
    if count <= 0 {
        true
    } else {
        &&& at + 6 <= c.len()
        &&& at + 6 + be32(c, at + 2) <= c.len()
        &&& nested_fit(c, at + 6 + be32(c, at + 2), count - 1)
    }
}

/// A content's fixed fields, code array, exception table and nested attributes fit it.
pub open spec fn layout_fits(c: Seq<u8>) -> bool {
    let attributes_at = 8 + be32(c, 4) + 2 + 8 * be16(c, 8 + be32(c, 4));
    &&& c.len() >= 8
    &&& 8 + be32(c, 4) + 2 <= c.len()
    &&& attributes_at + 2 <= c.len()
    &&& nested_fit(c, attributes_at + 2, be16(c, attributes_at) as int)
}

/// The code array of a content, located by its own length field.
pub open spec fn code_in(c: Seq<u8>) -> Seq<u8> {
    c.subrange(8, 8 + be32(c, 4))
}

/// The code array of a content.
pub open spec fn code_of(c: Seq<u8>, l: CodeLayout) -> Seq<u8> {
    c.subrange(8, 8 + l.code_length)
}

fn structure_error(position: usize) -> (e: Error)
    ensures
        is_invalid(e, "classfile_decode"@),
{
    Error::invalid_input_owned(
        "classfile_decode",
        crate::text::prefixed_number("noak decode failed: kind=unexpected end of input, context=attribute content, position=", position as u64),
    )
}

/// Reads the fixed fields of a `Code` content and measures its tables. A code array longer than
/// the content is `classfile_code_out_of_bounds`; tables the content cannot hold are
/// `classfile_decode`.
pub fn read_code_layout(content: &[u8]) -> (r: Result<CodeLayout>)
    ensures
        r is Ok <==> layout_fits(content@),
        r matches Ok(l) ==> layout_of(content@, l),
        r matches Err(e) ==> is_invalid(e, "classfile_decode"@) || is_invalid(e, "classfile_code_out_of_bounds"@)
            || is_invalid(e, "classfile_span_overflow"@),
{
    let n = content.len();
    let code_length = read_u32(content, 4)?;
    if code_length as u64 > (n - 8) as u64 {
        return Err(Error::invalid_input("classfile_code_out_of_bounds", "code array exceeds Code attribute content"));
    }
    let code_end = 8 + code_length as usize;
    if n - code_end < 2 {
        return Err(structure_error(code_end));
    }
    let handler_count = ((content[code_end] as u32) * 256 + content[code_end + 1] as u32) as u16;
    let handlers_at = code_end + 2;
    let table = 8 * handler_count as usize;
    if n - handlers_at < table + 2 {
        return Err(structure_error(handlers_at));
    }
    let attributes_at = handlers_at + table;
    let count = u16_at(content, attributes_at);
    let mut at = attributes_at + 2;
    let mut left = count;
    while left > 0
        invariant
            n == content@.len(),
            at <= n,
            n >= 8,
            8 + be32(content@, 4) + 2 <= n,
            attributes_at == 8 + be32(content@, 4) + 2 + 8 * be16(content@, 8 + be32(content@, 4)),
            attributes_at + 2 <= n,
            count == be16(content@, attributes_at as int),
            nested_fit(content@, attributes_at + 2, count as int) == nested_fit(content@, at as int, left as int),
        decreases left,
    {
        if n - at < 6 {
            return Err(structure_error(at));
        }
        let length = read_u32(content, at + 2)?;
        if length as u64 > (n - at - 6) as u64 {
            return Err(structure_error(at + 6));
        }
        at = at + 6 + length as usize;
        left = left - 1;
    }
    let max_stack = ((content[0] as u32) * 256 + content[1] as u32) as u16;
    let max_locals = ((content[2] as u32) * 256 + content[3] as u32) as u16;
    Ok(CodeLayout { max_stack, max_locals, code_length, handler_count, handlers_at, attributes_at })
}

/// The handler record `ordinal` of a content.
pub open spec fn handler_of(c: Seq<u8>, l: CodeLayout, ordinal: int) -> ExceptionHandlerFact {
    let at = l.handlers_at + 8 * ordinal;
    ExceptionHandlerFact {
        ordinal: ordinal as u32,
        start_bci: be16(c, at) as u32,
        end_bci: be16(c, at + 2) as u32,
        handler_bci: be16(c, at + 4) as u32,
        catch_type_index: if be16(c, at + 6) == 0 { None } else { Some(be16(c, at + 6)) },
    }
}

fn u16_at(c: &[u8], at: usize) -> (v: u16)
    requires
        at + 2 <= c@.len(),
    ensures
        v == be16(c@, at as int),
{
    ((c[at] as u32) * 256 + c[at + 1] as u32) as u16
}

/// Where one instruction of a decoded prefix starts: where the one before it ends.
pub open spec fn expected_bci(instructions: Seq<InstructionFact>, k: int) -> int {
    if k == 0 {
        0
    } else {
        instructions[k - 1].bci + instructions[k - 1].width
    }
}

/// One instruction fact exactly as the code array at its BCI decodes.
pub open spec fn fact_of(code: Seq<u8>, base: int, f: InstructionFact) -> bool {
    &&& f.bci < code.len()
    &&& step_at(code, f.bci as int) == Step::Width(f.width as nat)
    &&& f.opcode == code[f.bci as int]
    &&& f.span == (ByteSpan { start: (base + f.bci) as u64, length: f.width as u64 })
    &&& f.operands_span == (ByteSpan { start: (base + f.bci + 1) as u64, length: (f.width - 1) as u64 })
    &&& f.constant_pool_index == pool_index_of(f.opcode, code.subrange(f.bci as int, f.bci + f.width))
}

/// The facts are the decode of the code array from BCI 0, one instruction after the other.
pub open spec fn decoded_prefix(code: Seq<u8>, base: int, instructions: Seq<InstructionFact>) -> bool {
    forall|k: int| 0 <= k < instructions.len() ==> (#[trigger] instructions[k]).bci == expected_bci(instructions, k)
        && fact_of(code, base, instructions[k])
}

/// Each operand fact is the typed operands of the instruction fact beside it.
pub open spec fn operands_decoded(code: Seq<u8>, instructions: Seq<InstructionFact>, class: Seq<u8>, slots: Seq<CpSlotLayout>,
    operands: Seq<InstructionOperands>) -> bool {
    forall|k: int| 0 <= k < instructions.len() && k < operands.len() ==> #[trigger] operands_agree(code, instructions[k].bci as int,
        instructions[k].width as int, class, slots, operands[k])
}

/// Why a body decode stopped before its end.
pub enum BodyFailure {
    /// A checkpoint or a budget dimension refused the next step.
    Budget(Error),
    /// The bytes at the BCI are not an instruction.
    Decode(DecodeKind),
    /// The instruction decoded but has no width this reader publishes.
    Adapter(AdapterKind),
}

/// Where a body decode stopped.
#[derive(Clone, Copy, Debug, Eq, PartialEq)]
pub enum StopPosition {
    ExceptionHandler(u32),
    Instruction(u32),
}

/// The run of one body decode: the reliable prefixes, and where and why it stopped.
pub struct BodyRun {
    pub instructions: Vec<InstructionFact>,
    pub operands: Vec<InstructionOperands>,
    pub handlers: Vec<ExceptionHandlerFact>,
    pub stop: Option<(StopPosition, BodyFailure)>,
}

/// A failure the request itself caused: a checkpoint or a budget dimension refused the step.
pub open spec fn request_failure(f: BodyFailure) -> bool {
    f matches BodyFailure::Budget(e) && (is_stop(e) || e is BudgetExceeded)
}

/// `u` after a body decode billed `code` `CodeBytes` and `items` `ResultItems`.
pub open spec fn billed(u: UsageSnapshot, code: int, items: int) -> UsageSnapshot {
    u.with_counted(CountedBudgetDimension::CodeBytes, (u.counted(CountedBudgetDimension::CodeBytes) + code) as u64)
        .with_counted(CountedBudgetDimension::ResultItems, (u.counted(CountedBudgetDimension::ResultItems) + items) as u64)
}

/// The result items a run bills: one per handler record and per instruction it returns, when
/// it publishes results.
pub open spec fn run_items(run: BodyRun, results: bool) -> int {
    if results { (run.handlers@.len() + run.instructions@.len()) as int } else { 0 }
}

/// `e` refuses one more unit of `d` on top of the usage `after` under `limits`.
pub open spec fn refuses(e: Error, d: CountedBudgetDimension, limits: Limits, after: UsageSnapshot, requested: int) -> bool {
    &&& counted_refusal(e, d, limits.counted(d), after.counted(d), requested as u64)
    &&& after.counted(d) + requested > limits.counted(d)
}

/// What a budget stop of a run means: a checkpoint, or the charge the step at the stop owed
/// exceeds its limit: the instruction's width in `CodeBytes`, or one result item.
pub open spec fn budget_stop_ok(run: BodyRun, code: Seq<u8>, limits: Limits, after: UsageSnapshot, results: bool) -> bool {
    match run.stop {
        Some((StopPosition::ExceptionHandler(_), BodyFailure::Budget(e))) => is_stop(e)
            || (results && refuses(e, CountedBudgetDimension::ResultItems, limits, after, 1)),
        Some((StopPosition::Instruction(b), BodyFailure::Budget(e))) => is_stop(e)
            || (step_at(code, b as int) matches Step::Width(w)
                && (refuses(e, CountedBudgetDimension::CodeBytes, limits, after, w as int)
                || (results && refuses(e, CountedBudgetDimension::ResultItems, limits, after, 1)))),
        _ => true,
    }
}

/// The bill of a run: one `CodeBytes` charge of each returned instruction's width and, when it
/// publishes results, one result item per handler record and instruction. A checkpoint that
/// stops the run between an instruction's two charges leaves that width billed too.
pub open spec fn billed_run(before: UsageSnapshot, after: UsageSnapshot, code: Seq<u8>, run: BodyRun, results: bool) -> bool {
    let end = crate::bytecode::prefix_end(run.instructions@);
    ||| after == billed(before, end, run_items(run, results))
    ||| results && match run.stop {
        Some((StopPosition::Instruction(b), BodyFailure::Budget(e))) => is_stop(e) && match step_at(code, b as int) {
            Step::Width(w) => after == billed(before, end + w, run_items(run, results)),
            _ => false,
        },
        _ => false,
    }
}

proof fn lemma_bill_code(u: UsageSnapshot, c: int, i: int, w: int)
    requires
        0 <= c,
        0 <= w,
        u.counted(CountedBudgetDimension::CodeBytes) + c + w <= u64::MAX,
    ensures
        billed(u, c, i).counted(CountedBudgetDimension::CodeBytes) == u.counted(CountedBudgetDimension::CodeBytes) + c,
        billed(u, c, i).with_counted(CountedBudgetDimension::CodeBytes,
            (billed(u, c, i).counted(CountedBudgetDimension::CodeBytes) + w) as u64) == billed(u, c + w, i),
{
}

proof fn lemma_bill_item(u: UsageSnapshot, c: int, i: int)
    requires
        0 <= i,
        u.counted(CountedBudgetDimension::ResultItems) + i + 1 <= u64::MAX,
    ensures
        billed(u, c, i).counted(CountedBudgetDimension::ResultItems) == u.counted(CountedBudgetDimension::ResultItems) + i,
        billed(u, c, i).with_counted(CountedBudgetDimension::ResultItems,
            (billed(u, c, i).counted(CountedBudgetDimension::ResultItems) + 1) as u64) == billed(u, c, i + 1),
{
}

/// What a run states about the body it decoded.
pub open spec fn run_agrees(c: Seq<u8>, l: CodeLayout, base: int, run: BodyRun) -> bool {
    let code = code_of(c, l);
    &&& run.instructions@.len() == run.operands@.len()
    &&& run.handlers@.len() <= l.handler_count
    &&& forall|h: int| 0 <= h < run.handlers@.len() ==> #[trigger] run.handlers@[h] == handler_of(c, l, h)
    &&& decoded_prefix(code, base, run.instructions@)
    &&& crate::bytecode::prefix_end(run.instructions@) <= code.len()
    &&& match run.stop {
        None => run.handlers@.len() == l.handler_count && crate::bytecode::prefix_end(run.instructions@) == code.len(),
        Some((StopPosition::ExceptionHandler(o), f)) => o == run.handlers@.len() && run.instructions@.len() == 0
            && request_failure(f),
        Some((StopPosition::Instruction(b), f)) => run.handlers@.len() == l.handler_count
            && b == crate::bytecode::prefix_end(run.instructions@) && b < code.len()
            && match f {
                BodyFailure::Decode(k) => step_at(code, b as int) == Step::Fail(k),
                BodyFailure::Adapter(k) => step_at(code, b as int) == Step::Adapter(k),
                BodyFailure::Budget(e) => is_stop(e) || e is BudgetExceeded,
            },
    }
}

/// The exception-table record `ordinal` of a content, read where its table starts.
pub open spec fn handler_in(c: Seq<u8>, ordinal: int) -> ExceptionHandlerFact {
    let at = 8 + be32(c, 4) + 2 + 8 * ordinal;
    ExceptionHandlerFact {
        ordinal: ordinal as u32,
        start_bci: be16(c, at) as u32,
        end_bci: be16(c, at + 2) as u32,
        handler_bci: be16(c, at + 4) as u32,
        catch_type_index: if be16(c, at + 6) == 0 { None } else { Some(be16(c, at + 6)) },
    }
}

/// The stable code an instruction without a published width stops the read with.
pub open spec fn adapter_code(k: AdapterKind) -> Seq<char> {
    match k {
        AdapterKind::InvalidRange => "classfile_instruction_invalid_range"@,
        AdapterKind::WidthOverflow => "classfile_instruction_width_overflow"@,
    }
}

/// A stop the request itself caused, with the execution it reports: cancellation, or a budget
/// dimension's refusal.
pub open spec fn request_stop(code: Seq<char>, execution: ExecutionReport) -> bool {
    ||| code == "classfile_bytecode_cancelled"@ && execution is Cancelled
    ||| code == "classfile_bytecode_budget_exceeded"@ && budget_partial(execution)
}

/// A partial execution a budget dimension ended.
pub open spec fn budget_partial(execution: ExecutionReport) -> bool {
    execution matches ExecutionReport::Partial { reason: TerminationReason::BudgetExceeded { .. }, .. }
}

/// A partial execution an error with this code ended.
pub open spec fn error_partial(execution: ExecutionReport, code: Seq<char>) -> bool {
    execution matches ExecutionReport::Partial { reason: TerminationReason::Error { code: c }, .. } && c@ == code
}

/// The stable code the bytes at `bci` stop a read with, when they do.
pub open spec fn step_stop_code(code: Seq<u8>, bci: int) -> Option<Seq<char>> {
    match step_at(code, bci) {
        Step::Fail(_) => Some("classfile_instruction_decode"@),
        Step::Adapter(k) => Some(adapter_code(k)),
        Step::Width(_) => None,
    }
}

/// Why a read stopped at the instruction at `bci`: the request itself, or the bytes there, which
/// do not decode or decode to an instruction without a published width.
pub open spec fn instruction_stop_agrees(code: Seq<u8>, bci: int, stop: Seq<char>, execution: ExecutionReport) -> bool {
    ||| request_stop(stop, execution)
    ||| step_stop_code(code, bci) == Some(stop) && error_partial(execution, stop)
}

/// What a read of the `Code` content `c`, found at class offset `at`, states of its body: the
/// fixed fields, the exception-table prefix, the instruction prefix decoded from BCI 0, and where
/// and why it stopped; a read that did not stop holds the whole table and the whole code array.
pub open spec fn body_agrees(
    c: Seq<u8>,
    at: int,
    max_stack: u16,
    max_locals: u16,
    code_span: ByteSpan,
    instructions: Seq<InstructionFact>,
    handlers: Seq<ExceptionHandlerFact>,
    handler_count: u32,
    execution: ExecutionReport,
    stopped_at: Option<BytecodeStop>,
) -> bool {
    let code = c.subrange(8, 8 + be32(c, 4));
    &&& layout_fits(c)
    &&& max_stack == be16(c, 0) && max_locals == be16(c, 2)
    &&& code_span == (ByteSpan { start: (at + 8) as u64, length: be32(c, 4) as u64 })
    &&& handler_count == be16(c, 8 + be32(c, 4))
    &&& handlers.len() <= handler_count
    &&& forall|h: int| 0 <= h < handlers.len() ==> #[trigger] handlers[h] == handler_in(c, h)
    &&& decoded_prefix(code, at + 8, instructions)
    &&& match stopped_at {
        None => execution is Complete && handlers.len() == handler_count
            && crate::bytecode::prefix_end(instructions) == code.len(),
        Some(BytecodeStop::ExceptionHandlers { ordinal, class_offset, code: s }) => ordinal == handlers.len()
            && instructions.len() == 0 && class_offset == at + 8 + code.len() + 2 + 8 * ordinal
            && request_stop(s@, execution),
        Some(BytecodeStop::Instructions { bci, class_offset, code: s }) => handlers.len() == handler_count
            && bci == crate::bytecode::prefix_end(instructions) && bci < code.len() && class_offset == at + 8 + bci
            && instruction_stop_agrees(code, bci as int, s@, execution),
    }
}

/// Decodes the exception table, then the instruction stream, of one `Code` content.
///
/// Every handler and every instruction is preceded by a poll; each instruction is billed its
/// width in `CodeBytes`, and, when `results` is set, each handler and instruction one
/// `ResultItems`. A refusal, an instruction that does not decode, and one without a published
/// width stop the run with the prefix read so far.
#[verifier::rlimit(100)]
pub fn decode_body(content: &[u8], layout: &CodeLayout, base: u64, class: &[u8], slots: &[CpSlotLayout], budget: &mut Budget,
    results: bool) -> (run: BodyRun)
    requires
        layout_of(content@, *layout),
        base + layout.code_length <= u64::MAX,
        wf_layout(class@, slots@),
    ensures
        run_agrees(content@, *layout, base as int, run),
        operands_decoded(code_of(content@, *layout), run.instructions@, class@, slots@, run.operands@),
        final(budget).limits_of() == old(budget).limits_of(),
        budget_stop_ok(run, code_of(content@, *layout), old(budget).limits_of(), final(budget).usage_of(), results),
        billed_run(old(budget).usage_of(), final(budget).usage_of(), code_of(content@, *layout), run, results),
{
    let ghost c = content@;
    let code = vstd::slice::slice_subrange(content, 8, 8 + layout.code_length as usize);
    let ghost cd = code@;
    assert(cd == code_of(c, *layout));
    let mut handlers: Vec<ExceptionHandlerFact> = Vec::new();
    let mut ordinal: u16 = 0;
    while ordinal < layout.handler_count
        invariant
            c == content@,
            layout_of(c, *layout),
            ordinal <= layout.handler_count,
            handlers@.len() == ordinal,
            budget.limits_of() == old(budget).limits_of(),
            budget.usage_of() == billed(old(budget).usage_of(), 0, if results { ordinal as int } else { 0 }),
            old(budget).usage_of().counted(CountedBudgetDimension::ResultItems) + (if results { ordinal as int } else { 0 }) <= u64::MAX,
            forall|h: int| 0 <= h < handlers@.len() ==> #[trigger] handlers@[h] == handler_of(c, *layout, h),
        decreases layout.handler_count - ordinal,
    {
        match budget.poll() {
            Err(e) => {
                return BodyRun { instructions: Vec::new(), operands: Vec::new(), handlers,
                    stop: Some((StopPosition::ExceptionHandler(ordinal as u32), BodyFailure::Budget(e))) };
            },
            Ok(()) => {},
        }
        if results {
            match budget.charge(CountedBudgetDimension::ResultItems, 1) {
                Err(e) => {
                    return BodyRun { instructions: Vec::new(), operands: Vec::new(), handlers,
                        stop: Some((StopPosition::ExceptionHandler(ordinal as u32), BodyFailure::Budget(e))) };
                },
                Ok(()) => {
                    proof {
                        lemma_bill_item(old(budget).usage_of(), 0, ordinal as int);
                    }
                },
            }
        }
        let at = layout.handlers_at + 8 * ordinal as usize;
        let catch_type = u16_at(content, at + 6);
        handlers.push(ExceptionHandlerFact {
            ordinal: ordinal as u32,
            start_bci: u16_at(content, at) as u32,
            end_bci: u16_at(content, at + 2) as u32,
            handler_bci: u16_at(content, at + 4) as u32,
            catch_type_index: if catch_type == 0 { None } else { Some(catch_type) },
        });
        ordinal = ordinal + 1;
    }
    let mut instructions: Vec<InstructionFact> = Vec::new();
    let mut operands: Vec<InstructionOperands> = Vec::new();
    let n = code.len();
    let mut bci: usize = 0;
    while bci < n
        invariant
            c == content@,
            cd == code@,
            cd == code_of(c, *layout),
            n == cd.len(),
            n == layout.code_length,
            base + n <= u64::MAX,
            layout_of(c, *layout),
            bci <= n,
            budget.limits_of() == old(budget).limits_of(),
            budget.usage_of() == billed(old(budget).usage_of(), bci as int,
                if results { (handlers@.len() + instructions@.len()) as int } else { 0 }),
            old(budget).usage_of().counted(CountedBudgetDimension::CodeBytes) + bci <= u64::MAX,
            old(budget).usage_of().counted(CountedBudgetDimension::ResultItems)
                + (if results { (handlers@.len() + instructions@.len()) as int } else { 0 }) <= u64::MAX,
            handlers@.len() == layout.handler_count,
            forall|h: int| 0 <= h < handlers@.len() ==> #[trigger] handlers@[h] == handler_of(c, *layout, h),
            instructions@.len() == operands@.len(),
            decoded_prefix(cd, base as int, instructions@),
            bci == crate::bytecode::prefix_end(instructions@),
            wf_layout(class@, slots@),
            operands_decoded(cd, instructions@, class@, slots@, operands@),
        decreases n - bci,
    {
        let stop_here = StopPosition::Instruction(bci as u32);
        match budget.poll() {
            Err(e) => {
                return BodyRun { instructions, operands, handlers, stop: Some((stop_here, BodyFailure::Budget(e))) };
            },
            Ok(()) => {},
        }
        let (width, ops) = match decode_instruction(code, bci, class, slots) {
            Decoded::Instruction { width, operands } => (width, operands),
            Decoded::DecodeFailure { kind } => {
                return BodyRun { instructions, operands, handlers, stop: Some((stop_here, BodyFailure::Decode(kind))) };
            },
            Decoded::AdapterFailure { kind } => {
                return BodyRun { instructions, operands, handlers, stop: Some((stop_here, BodyFailure::Adapter(kind))) };
            },
        };
        proof {
            crate::instruction::lemma_step_fits(cd, bci as int);
        }
        if results {
            match budget.check(CountedBudgetDimension::CodeBytes, width as u64) {
                Err(e) => {
                    return BodyRun { instructions, operands, handlers, stop: Some((stop_here, BodyFailure::Budget(e))) };
                },
                Ok(()) => {},
            }
            match budget.check(CountedBudgetDimension::ResultItems, 1) {
                Err(e) => {
                    return BodyRun { instructions, operands, handlers, stop: Some((stop_here, BodyFailure::Budget(e))) };
                },
                Ok(()) => {},
            }
        }
        let ghost items = if results { (handlers@.len() + instructions@.len()) as int } else { 0 };
        let ghost u0 = old(budget).usage_of();
        match budget.charge(CountedBudgetDimension::CodeBytes, width as u64) {
            Err(e) => {
                return BodyRun { instructions, operands, handlers, stop: Some((stop_here, BodyFailure::Budget(e))) };
            },
            Ok(()) => {
                proof {
                    lemma_bill_code(u0, bci as int, items, width as int);
                }
            },
        }
        if results {
            match budget.charge(CountedBudgetDimension::ResultItems, 1) {
                Err(e) => {
                    return BodyRun { instructions, operands, handlers, stop: Some((stop_here, BodyFailure::Budget(e))) };
                },
                Ok(()) => {
                    proof {
                        lemma_bill_item(u0, bci + width as int, items);
                    }
                },
            }
        }
        let opcode = code[bci];
        let start = base + bci as u64;
        let ins = vstd::slice::slice_subrange(code, bci, bci + width as usize);
        let fact = InstructionFact {
            bci: bci as u32,
            opcode,
            width,
            span: ByteSpan::new(start, width as u64),
            operands_span: ByteSpan::new(start + 1, (width - 1) as u64),
            constant_pool_index: crate::instruction::constant_pool_index(opcode, ins),
        };
        let ghost before = instructions@;
        instructions.push(fact);
        operands.push(ops);
        proof {
            assert forall|k: int| 0 <= k < instructions@.len() implies (#[trigger] instructions@[k]).bci == expected_bci(instructions@, k)
                && fact_of(cd, base as int, instructions@[k]) by {
                if k < before.len() {
                    assert(instructions@[k] == before[k]);
                    if k > 0 {
                        assert(instructions@[k - 1] == before[k - 1]);
                    }
                } else {
                    assert(k == before.len());
                    if k > 0 {
                        assert(instructions@[k - 1] == before[k - 1]);
                    }
                }
            }
        }
        bci = bci + width as usize;
    }
    BodyRun { instructions, operands, handlers, stop: None }
}

/// Where the `k`-th nested attribute of a list whose first entry starts at `s` lies.
pub open spec fn debug_entry_at(c: Seq<u8>, s: int, k: nat) -> int
    decreases k,
{
    if k == 0 {
        s
    } else {
        let q = debug_entry_at(c, s, (k - 1) as nat);
        q + 6 + be32(c, q + 2)
    }
}

/// The bytes of the `CONSTANT_Utf8` entry a sorted table holds for `index`, if it holds one.
pub open spec fn utf8_at(pool: Seq<CpEntryFacts>, index: u16) -> Option<Seq<u8>> {
    if index != 0 && crate::cpool::holds_index(pool, index) {
        match crate::cpool::fact_at(pool, index).kind@ {
            crate::cpool::CpKind::Utf8 { bytes } => Some(bytes),
            _ => None,
        }
    } else {
        None
    }
}

/// The nested attribute at `q` is a `LocalVariableTable`.
pub open spec fn is_lvt(pool: Seq<CpEntryFacts>, c: Seq<u8>, q: int) -> bool {
    utf8_at(pool, be16(c, q)) == Some(crate::names::local_variable_table_name())
}

/// Where the `e`-th record of the `LocalVariableTable` at `q` lies.
pub open spec fn lvt_record(q: int, e: int) -> int {
    q + 8 + 10 * e
}

/// The nested attribute at `q` is whole, named, and, when it is a `LocalVariableTable`, made of
/// ten-byte records whose names resolve.
pub open spec fn debug_entry_ok(pool: Seq<CpEntryFacts>, c: Seq<u8>, q: int) -> bool {
    &&& q + 6 <= c.len()
    &&& q + 6 + be32(c, q + 2) <= c.len()
    &&& utf8_at(pool, be16(c, q)) is Some
    &&& is_lvt(pool, c, q) ==> be32(c, q + 2) >= 2 && be32(c, q + 2) == 2 + 10 * be16(c, q + 6)
        && forall|e: int| 0 <= e < be16(c, q + 6) ==> (#[trigger] utf8_at(pool, be16(c, lvt_record(q, e) + 4))) is Some
}

/// Every nested attribute of the list whose count is at `s` reads as [`debug_entry_ok`] says.
pub open spec fn debug_ok(pool: Seq<CpEntryFacts>, c: Seq<u8>, s: int) -> bool {
    forall|k: nat| k < be16(c, s) ==> debug_entry_ok(pool, c, #[trigger] debug_entry_at(c, s + 2, k))
}

/// How many debug names the first `k` nested attributes of the list at `s` state.
pub open spec fn lvt_count(pool: Seq<CpEntryFacts>, c: Seq<u8>, s: int, k: nat) -> int
    decreases k,
{
    if k == 0 {
        0
    } else {
        let q = debug_entry_at(c, s + 2, (k - 1) as nat);
        lvt_count(pool, c, s, (k - 1) as nat) + if is_lvt(pool, c, q) { be16(c, q + 6) as int } else { 0 }
    }
}

/// `n` states the local-variable record at `r`.
pub open spec fn debug_name_states(pool: Seq<CpEntryFacts>, c: Seq<u8>, r: int, n: LocalDebugName) -> bool {
    &&& n.start_bci == be16(c, r)
    &&& n.end_bci == be16(c, r) + be16(c, r + 2)
    &&& n.slot == be16(c, r + 8)
    &&& utf8_at(pool, be16(c, r + 4)) == Some(n.name.0@)
}

/// The name at the position of record `e` of nested attribute `k` states that record.
pub open spec fn debug_name_at(names: Seq<LocalDebugName>, pool: Seq<CpEntryFacts>, c: Seq<u8>, s: int, k: nat, e: int) -> bool {
    debug_name_states(pool, c, lvt_record(debug_entry_at(c, s + 2, k), e), names[lvt_count(pool, c, s, k) + e])
}

/// The debug names a `Code` content's `LocalVariableTable` states. The walk never fails: a
/// table the content cannot hold, or a name the table does not resolve, states no name.
#[verifier::rlimit(60)]
pub fn local_debug_table(content: &[u8], layout: &CodeLayout, pool: &[CpEntryFacts]) -> (t: LocalDebugTable)
    requires
        layout_of(content@, *layout),
    ensures
        t matches LocalDebugTable::Read(names) ==> names@.len() > 0
            && forall|k: int| 0 <= k < names@.len() ==> (#[trigger] names@[k]).start_bci <= names@[k].end_bci,
        crate::cpool::facts_sorted(pool@) ==> {
            let c = content@;
            let s = layout.attributes_at as int;
            let count = be16(c, s) as nat;
            &&& (t is Unstated <==> !debug_ok(pool@, c, s))
            &&& (t is Absent <==> debug_ok(pool@, c, s) && lvt_count(pool@, c, s, count) == 0)
            &&& (t matches LocalDebugTable::Read(names) ==> names@.len() == lvt_count(pool@, c, s, count)
                && forall|k: nat, e: int| k < count && 0 <= e < be16(c, debug_entry_at(c, s + 2, k) + 6)
                    && is_lvt(pool@, c, debug_entry_at(c, s + 2, k)) ==> #[trigger] debug_name_at(names@, pool@, c, s, k, e))
        },
{
    let ghost c = content@;
    let ghost s = layout.attributes_at as int;
    let ghost sorted = crate::cpool::facts_sorted(pool@);
    let n = content.len();
    let count = u16_at(content, layout.attributes_at);
    let mut at = layout.attributes_at + 2;
    let mut names: Vec<LocalDebugName> = Vec::new();
    let mut i: u16 = 0;
    while i < count
        invariant
            n == content@.len(),
            c == content@,
            s == layout.attributes_at,
            sorted == crate::cpool::facts_sorted(pool@),
            count == be16(c, s),
            i <= count,
            at <= n,
            at == debug_entry_at(c, s + 2, i as nat),
            forall|k: int| 0 <= k < names@.len() ==> (#[trigger] names@[k]).start_bci <= names@[k].end_bci,
            sorted ==> forall|k: nat| k < i ==> debug_entry_ok(pool@, c, #[trigger] debug_entry_at(c, s + 2, k)),
            sorted ==> names@.len() == lvt_count(pool@, c, s, i as nat),
            sorted ==> forall|k: nat, e: int| k < i && 0 <= e < be16(c, debug_entry_at(c, s + 2, k) + 6)
                && is_lvt(pool@, c, debug_entry_at(c, s + 2, k)) ==> #[trigger] debug_name_at(names@, pool@, c, s, k, e),
        decreases count - i,
    {
        let ghost q = at as int;
        assert(debug_entry_at(c, s + 2, (i + 1) as nat) == q + 6 + be32(c, q + 2));
        assert(lvt_count(pool@, c, s, (i + 1) as nat) == lvt_count(pool@, c, s, i as nat)
            + if is_lvt(pool@, c, q) { be16(c, q + 6) as int } else { 0 });
        if n - at < 6 {
            assert(!debug_entry_ok(pool@, c, debug_entry_at(c, s + 2, i as nat)));
            return LocalDebugTable::Unstated;
        }
        let name_index = u16_at(content, at);
        let length = read_u32(content, at + 2);
        let length = match length {
            Ok(v) => v as usize,
            Err(_) => return LocalDebugTable::Unstated,
        };
        let body = at + 6;
        if n - body < length {
            assert(!debug_entry_ok(pool@, c, debug_entry_at(c, s + 2, i as nat)));
            return LocalDebugTable::Unstated;
        }
        let name = match cp_utf8(pool, name_index) {
            Ok(b) => b,
            Err(_) => {
                assert(sorted ==> !debug_entry_ok(pool@, c, debug_entry_at(c, s + 2, i as nat)));
                return LocalDebugTable::Unstated;
            },
        };
        assert(sorted ==> utf8_at(pool@, name_index) == Some(name.0@));
        let names0 = names.len();
        if crate::names::is_local_variable_table(name.0.as_slice()) {
            assert(sorted ==> is_lvt(pool@, c, q));
            if length < 2 {
                assert(sorted ==> !debug_entry_ok(pool@, c, debug_entry_at(c, s + 2, i as nat)));
                return LocalDebugTable::Unstated;
            }
            let entries = u16_at(content, body);
            if (length - 2) / 10 < entries as usize || length - 2 != 10 * entries as usize {
                assert(sorted ==> !debug_entry_ok(pool@, c, debug_entry_at(c, s + 2, i as nat)));
                return LocalDebugTable::Unstated;
            }
            let mut e: u16 = 0;
            while e < entries
                invariant
                    n == content@.len(),
                    c == content@,
                    s == layout.attributes_at,
                    sorted == crate::cpool::facts_sorted(pool@),
                    count == be16(c, s),
                    i < count,
                    q == debug_entry_at(c, s + 2, i as nat),
                    body == q + 6,
                    entries == be16(c, q + 6),
                    body + 2 + 10 * entries <= n,
                    e <= entries,
                    sorted ==> is_lvt(pool@, c, q),
                    sorted ==> names@.len() == lvt_count(pool@, c, s, i as nat) + e,
                    forall|k: int| 0 <= k < names@.len() ==> (#[trigger] names@[k]).start_bci <= names@[k].end_bci,
                    sorted ==> forall|k: nat| k < i ==> debug_entry_ok(pool@, c, #[trigger] debug_entry_at(c, s + 2, k)),
                    sorted ==> forall|x: int| 0 <= x < e ==> (#[trigger] utf8_at(pool@, be16(c, lvt_record(q, x) + 4))) is Some,
                    sorted ==> forall|k: nat, x: int| (k < i && 0 <= x < be16(c, debug_entry_at(c, s + 2, k) + 6)
                        && is_lvt(pool@, c, debug_entry_at(c, s + 2, k))) || (k == i && 0 <= x < e)
                        ==> #[trigger] debug_name_at(names@, pool@, c, s, k, x),
                decreases entries - e,
            {
                let r = body + 2 + 10 * e as usize;
                assert(r == lvt_record(q, e as int));
                let start = u16_at(content, r) as u32;
                let span = u16_at(content, r + 2) as u32;
                let local_index = u16_at(content, r + 4);
                let local_name = match cp_utf8(pool, local_index) {
                    Ok(b) => b,
                    Err(_) => {
                        assert(sorted ==> !debug_entry_ok(pool@, c, debug_entry_at(c, s + 2, i as nat))) by {
                            if sorted {
                                assert(utf8_at(pool@, be16(c, lvt_record(q, e as int) + 4)) is None);
                            }
                        }
                        return LocalDebugTable::Unstated;
                    },
                };
                let ghost before = names@;
                names.push(LocalDebugName { slot: u16_at(content, r + 8), start_bci: start, end_bci: start + span, name: local_name });
                proof {
                    if sorted {
                        assert(debug_name_states(pool@, c, r as int, names@[names@.len() - 1]));
                        assert forall|k: nat, x: int| (k < i && 0 <= x < be16(c, debug_entry_at(c, s + 2, k) + 6)
                            && is_lvt(pool@, c, debug_entry_at(c, s + 2, k))) || (k == i && 0 <= x < e + 1)
                            implies #[trigger] debug_name_at(names@, pool@, c, s, k, x) by {
                            if k == i && x == e {
                            } else {
                                assert(debug_name_at(before, pool@, c, s, k, x));
                                if k < i {
                                    lemma_lvt_count_prefix(pool@, c, s, k, i as nat);
                                }
                                assert(0 <= lvt_count(pool@, c, s, k) + x < before.len()) by {
                                    lemma_lvt_count_nonneg(pool@, c, s, k);
                                }
                                assert(names@[lvt_count(pool@, c, s, k) + x] == before[lvt_count(pool@, c, s, k) + x]);
                            }
                        }
                    }
                }
                e = e + 1;
            }
            proof {
                if sorted {
                    assert(debug_entry_ok(pool@, c, q));
                }
            }
        } else {
            assert(sorted ==> !is_lvt(pool@, c, q));
            assert(sorted ==> debug_entry_ok(pool@, c, q));
        }
        at = body + length;
        i = i + 1;
    }
    if names.len() == 0 {
        LocalDebugTable::Absent
    } else {
        LocalDebugTable::Read(names)
    }
}

proof fn lemma_lvt_count_nonneg(pool: Seq<CpEntryFacts>, c: Seq<u8>, s: int, k: nat)
    ensures
        lvt_count(pool, c, s, k) >= 0,
    decreases k,
{
    if k > 0 {
        lemma_lvt_count_nonneg(pool, c, s, (k - 1) as nat);
    }
}

/// A name counted before attribute `k` lies before every name counted from `k` on.
proof fn lemma_lvt_count_prefix(pool: Seq<CpEntryFacts>, c: Seq<u8>, s: int, k: nat, i: nat)
    requires
        k < i,
    ensures
        lvt_count(pool, c, s, k) + (if is_lvt(pool, c, debug_entry_at(c, s + 2, k)) { be16(c, debug_entry_at(c, s + 2, k) + 6) as int } else { 0 })
            <= lvt_count(pool, c, s, i),
    decreases i - k,
{
    if k + 1 < i {
        lemma_lvt_count_prefix(pool, c, s, k, (i - 1) as nat);
    }
}

} // verus!
