//! Method-body facts: instructions, exception handlers, where a decode stopped, the coverage
//! plane of one body, and the control-flow targets validated against the instruction starts.

use crate::error::{Error, Result, is_invalid};
use crate::header::MethodSelector;
use crate::model::{ByteSpan, Coverage, CoverageDimension, CoverageRange, CoverageState, Diagnostic, ExecutionReport, JvmBytes};
use crate::text::{decimal, text, push_decimal};
use crate::version::VerificationStatus;
use vstd::prelude::*;

verus! {


#[derive(Clone, Debug, Eq, PartialEq)]
pub struct InstructionFact {
    pub bci: u32,
    pub opcode: u8,
    pub width: u32,
    pub span: ByteSpan,
    pub operands_span: ByteSpan,
    pub constant_pool_index: Option<u16>,
}

#[derive(Clone, Debug, Eq, PartialEq)]
pub struct ExceptionHandlerFact {
    pub ordinal: u32,
    pub start_bci: u32,
    pub end_bci: u32,
    pub handler_bci: u32,
    pub catch_type_index: Option<u16>,
}

#[derive(Clone, Copy, Debug, Eq, PartialEq)]
pub enum BytecodeStopPhase {
    ExceptionHandlers,
    Instructions,
}

/// Where a body decode stopped: the handler record or the instruction it did not read, at its
/// class-file offset, with the stable code of the reason.
#[derive(Clone, Debug, Eq, PartialEq)]
pub enum BytecodeStop {
    ExceptionHandlers { ordinal: u32, class_offset: u64, code: String },
    Instructions { bci: u32, class_offset: u64, code: String },
}

impl BytecodeStop {
    pub fn phase(&self) -> (p: BytecodeStopPhase)
        ensures
            self is ExceptionHandlers <==> p == BytecodeStopPhase::ExceptionHandlers,
            self is Instructions <==> p == BytecodeStopPhase::Instructions,
    {
        match self {
            BytecodeStop::ExceptionHandlers { .. } => BytecodeStopPhase::ExceptionHandlers,
            BytecodeStop::Instructions { .. } => BytecodeStopPhase::Instructions,
        }
    }
}

#[derive(Clone, Debug, Eq, PartialEq)]
pub struct BytecodeInspection {
    pub selector: MethodSelector,
    pub max_stack: u16,
    pub max_locals: u16,
    pub code_span: ByteSpan,
    pub instructions: Vec<InstructionFact>,
    pub exception_handlers: Vec<ExceptionHandlerFact>,
    pub exception_handler_count: u32,
    pub execution: ExecutionReport,
    pub diagnostics: Vec<Diagnostic>,
    pub verification: VerificationStatus,
    pub stopped_at: Option<BytecodeStop>,
}

/// Where the decoded instruction prefix ends: one past its last instruction.
pub open spec fn prefix_end(instructions: Seq<InstructionFact>) -> int {
    if instructions.len() == 0 {
        0
    } else {
        instructions.last().bci + instructions.last().width
    }
}

/// A coverage range with this label and bounds.
pub open spec fn range_is(r: CoverageRange, label: Seq<char>, start: int, end: int) -> bool {
    r.label@ == label && r.start == start && r.end == end
}

fn coverage_range(label: &str, start: u64, end: u64) -> (r: CoverageRange)
    ensures
        range_is(r, label@, start as int, end as int),
{
    CoverageRange { label: text(label), start, end }
}

/// The coverage of a body decode whose instruction prefix ends at `end` of `code_length` and
/// which returned `handlers_returned` of `handlers_total` handler records.
pub open spec fn coverage_is(c: Coverage, code_length: int, end: int, handlers_returned: int, handlers_total: int,
    complete: bool, handlers_complete: bool) -> bool {
    &&& c.artifact_structural.state == (if complete { CoverageState::CompleteWithinSchema } else { CoverageState::Partial })
    &&& c.artifact_structural.scanned@.len() == 2
    &&& range_is(c.artifact_structural.scanned@[0], "method_code_bci"@, 0, end)
    &&& range_is(c.artifact_structural.scanned@[1], "exception_handler_ordinal"@, 0, handlers_returned)
    &&& c.artifact_structural.skipped@.len() == (if end < code_length { 1int } else { 0 })
        + (if !handlers_complete && handlers_returned < handlers_total { 1int } else { 0 })
    &&& (end < code_length ==> range_is(c.artifact_structural.skipped@[0], "method_code_bci"@, end, code_length))
    &&& (!handlers_complete && handlers_returned < handlers_total ==> range_is(
        c.artifact_structural.skipped@.last(), "exception_handler_ordinal"@, handlers_returned, handlers_total))
    &&& c.artifact_structural.uninterpreted_extensions@.len() == 0
    &&& c.runtime_resolution.is_not_requested()
    &&& c.dynamic_analysis.is_not_requested()
}

/// Coverage of one body decode, in the reader's own BCI and handler-ordinal coordinates.
///
/// The scanned ranges are the decoded instruction prefix and the handler records that were
/// read; the skipped ranges are the rest of each; the state is `CompleteWithinSchema` exactly
/// when the decode ran to the end of the body.
pub fn method_code_coverage(
    code_length: u64,
    instructions: &[InstructionFact],
    handlers_returned: usize,
    handlers_total: u32,
    execution: &ExecutionReport,
    stopped_at: Option<&BytecodeStop>,
) -> (r: Result<Coverage>)
    ensures
        r is Err <==> prefix_end(instructions@) > code_length || handlers_returned > handlers_total,
        r matches Err(e) ==> is_invalid(e, "classfile_coverage_out_of_bounds"@),
        r matches Ok(c) ==> coverage_is(c, code_length as int, prefix_end(instructions@), handlers_returned as int,
            handlers_total as int, execution is Complete,
            execution is Complete || !(stopped_at matches Some(s) && s is ExceptionHandlers)),
{
    let prefix: u64 = if instructions.len() == 0 {
        0
    } else {
        let last = &instructions[instructions.len() - 1];
        last.bci as u64 + last.width as u64
    };
    if prefix > code_length {
        return Err(Error::invalid_input("classfile_coverage_out_of_bounds", "instruction prefix exceeds code length"));
    }
    let returned = handlers_returned as u64;
    let total = handlers_total as u64;
    if returned > total {
        return Err(Error::invalid_input("classfile_coverage_out_of_bounds", "returned handler count exceeds declared count"));
    }
    let complete = match execution {
        ExecutionReport::Complete { .. } => true,
        _ => false,
    };
    let stopped_in_handler_phase = match stopped_at {
        Some(s) => match s.phase() {
            BytecodeStopPhase::ExceptionHandlers => true,
            BytecodeStopPhase::Instructions => false,
        },
        None => false,
    };
    let handlers_complete = complete || !stopped_in_handler_phase;
    let mut scanned: Vec<CoverageRange> = Vec::new();
    scanned.push(coverage_range("method_code_bci", 0, prefix));
    scanned.push(coverage_range("exception_handler_ordinal", 0, returned));
    let mut skipped: Vec<CoverageRange> = Vec::new();
    if prefix < code_length {
        skipped.push(coverage_range("method_code_bci", prefix, code_length));
    }
    if !handlers_complete && returned < total {
        skipped.push(coverage_range("exception_handler_ordinal", returned, total));
    }
    Ok(Coverage {
        artifact_structural: CoverageDimension {
            state: if complete { CoverageState::CompleteWithinSchema } else { CoverageState::Partial },
            scanned,
            skipped,
            uninterpreted_extensions: Vec::new(),
        },
        runtime_resolution: CoverageDimension::not_requested(),
        dynamic_analysis: CoverageDimension::not_requested(),
    })
}

/// The literal one instruction pushes directly; floating point keeps its bit pattern.
#[derive(Clone, Copy, Debug, Eq, PartialEq)]
pub enum ImmediateValue {
    Int(i32),
    Long(i64),
    Float(u32),
    Double(u64),
}

/// One local variable slot named by an instruction.
#[derive(Clone, Copy, Debug, Eq, PartialEq)]
pub struct LocalOperand {
    pub index: u16,
    /// `true` for the `wide` prefixed form.
    pub wide: bool,
}

/// Payload of one `tableswitch`/`lookupswitch`.
#[derive(Clone, Debug, Eq, PartialEq)]
pub enum SwitchOperands {
    Table { default_offset: i32, low: i32, high: i32, offsets: Vec<i32> },
    Lookup { default_offset: i32, pairs: Vec<(i32, i32)> },
}

/// Typed operands of one instruction. A field is `None` exactly when the instruction has no
/// operand of that kind.
#[derive(Clone, Debug, Eq, PartialEq)]
pub struct InstructionOperands {
    pub immediate: Option<ImmediateValue>,
    pub local: Option<LocalOperand>,
    pub increment: Option<i32>,
    pub constant_pool_index: Option<u16>,
    /// Relative offset exactly as encoded by a branch, relative to the instruction's BCI.
    pub branch_offset: Option<i32>,
    pub switch: Option<SwitchOperands>,
    /// The opcode this instruction is: the opcode a `wide` form wraps, else the raw opcode.
    pub effective_opcode: u8,
    pub atype: Option<u8>,
    pub dimensions: Option<u8>,
    pub interface_count: Option<u8>,
}

impl InstructionOperands {
    pub open spec fn is_blank(&self) -> bool {
        &&& self.immediate is None
        &&& self.local is None
        &&& self.increment is None
        &&& self.constant_pool_index is None
        &&& self.branch_offset is None
        &&& self.switch is None
        &&& self.effective_opcode == 0
        &&& self.atype is None
        &&& self.dimensions is None
        &&& self.interface_count is None
    }
}

impl Default for InstructionOperands {
    fn default() -> (o: InstructionOperands)
        ensures
            o.is_blank(),
    {
        InstructionOperands {
            immediate: None,
            local: None,
            increment: None,
            constant_pool_index: None,
            branch_offset: None,
            switch: None,
            effective_opcode: 0,
            atype: None,
            dimensions: None,
            interface_count: None,
        }
    }
}

/// One control-flow target of one method, validated but not yet a graph edge.
#[derive(Clone, Copy, Debug, Eq, PartialEq)]
pub struct ControlFlowTarget {
    pub instruction_bci: u32,
    pub kind: ControlFlowTargetKind,
    /// Absolute BCI the target lands on: an instruction start inside the code array.
    pub target_bci: u32,
}

#[derive(Clone, Copy, Debug, Eq, PartialEq)]
pub enum ControlFlowTargetKind {
    Branch { offset: i32 },
    SwitchDefault,
    SwitchCase { index: u32, key: i32 },
    Handler { ordinal: u32 },
}

/// The debug names one body's `Code` attribute states.
#[derive(Clone, Debug, Eq, PartialEq)]
pub enum LocalDebugTable {
    /// The `Code` attribute declares no `LocalVariableTable`.
    Absent,
    /// The table as decoded, in declaration order.
    Read(Vec<LocalDebugName>),
    /// The walk produced no table.
    Unstated,
}

/// One record of a `LocalVariableTable` (JVMS 4.7.13).
#[derive(Clone, Debug, Eq, PartialEq)]
pub struct LocalDebugName {
    pub slot: u16,
    pub start_bci: u32,
    pub end_bci: u32,
    pub name: JvmBytes,
}

/// The text `String::from_utf8_lossy` makes of bytes: valid UTF-8 read as it is, each invalid
/// sequence replaced by U+FFFD.
pub uninterp spec fn lossy_text(b: Seq<u8>) -> Seq<char>;

/// The text of bytes read as UTF-8, each invalid sequence replaced
/// (`String::from_utf8_lossy`).
///
/// Trusted: the contract claims that the text is the one `from_utf8_lossy` makes of exactly
/// these bytes, named [`lossy_text`], and that bytes which are valid UTF-8 come back as the
/// characters they encode, unchanged, which its documentation gives; among them, ASCII bytes
/// come back as the same characters.
#[verifier::external_body]
fn utf8_lossy(bytes: &[u8]) -> (s: String)
    ensures
        s@ == lossy_text(bytes@),
        vstd::utf8::valid_utf8(bytes@) ==> s@ == vstd::utf8::decode_utf8(bytes@),
        (forall|i: int| 0 <= i < bytes@.len() ==> bytes@[i] < 128) ==> s@ == bytes@.map_values(|b: u8| b as char),
{
    String::from_utf8_lossy(bytes).into_owned()
}

impl LocalDebugName {
    /// The name as text, invalid UTF-8 replaced.
    pub fn name_lossy(&self) -> (s: String)
        ensures
            s@ == lossy_text(self.name.0@),
            vstd::utf8::valid_utf8(self.name.0@) ==> s@ == vstd::utf8::decode_utf8(self.name.0@)
                && vstd::utf8::encode_utf8(s@) == self.name.0@,
            (forall|i: int| 0 <= i < self.name.0@.len() ==> self.name.0@[i] < 128) ==> s@ == self.name.0@.map_values(|b: u8| b as char),
    {
        let s = utf8_lossy(self.name.0.as_slice());
        proof {
            if vstd::utf8::valid_utf8(self.name.0@) {
                vstd::utf8::decode_utf8_encode_utf8(self.name.0@);
            }
        }
        s
    }
}

/// One method body decoded as reusable facts, its operands kept in lockstep with its
/// instructions.
#[derive(Clone, Debug, Eq, PartialEq)]
pub struct MethodCodeFacts {
    pub max_stack: u16,
    pub max_locals: u16,
    pub code_span: ByteSpan,
    pub instructions: Vec<InstructionFact>,
    pub operands: Vec<InstructionOperands>,
    pub exception_handlers: Vec<ExceptionHandlerFact>,
    pub exception_handler_count: u32,
    pub execution: ExecutionReport,
    pub stopped_at: Option<BytecodeStop>,
    pub debug: LocalDebugTable,
}

/// The value of a [`MethodCodeFacts`], its lists as sequences.
pub struct MethodCodeView {
    pub max_stack: u16,
    pub max_locals: u16,
    pub code_span: ByteSpan,
    pub instructions: Seq<InstructionFact>,
    pub operands: Seq<InstructionOperands>,
    pub exception_handlers: Seq<ExceptionHandlerFact>,
    pub exception_handler_count: u32,
    pub execution: ExecutionReport,
    pub stopped_at: Option<BytecodeStop>,
    pub debug: LocalDebugTable,
}

impl View for MethodCodeFacts {
    type V = MethodCodeView;

    open spec fn view(&self) -> MethodCodeView {
        MethodCodeView {
            max_stack: self.max_stack,
            max_locals: self.max_locals,
            code_span: self.code_span,
            instructions: self.instructions@,
            operands: self.operands@,
            exception_handlers: self.exception_handlers@,
            exception_handler_count: self.exception_handler_count,
            execution: self.execution,
            stopped_at: self.stopped_at,
            debug: self.debug,
        }
    }
}

impl MethodCodeFacts {
    /// Typed operands of the instructions, in lockstep with them.
    pub fn operands(&self) -> (o: &[InstructionOperands])
        ensures
            o@ == self@.operands,
    {
        self.operands.as_slice()
    }

    /// The body's own debug names, as the same read decoded them.
    pub fn debug(&self) -> (d: &LocalDebugTable)
        ensures
            *d == self@.debug,
    {
        &self.debug
    }

    /// The facts of one decode, from the lists it built together.
    pub(crate) fn assemble(
        max_stack: u16,
        max_locals: u16,
        code_span: ByteSpan,
        instructions: Vec<InstructionFact>,
        operands: Vec<InstructionOperands>,
        exception_handlers: Vec<ExceptionHandlerFact>,
        exception_handler_count: u32,
        execution: ExecutionReport,
        stopped_at: Option<BytecodeStop>,
        debug: LocalDebugTable,
    ) -> (f: MethodCodeFacts)
        ensures
            f@ == (MethodCodeView {
                max_stack,
                max_locals,
                code_span,
                instructions: instructions@,
                operands: operands@,
                exception_handlers: exception_handlers@,
                exception_handler_count,
                execution,
                stopped_at,
                debug,
            }),
    {
        MethodCodeFacts {
            max_stack,
            max_locals,
            code_span,
            instructions,
            operands,
            exception_handlers,
            exception_handler_count,
            execution,
            stopped_at,
            debug,
        }
    }

    /// Assembles a body from instruction and operand pairs, without a decode.
    pub fn from_parts(
        max_stack: u16,
        max_locals: u16,
        code_span: ByteSpan,
        code: Vec<(InstructionFact, InstructionOperands)>,
        exception_handlers: Vec<ExceptionHandlerFact>,
        exception_handler_count: u32,
        execution: ExecutionReport,
        stopped_at: Option<BytecodeStop>,
        debug: LocalDebugTable,
    ) -> (f: MethodCodeFacts)
        ensures
            f@.instructions.len() == f@.operands.len(),
            f@.instructions == code@.map_values(|p: (InstructionFact, InstructionOperands)| p.0),
            f@.operands == code@.map_values(|p: (InstructionFact, InstructionOperands)| p.1),
            f@.max_stack == max_stack,
            f@.max_locals == max_locals,
            f@.code_span == code_span,
            f@.exception_handlers == exception_handlers@,
            f@.exception_handler_count == exception_handler_count,
            f@.execution == execution,
            f@.stopped_at == stopped_at,
            f@.debug == debug,
    {
        let mut instructions: Vec<InstructionFact> = Vec::new();
        let mut operands: Vec<InstructionOperands> = Vec::new();
        let mut rest = code;
        let ghost all = rest@;
        let mut i: usize = 0;
        let n = rest.len();
        while i < n
            invariant
                n == all.len(),
                rest@ == all.subrange(i as int, n as int),
                i <= n,
                instructions@ == all.subrange(0, i as int).map_values(|p: (InstructionFact, InstructionOperands)| p.0),
                operands@ == all.subrange(0, i as int).map_values(|p: (InstructionFact, InstructionOperands)| p.1),
            decreases n - i,
        {
            let (fact, ops) = rest.remove(0);
            instructions.push(fact);
            operands.push(ops);
            i = i + 1;
            proof {
                assert(all.subrange(0, i as int).map_values(|p: (InstructionFact, InstructionOperands)| p.0)
                    =~= all.subrange(0, i - 1).map_values(|p: (InstructionFact, InstructionOperands)| p.0).push(all[i - 1].0));
                assert(all.subrange(0, i as int).map_values(|p: (InstructionFact, InstructionOperands)| p.1)
                    =~= all.subrange(0, i - 1).map_values(|p: (InstructionFact, InstructionOperands)| p.1).push(all[i - 1].1));
                assert(rest@ =~= all.subrange(i as int, n as int));
            }
        }
        assert(all.subrange(0, n as int) =~= all);
        MethodCodeFacts {
            max_stack,
            max_locals,
            code_span,
            instructions,
            operands,
            exception_handlers,
            exception_handler_count,
            execution,
            stopped_at,
            debug,
        }
    }
}


/// `bci` is the BCI of one of the instructions.
pub open spec fn is_start(instructions: Seq<InstructionFact>, bci: u32) -> bool {
    exists|i: int| 0 <= i < instructions.len() && #[trigger] instructions[i].bci == bci
}

/// Instructions in strictly increasing BCI order, as a decode produces them.
pub open spec fn bci_ordered(instructions: Seq<InstructionFact>) -> bool {
    forall|i: int, j: int| 0 <= i < j < instructions.len() ==> instructions[i].bci < instructions[j].bci
}

/// The instruction-start set of one method body.
struct InstructionStarts<'a> {
    instructions: &'a [InstructionFact],
}

impl<'a> InstructionStarts<'a> {
    fn new(instructions: &'a [InstructionFact]) -> (s: InstructionStarts<'a>)
        ensures
            s.instructions@ == instructions@,
    {
        InstructionStarts { instructions }
    }

    /// Binary search over the BCIs.
    fn contains(&self, bci: u32) -> (r: bool)
        ensures
            r ==> is_start(self.instructions@, bci),
            bci_ordered(self.instructions@) && !r ==> !is_start(self.instructions@, bci),
    {
        let v = self.instructions;
        let mut low: usize = 0;
        let mut high: usize = v.len();
        while low < high
            invariant
                v@ == self.instructions@,
                low <= high <= v@.len(),
                bci_ordered(v@) ==> forall|i: int| 0 <= i < low ==> v@[i].bci < bci,
                bci_ordered(v@) ==> forall|i: int| high <= i < v@.len() ==> v@[i].bci > bci,
            decreases high - low,
        {
            let mid = low + (high - low) / 2;
            let at = v[mid].bci;
            if at == bci {
                assert(v@[mid as int].bci == bci);
                return true;
            } else if at < bci {
                low = mid + 1;
            } else {
                high = mid;
            }
        }
        false
    }
}

/// The code an absolute target is refused with, checked in order: past the code array, then
/// off an instruction start; none when it lands on one.
pub open spec fn target_code(instructions: Seq<InstructionFact>, code_length: u32, target: u32) -> Option<Seq<char>> {
    if target >= code_length {
        Some("classfile_instruction_target_out_of_bounds"@)
    } else if !is_start(instructions, target) {
        Some("classfile_instruction_invalid_target"@)
    } else {
        None
    }
}

/// The code an exception-table record is refused with, its checks in order: the range's relation
/// (an end past `code_length`, a start after or at its end), then its start, its end, and last its
/// handler entry as a target; none when the record is valid.
pub open spec fn handler_code(instructions: Seq<InstructionFact>, code_length: u32, h: ExceptionHandlerFact) -> Option<Seq<char>> {
    if h.end_bci > code_length || h.start_bci >= h.end_bci {
        Some("classfile_exception_range_invalid"@)
    } else if !is_start(instructions, h.start_bci) {
        Some("classfile_instruction_invalid_target"@)
    } else if h.end_bci != code_length && !is_start(instructions, h.end_bci) {
        Some("classfile_instruction_invalid_target"@)
    } else {
        target_code(instructions, code_length, h.handler_bci)
    }
}

/// The code a relative target `bci + offset` is refused with: one past the BCI type, one below
/// BCI 0, else the code of the absolute target.
pub open spec fn relative_code(instructions: Seq<InstructionFact>, code_length: u32, bci: u32, offset: i32) -> Option<Seq<char>> {
    if bci + offset > u32::MAX {
        Some("classfile_code_span_overflow"@)
    } else if bci + offset < 0 {
        Some("classfile_instruction_target_out_of_bounds"@)
    } else {
        target_code(instructions, code_length, (bci + offset) as u32)
    }
}

/// What refuses instruction `k` of a body: its branch target's code, or, with a valid branch,
/// its switch's default target's code, or else the code of the switch's first refused case.
pub open spec fn instruction_refusal(v: MethodCodeView, k: int, e: Error) -> bool {
    let len = v.code_span.length as u32;
    let bci = v.instructions[k].bci;
    let branch = match v.operands[k].branch_offset {
        Some(o) => relative_code(v.instructions, len, bci, o),
        None => None,
    };
    match branch {
        Some(c) => is_invalid(e, c),
        None => match v.operands[k].switch {
            Some(sw) => match relative_code(v.instructions, len, bci, switch_default(sw)) {
                Some(c) => is_invalid(e, c),
                None => match sw {
                    SwitchOperands::Table { low, offsets, .. } => table_case_refusal(v.instructions, len, bci, low, offsets@, e),
                    SwitchOperands::Lookup { pairs, .. } => lookup_case_refusal(v.instructions, len, bci, pairs@, e),
                },
            },
            None => false,
        },
    }
}

/// The default offset of a switch.
pub open spec fn switch_default(sw: SwitchOperands) -> i32 {
    match sw {
        SwitchOperands::Table { default_offset, .. } => default_offset,
        SwitchOperands::Lookup { default_offset, .. } => default_offset,
    }
}

/// `e` refuses the first instruction of a body whose targets are not valid, with that
/// instruction's code.
pub open spec fn first_bad_instruction(v: MethodCodeView, e: Error) -> bool {
    exists|k: int| 0 <= k < fact_count(v)
        && (forall|j: int| 0 <= j < k ==> operands_ok(v.instructions, v.code_span.length as int, v.instructions[j].bci,
            #[trigger] v.operands[j]))
        && #[trigger] instruction_refusal(v, k, e)
}

/// `e` refuses the first invalid exception-table record of a body with that record's code.
pub open spec fn first_bad_handler(v: MethodCodeView, e: Error) -> bool {
    exists|x: int| 0 <= x < v.exception_handlers.len()
        && (forall|y: int| 0 <= y < x ==> valid_handler(v.instructions, v.code_span.length as u32, #[trigger] v.exception_handlers[y]))
        && (handler_code(v.instructions, v.code_span.length as u32, #[trigger] v.exception_handlers[x]) matches Some(c)
            && is_invalid(e, c))
}

/// Validates one absolute target against the code array and the start set.
fn check_target(starts: &InstructionStarts, code_length: u32, target: u32, label: String) -> (r: Result<()>)
    ensures
        r is Ok ==> target < code_length && is_start(starts.instructions@, target),
        bci_ordered(starts.instructions@) && target < code_length && is_start(starts.instructions@, target) ==> r is Ok,
        r matches Err(e) ==> is_invalid(e, "classfile_instruction_target_out_of_bounds"@)
            || is_invalid(e, "classfile_instruction_invalid_target"@),
        bci_ordered(starts.instructions@) ==> match target_code(starts.instructions@, code_length, target) {
            None => r is Ok,
            Some(c) => r matches Err(e) && is_invalid(e, c),
        },
{
    let mut message = label;
    if target >= code_length {
        message.append(" target ");
        push_decimal(&mut message, target as u64);
        message.append(" is outside 0..");
        push_decimal(&mut message, code_length as u64);
        return Err(Error::invalid_input_owned("classfile_instruction_target_out_of_bounds", message));
    }
    if !starts.contains(target) {
        message.append(" target ");
        push_decimal(&mut message, target as u64);
        message.append(" is not an instruction start");
        return Err(Error::invalid_input_owned("classfile_instruction_invalid_target", message));
    }
    Ok(())
}

/// Absolute BCI of one encoded relative offset, checked in both directions.
pub fn relative_target_bci(instruction_bci: u32, offset: i32) -> (r: Result<u32>)
    ensures
        0 <= instruction_bci + offset <= u32::MAX ==> r == Ok::<u32, Error>((instruction_bci + offset) as u32),
        instruction_bci + offset > u32::MAX ==> (r matches Err(e) && is_invalid(e, "classfile_code_span_overflow"@)),
        instruction_bci + offset < 0 ==> (r matches Err(e) && is_invalid(e, "classfile_instruction_target_out_of_bounds"@)),
{
    let target: i64 = instruction_bci as i64 + offset as i64;
    if target > u32::MAX as i64 {
        let mut m = text("relative offset ");
        crate::text::push_signed(&mut m, offset as i64);
        m.append(" at BCI ");
        push_decimal(&mut m, instruction_bci as u64);
        m.append(" overflows the code address space");
        return Err(Error::invalid_input_owned("classfile_code_span_overflow", m));
    }
    if target < 0 {
        let mut m = text("relative offset ");
        crate::text::push_signed(&mut m, offset as i64);
        m.append(" at BCI ");
        push_decimal(&mut m, instruction_bci as u64);
        m.append(" targets a BCI before 0");
        return Err(Error::invalid_input_owned("classfile_instruction_target_out_of_bounds", m));
    }
    Ok(target as u32)
}

/// `tableswitch` key of one payload position: `low + index`, checked.
pub fn table_key(low: i32, index: u32) -> (r: Result<i32>)
    ensures
        low + index <= i32::MAX ==> r == Ok::<i32, Error>((low + index) as i32),
        low + index > i32::MAX ==> (r matches Err(e) && is_invalid(e, "classfile_instruction_invalid_range"@)),
{
    let key: i64 = low as i64 + index as i64;
    if key > i32::MAX as i64 {
        let mut m = text("tableswitch key ");
        crate::text::push_signed(&mut m, key);
        m.append(" at index ");
        push_decimal(&mut m, index as u64);
        m.append(" does not fit i32");
        return Err(Error::invalid_input_owned("classfile_instruction_invalid_range", m));
    }
    Ok(key as i32)
}

/// Padding before the first four-byte field of a switch at `bci`: its fields start at the next
/// four-byte boundary after the opcode byte.
pub fn switch_padding(bci: u32) -> (p: u32)
    ensures
        p < 4,
        (bci + 1 + p) % 4 == 0,
{
    let r = (bci % 4) as u32;
    let p: u32 = if r == 0 { 3 } else if r == 1 { 2 } else if r == 2 { 1 } else { 0 };
    p
}

/// A handler record whose protected range is a non-empty half-open range of instruction
/// boundaries inside the code, and whose entry is a target like any other.
pub open spec fn valid_handler(instructions: Seq<InstructionFact>, code_length: u32, h: ExceptionHandlerFact) -> bool {
    &&& h.start_bci < h.end_bci <= code_length
    &&& is_start(instructions, h.start_bci)
    &&& (h.end_bci == code_length || is_start(instructions, h.end_bci))
    &&& h.handler_bci < code_length
    &&& is_start(instructions, h.handler_bci)
}

fn range_message(ordinal: u32, start: u32, end: u32, tail: &str) -> (s: String)
    ensures
        s@ == "exception handler "@ + decimal(ordinal as nat) + " protected range "@ + decimal(start as nat)
            + ".."@ + decimal(end as nat) + tail@,
{
    let mut m = text("exception handler ");
    push_decimal(&mut m, ordinal as u64);
    m.append(" protected range ");
    push_decimal(&mut m, start as u64);
    m.append("..");
    push_decimal(&mut m, end as u64);
    m.append(tail);
    assert(m@ =~= "exception handler "@ + decimal(ordinal as nat) + " protected range "@ + decimal(start as nat)
        + ".."@ + decimal(end as nat) + tail@);
    m
}

/// Validates one exception table record (JVMS 4.7.3: `start_pc < end_pc <= code_length`, both
/// on instruction boundaries, `end_pc == code_length` being the legal half-open end).
fn check_protected_range(starts: &InstructionStarts, code_length: u32, handler: &ExceptionHandlerFact) -> (r: Result<()>)
    ensures
        r is Ok ==> valid_handler(starts.instructions@, code_length, *handler),
        bci_ordered(starts.instructions@) && valid_handler(starts.instructions@, code_length, *handler) ==> r is Ok,
        r matches Err(e) ==> is_invalid(e, "classfile_exception_range_invalid"@)
            || is_invalid(e, "classfile_instruction_invalid_target"@)
            || is_invalid(e, "classfile_instruction_target_out_of_bounds"@),
        bci_ordered(starts.instructions@) ==> match handler_code(starts.instructions@, code_length, *handler) {
            None => r is Ok,
            Some(c) => r matches Err(e) && is_invalid(e, c),
        },
{
    let ordinal = handler.ordinal;
    if handler.end_bci > code_length {
        let mut m = range_message(ordinal, handler.start_bci, handler.end_bci, " ends past code_length ");
        push_decimal(&mut m, code_length as u64);
        return Err(Error::invalid_input_owned("classfile_exception_range_invalid", m));
    }
    if handler.start_bci > handler.end_bci {
        return Err(Error::invalid_input_owned("classfile_exception_range_invalid",
            range_message(ordinal, handler.start_bci, handler.end_bci, " starts after its end")));
    }
    if handler.start_bci == handler.end_bci {
        let mut m = text("exception handler ");
        push_decimal(&mut m, ordinal as u64);
        m.append(" protected range at BCI ");
        push_decimal(&mut m, handler.start_bci as u64);
        m.append(" is empty");
        return Err(Error::invalid_input_owned("classfile_exception_range_invalid", m));
    }
    if !starts.contains(handler.start_bci) {
        let mut m = text("exception handler ");
        push_decimal(&mut m, ordinal as u64);
        m.append(" protected range start ");
        push_decimal(&mut m, handler.start_bci as u64);
        m.append(" is not an instruction start");
        return Err(Error::invalid_input_owned("classfile_instruction_invalid_target", m));
    }
    if handler.end_bci != code_length && !starts.contains(handler.end_bci) {
        let mut m = text("exception handler ");
        push_decimal(&mut m, ordinal as u64);
        m.append(" protected range end ");
        push_decimal(&mut m, handler.end_bci as u64);
        m.append(" is neither an instruction start nor code_length ");
        push_decimal(&mut m, code_length as u64);
        return Err(Error::invalid_input_owned("classfile_instruction_invalid_target", m));
    }
    let mut label = text("exception handler ");
    push_decimal(&mut label, ordinal as u64);
    label.append(" entry");
    check_target(starts, code_length, handler.handler_bci, label)
}

/// How many instructions of a body carry operand facts.
pub open spec fn fact_count(v: MethodCodeView) -> int {
    if v.instructions.len() < v.operands.len() { v.instructions.len() as int } else { v.operands.len() as int }
}

/// An absolute target lands inside the code array, on an instruction start.
pub open spec fn target_ok(instructions: Seq<InstructionFact>, code_length: int, target: int) -> bool {
    &&& 0 <= target < code_length
    &&& is_start(instructions, target as u32)
}

/// The default and every case of a `tableswitch` at `bci` land on instruction starts, and every
/// case has an index and a key that fit their types.
pub open spec fn table_ok(instructions: Seq<InstructionFact>, code_length: int, bci: u32, default_offset: i32, low: i32,
    offsets: Seq<i32>) -> bool {
    &&& target_ok(instructions, code_length, bci + default_offset)
    &&& forall|k: int| 0 <= k < offsets.len() ==> #[trigger] table_case_ok(instructions, code_length, bci, low, offsets, k)
}

/// Case `k` of a `tableswitch` at `bci`: its index and key fit their types, and its target lands
/// on an instruction start.
pub open spec fn table_case_ok(instructions: Seq<InstructionFact>, code_length: int, bci: u32, low: i32, offsets: Seq<i32>, k: int) -> bool {
    k <= u32::MAX && low + k <= i32::MAX && target_ok(instructions, code_length, bci + offsets[k])
}

/// The default and every case of a `lookupswitch` at `bci` land on instruction starts, and every
/// case has an index that fits its type.
pub open spec fn lookup_ok(instructions: Seq<InstructionFact>, code_length: int, bci: u32, default_offset: i32,
    pairs: Seq<(i32, i32)>) -> bool {
    &&& target_ok(instructions, code_length, bci + default_offset)
    &&& forall|k: int| 0 <= k < pairs.len() ==> #[trigger] lookup_case_ok(instructions, code_length, bci, pairs, k)
}

/// Pair `k` of a `lookupswitch` at `bci`: its index fits its type, and its target lands on an
/// instruction start.
pub open spec fn lookup_case_ok(instructions: Seq<InstructionFact>, code_length: int, bci: u32, pairs: Seq<(i32, i32)>, k: int) -> bool {
    k <= u32::MAX && target_ok(instructions, code_length, bci + pairs[k].1)
}

/// `e` is refused with `code`, when there is one.
pub open spec fn refused_with(code: Option<Seq<char>>, e: Error) -> bool {
    match code {
        Some(c) => is_invalid(e, c),
        None => false,
    }
}

/// The code case `k` of a `tableswitch` at `bci` is refused with, its checks in order: an index
/// past the `u32` range or a key `low + k` past the `i32` range, then its relative target; none
/// when the case is valid.
pub open spec fn table_case_code(instructions: Seq<InstructionFact>, code_length: u32, bci: u32, low: i32, offsets: Seq<i32>,
    k: int) -> Option<Seq<char>> {
    if k > u32::MAX || low + k > i32::MAX {
        Some("classfile_instruction_invalid_range"@)
    } else {
        relative_code(instructions, code_length, bci, offsets[k])
    }
}

/// The code pair `k` of a `lookupswitch` at `bci` is refused with: an index past the `u32`
/// range, then its relative target; none when the pair is valid.
pub open spec fn lookup_case_code(instructions: Seq<InstructionFact>, code_length: u32, bci: u32, pairs: Seq<(i32, i32)>,
    k: int) -> Option<Seq<char>> {
    if k > u32::MAX {
        Some("classfile_instruction_invalid_range"@)
    } else {
        relative_code(instructions, code_length, bci, pairs[k].1)
    }
}

/// `e` refuses the first refused case of a `tableswitch` at `bci`, with that case's code.
pub open spec fn table_case_refusal(instructions: Seq<InstructionFact>, code_length: u32, bci: u32, low: i32, offsets: Seq<i32>,
    e: Error) -> bool {
    exists|k: int| 0 <= k < offsets.len()
        && (forall|j: int| 0 <= j < k ==> #[trigger] table_case_code(instructions, code_length, bci, low, offsets, j) is None)
        && refused_with(#[trigger] table_case_code(instructions, code_length, bci, low, offsets, k), e)
}

/// `e` refuses the first refused pair of a `lookupswitch` at `bci`, with that pair's code.
pub open spec fn lookup_case_refusal(instructions: Seq<InstructionFact>, code_length: u32, bci: u32, pairs: Seq<(i32, i32)>,
    e: Error) -> bool {
    exists|k: int| 0 <= k < pairs.len()
        && (forall|j: int| 0 <= j < k ==> #[trigger] lookup_case_code(instructions, code_length, bci, pairs, j) is None)
        && refused_with(#[trigger] lookup_case_code(instructions, code_length, bci, pairs, k), e)
}

/// Every target a switch at `bci` encodes lands on an instruction start.
pub open spec fn switch_ok(instructions: Seq<InstructionFact>, code_length: int, bci: u32, s: SwitchOperands) -> bool {
    match s {
        SwitchOperands::Table { default_offset, low, offsets, .. } => table_ok(instructions, code_length, bci, default_offset, low, offsets@),
        SwitchOperands::Lookup { default_offset, pairs } => lookup_ok(instructions, code_length, bci, default_offset, pairs@),
    }
}

/// Every target the operands of the instruction at `bci` encode lands on an instruction start.
pub open spec fn operands_ok(instructions: Seq<InstructionFact>, code_length: int, bci: u32, o: InstructionOperands) -> bool {
    &&& (o.branch_offset matches Some(offset) ==> target_ok(instructions, code_length, bci + offset))
    &&& (o.switch matches Some(sw) ==> switch_ok(instructions, code_length, bci, sw))
}

/// Every target of a body is valid: its code length fits the BCI type, each instruction's
/// encoded targets land on instruction starts, and each exception-table record is valid.
pub open spec fn targets_valid(v: MethodCodeView) -> bool {
    let code_length = v.code_span.length as int;
    &&& code_length <= u32::MAX
    &&& forall|k: int| 0 <= k < fact_count(v) ==> operands_ok(v.instructions, code_length, v.instructions[k].bci, #[trigger] v.operands[k])
    &&& forall|h: int| 0 <= h < v.exception_handlers.len() ==> valid_handler(v.instructions, code_length as u32,
        #[trigger] v.exception_handlers[h])
}

/// The row of one target encoded at `bci` by a relative offset.
pub open spec fn row(bci: u32, kind: ControlFlowTargetKind, offset: int) -> ControlFlowTarget {
    ControlFlowTarget { instruction_bci: bci, kind, target_bci: (bci + offset) as u32 }
}

/// The rows of a `tableswitch`: its default, then its cases in payload order, each keyed
/// `low + index`.
pub open spec fn table_rows(bci: u32, default_offset: i32, low: i32, offsets: Seq<i32>) -> Seq<ControlFlowTarget> {
    seq![row(bci, ControlFlowTargetKind::SwitchDefault, default_offset as int)]
        + Seq::new(offsets.len(), |k: int| table_case(bci, low, offsets, k))
}

/// The row of case `k` of a `tableswitch`.
pub open spec fn table_case(bci: u32, low: i32, offsets: Seq<i32>, k: int) -> ControlFlowTarget {
    row(bci, ControlFlowTargetKind::SwitchCase { index: k as u32, key: (low + k) as i32 }, offsets[k] as int)
}

/// The rows of a `lookupswitch`: its default, then its pairs in payload order.
pub open spec fn lookup_rows(bci: u32, default_offset: i32, pairs: Seq<(i32, i32)>) -> Seq<ControlFlowTarget> {
    seq![row(bci, ControlFlowTargetKind::SwitchDefault, default_offset as int)]
        + Seq::new(pairs.len(), |k: int| lookup_case(bci, pairs, k))
}

/// The row of pair `k` of a `lookupswitch`.
pub open spec fn lookup_case(bci: u32, pairs: Seq<(i32, i32)>, k: int) -> ControlFlowTarget {
    row(bci, ControlFlowTargetKind::SwitchCase { index: k as u32, key: pairs[k].0 }, pairs[k].1 as int)
}

/// The rows of one switch.
pub open spec fn switch_rows(bci: u32, s: Option<SwitchOperands>) -> Seq<ControlFlowTarget> {
    match s {
        None => Seq::empty(),
        Some(SwitchOperands::Table { default_offset, low, offsets, .. }) => table_rows(bci, default_offset, low, offsets@),
        Some(SwitchOperands::Lookup { default_offset, pairs }) => lookup_rows(bci, default_offset, pairs@),
    }
}

/// The rows of one instruction: its branch, then its switch.
pub open spec fn instruction_rows(bci: u32, o: InstructionOperands) -> Seq<ControlFlowTarget> {
    (match o.branch_offset {
        Some(offset) => seq![row(bci, ControlFlowTargetKind::Branch { offset }, offset as int)],
        None => Seq::empty(),
    }) + switch_rows(bci, o.switch)
}

/// The rows of the first `n` instructions, in instruction order.
pub open spec fn body_rows(v: MethodCodeView, n: int) -> Seq<ControlFlowTarget>
    decreases n,
{
    if n <= 0 {
        Seq::empty()
    } else {
        body_rows(v, n - 1) + instruction_rows(v.instructions[n - 1].bci, v.operands[n - 1])
    }
}

/// The rows of the first `n` exception-table records: each entry, in ordinal order.
pub open spec fn handler_rows(v: MethodCodeView, n: int) -> Seq<ControlFlowTarget>
    decreases n,
{
    if n <= 0 {
        Seq::empty()
    } else {
        handler_rows(v, n - 1).push(ControlFlowTarget {
            instruction_bci: v.exception_handlers[n - 1].handler_bci,
            kind: ControlFlowTargetKind::Handler { ordinal: v.exception_handlers[n - 1].ordinal },
            target_bci: v.exception_handlers[n - 1].handler_bci,
        })
    }
}

/// Every control-flow target of a body: the instructions' branches and switches in
/// instruction order, then the exception table in ordinal order.
pub open spec fn targets_of(v: MethodCodeView) -> Seq<ControlFlowTarget> {
    body_rows(v, fact_count(v)) + handler_rows(v, v.exception_handlers.len() as int)
}

fn label_at(prefix: &str, bci: u32) -> (s: String)
    ensures
        s@ == prefix@ + decimal(bci as nat),
{
    let mut m = text(prefix);
    push_decimal(&mut m, bci as u64);
    m
}

/// Validates and appends the rows of one `tableswitch`.
fn table_targets(starts: &InstructionStarts, code_length: u32, bci: u32, default_offset: i32, low: i32, offsets: &Vec<i32>,
    targets: &mut Vec<ControlFlowTarget>) -> (r: Result<()>)
    ensures
        r is Ok ==> final(targets)@ == old(targets)@ + table_rows(bci, default_offset, low, offsets@)
            && table_ok(starts.instructions@, code_length as int, bci, default_offset, low, offsets@),
        r matches Err(e) ==> (bci_ordered(starts.instructions@) ==> !table_ok(starts.instructions@, code_length as int, bci,
            default_offset, low, offsets@))
            && (is_invalid(e, "classfile_code_span_overflow"@) || is_invalid(e, "classfile_instruction_target_out_of_bounds"@)
            || is_invalid(e, "classfile_instruction_invalid_target"@) || is_invalid(e, "classfile_instruction_invalid_range"@)),
        bci_ordered(starts.instructions@) ==> match relative_code(starts.instructions@, code_length, bci, default_offset) {
            Some(c) => r matches Err(e) && is_invalid(e, c),
            None => (r matches Err(e) ==> table_case_refusal(starts.instructions@, code_length, bci, low, offsets@, e)),
        },
{
    let ghost before = targets@;
    let ghost ins = starts.instructions@;
    let default = relative_target_bci(bci, default_offset)?;
    check_target(starts, code_length, default, label_at("switch default from BCI ", bci))?;
    targets.push(ControlFlowTarget { instruction_bci: bci, kind: ControlFlowTargetKind::SwitchDefault, target_bci: default });
    let mut index: usize = 0;
    while index < offsets.len()
        invariant
            ins == starts.instructions@,
            index <= offsets@.len(),
            target_ok(ins, code_length as int, bci + default_offset),
            targets@ == before + seq![row(bci, ControlFlowTargetKind::SwitchDefault, default_offset as int)]
                + Seq::new(index as nat, |k: int| table_case(bci, low, offsets@, k)),
            forall|k: int| 0 <= k < index ==> #[trigger] table_case_ok(ins, code_length as int, bci, low, offsets@, k),
            bci_ordered(ins) ==> forall|k: int| 0 <= k < index ==> #[trigger] table_case_code(ins, code_length, bci, low, offsets@, k)
                is None,
        decreases offsets@.len() - index,
    {
        let ghost at = table_case_ok(ins, code_length as int, bci, low, offsets@, index as int);
        let ghost code = table_case_code(ins, code_length, bci, low, offsets@, index as int);
        if index > u32::MAX as usize {
            let e = Error::invalid_input("classfile_instruction_invalid_range", "tableswitch index does not fit u32");
            proof { assert(refused_with(code, e)); }
            return Err(e);
        }
        let key = match table_key(low, index as u32) {
            Ok(k) => k,
            Err(e) => {
                proof { assert(refused_with(code, e)); }
                return Err(e);
            },
        };
        let target = match relative_target_bci(bci, offsets[index]) {
            Ok(t) => t,
            Err(e) => {
                proof { assert(refused_with(code, e)); }
                return Err(e);
            },
        };
        let mut label = text("switch case ");
        push_decimal(&mut label, index as u64);
        label.append(" from BCI ");
        push_decimal(&mut label, bci as u64);
        match check_target(starts, code_length, target, label) {
            Ok(()) => {},
            Err(e) => {
                proof { if bci_ordered(ins) { assert(refused_with(code, e)); } }
                return Err(e);
            },
        }
        targets.push(ControlFlowTarget { instruction_bci: bci, kind: ControlFlowTargetKind::SwitchCase { index: index as u32, key },
            target_bci: target });
        proof {
            assert(Seq::new((index + 1) as nat, |k: int| table_case(bci, low, offsets@, k)) =~= Seq::new(index as nat, |k: int| table_case(bci, low, offsets@, k)).push(table_case(bci, low, offsets@, index as int)));
        }
        index = index + 1;
    }
    proof {
        assert(targets@ =~= before + table_rows(bci, default_offset, low, offsets@));
        assert(table_ok(ins, code_length as int, bci, default_offset, low, offsets@));
    }
    Ok(())
}

/// Validates and appends the rows of one `lookupswitch`.
fn lookup_targets(starts: &InstructionStarts, code_length: u32, bci: u32, default_offset: i32, pairs: &Vec<(i32, i32)>,
    targets: &mut Vec<ControlFlowTarget>) -> (r: Result<()>)
    ensures
        r is Ok ==> final(targets)@ == old(targets)@ + lookup_rows(bci, default_offset, pairs@)
            && lookup_ok(starts.instructions@, code_length as int, bci, default_offset, pairs@),
        r matches Err(e) ==> (bci_ordered(starts.instructions@) ==> !lookup_ok(starts.instructions@, code_length as int, bci,
            default_offset, pairs@))
            && (is_invalid(e, "classfile_code_span_overflow"@) || is_invalid(e, "classfile_instruction_target_out_of_bounds"@)
            || is_invalid(e, "classfile_instruction_invalid_target"@) || is_invalid(e, "classfile_instruction_invalid_range"@)),
        bci_ordered(starts.instructions@) ==> match relative_code(starts.instructions@, code_length, bci, default_offset) {
            Some(c) => r matches Err(e) && is_invalid(e, c),
            None => (r matches Err(e) ==> lookup_case_refusal(starts.instructions@, code_length, bci, pairs@, e)),
        },
{
    let ghost before = targets@;
    let ghost ins = starts.instructions@;
    let default = relative_target_bci(bci, default_offset)?;
    check_target(starts, code_length, default, label_at("switch default from BCI ", bci))?;
    targets.push(ControlFlowTarget { instruction_bci: bci, kind: ControlFlowTargetKind::SwitchDefault, target_bci: default });
    let mut index: usize = 0;
    while index < pairs.len()
        invariant
            ins == starts.instructions@,
            index <= pairs@.len(),
            target_ok(ins, code_length as int, bci + default_offset),
            targets@ == before + seq![row(bci, ControlFlowTargetKind::SwitchDefault, default_offset as int)]
                + Seq::new(index as nat, |k: int| lookup_case(bci, pairs@, k)),
            forall|k: int| 0 <= k < index ==> #[trigger] lookup_case_ok(ins, code_length as int, bci, pairs@, k),
            bci_ordered(ins) ==> forall|k: int| 0 <= k < index ==> #[trigger] lookup_case_code(ins, code_length, bci, pairs@, k)
                is None,
        decreases pairs@.len() - index,
    {
        let ghost at = lookup_case_ok(ins, code_length as int, bci, pairs@, index as int);
        let ghost code = lookup_case_code(ins, code_length, bci, pairs@, index as int);
        if index > u32::MAX as usize {
            let e = Error::invalid_input("classfile_instruction_invalid_range", "lookupswitch index does not fit u32");
            proof { assert(refused_with(code, e)); }
            return Err(e);
        }
        let (key, offset) = pairs[index];
        let target = match relative_target_bci(bci, offset) {
            Ok(t) => t,
            Err(e) => {
                proof { assert(refused_with(code, e)); }
                return Err(e);
            },
        };
        let mut label = text("switch case ");
        push_decimal(&mut label, index as u64);
        label.append(" from BCI ");
        push_decimal(&mut label, bci as u64);
        match check_target(starts, code_length, target, label) {
            Ok(()) => {},
            Err(e) => {
                proof { if bci_ordered(ins) { assert(refused_with(code, e)); } }
                return Err(e);
            },
        }
        targets.push(ControlFlowTarget { instruction_bci: bci, kind: ControlFlowTargetKind::SwitchCase { index: index as u32, key },
            target_bci: target });
        proof {
            assert(Seq::new((index + 1) as nat, |k: int| lookup_case(bci, pairs@, k)) =~= Seq::new(index as nat, |k: int| lookup_case(bci, pairs@, k)).push(lookup_case(bci, pairs@, index as int)));
        }
        index = index + 1;
    }
    proof {
        assert(targets@ =~= before + lookup_rows(bci, default_offset, pairs@));
        assert(lookup_ok(ins, code_length as int, bci, default_offset, pairs@));
    }
    Ok(())
}

impl MethodCodeFacts {
    /// Every control-flow target of this method, validated against the instruction starts of
    /// the same facts: branch targets, switch defaults and cases, then the exception table in
    /// ordinal order. Validation stops at the first row that fails.
    #[verifier::rlimit(40)]
    pub fn control_flow_targets(&self) -> (r: Result<Vec<ControlFlowTarget>>)
        ensures
            self@.code_span.length > u32::MAX ==> (r matches Err(e) && is_invalid(e, "classfile_code_span_overflow"@)),
            r matches Ok(v) ==> v@ == targets_of(self@) && targets_valid(self@),
            r matches Err(e) ==> bci_ordered(self@.instructions) ==> !targets_valid(self@),
            r matches Err(e) ==> (bci_ordered(self@.instructions) && self@.code_span.length <= u32::MAX
                && (forall|k: int| 0 <= k < fact_count(self@) ==> operands_ok(self@.instructions, self@.code_span.length as int,
                    self@.instructions[k].bci, #[trigger] self@.operands[k]))
                ==> first_bad_handler(self@, e)),
            r matches Err(e) ==> (bci_ordered(self@.instructions) && self@.code_span.length <= u32::MAX
                ==> first_bad_instruction(self@, e) || first_bad_handler(self@, e)),
            r matches Err(e) ==> is_invalid(e, "classfile_code_span_overflow"@)
                || is_invalid(e, "classfile_instruction_target_out_of_bounds"@)
                || is_invalid(e, "classfile_instruction_invalid_target"@)
                || is_invalid(e, "classfile_exception_range_invalid"@)
                || is_invalid(e, "classfile_instruction_invalid_range"@),
    {
        if self.code_span.length > u32::MAX as u64 {
            return Err(Error::invalid_input("classfile_code_span_overflow", "code length does not fit u32"));
        }
        let code_length = self.code_span.length as u32;
        let starts = InstructionStarts::new(self.instructions.as_slice());
        let ghost me = self@;
        let mut targets: Vec<ControlFlowTarget> = Vec::new();
        let count = if self.instructions.len() < self.operands.len() { self.instructions.len() } else { self.operands.len() };
        assert(count == fact_count(me));
        let mut i: usize = 0;
        while i < count
            invariant
                me == self@,
                starts.instructions@ == me.instructions,
                code_length == me.code_span.length,
                count == fact_count(me),
                count <= me.instructions.len(),
                count <= me.operands.len(),
                i <= count,
                targets@ == body_rows(me, i as int),
                forall|k: int| 0 <= k < i ==> operands_ok(me.instructions, code_length as int, me.instructions[k].bci,
                    #[trigger] me.operands[k]),
            decreases count - i,
        {
            let fact = &self.instructions[i];
            let operands = &self.operands[i];
            let bci = fact.bci;
            let ghost before = targets@;
            match operands.branch_offset {
                Some(offset) => {
                    let target = match relative_target_bci(bci, offset) {
                        Ok(t) => t,
                        Err(e) => {
                            assert(!operands_ok(me.instructions, code_length as int, me.instructions[i as int].bci, me.operands[i as int]));
                            proof {
                                assert(instruction_refusal(me, i as int, e));
                                assert(first_bad_instruction(me, e));
                            }
                            return Err(e);
                        },
                    };
                    let mut label = label_at("branch from BCI ", bci);
                    label.append(" with offset ");
                    crate::text::push_signed(&mut label, offset as i64);
                    match check_target(&starts, code_length, target, label) {
                        Ok(()) => {},
                        Err(e) => {
                            assert(bci_ordered(me.instructions) ==> !operands_ok(me.instructions, code_length as int,
                                me.instructions[i as int].bci, me.operands[i as int]));
                            proof {
                                if bci_ordered(me.instructions) {
                                    assert(instruction_refusal(me, i as int, e));
                                    assert(first_bad_instruction(me, e));
                                }
                            }
                            return Err(e);
                        },
                    }
                    targets.push(ControlFlowTarget { instruction_bci: bci, kind: ControlFlowTargetKind::Branch { offset }, target_bci: target });
                },
                None => {},
            }
            let ghost after_branch = targets@;
            assert(bci_ordered(me.instructions) ==> match me.operands[i as int].branch_offset {
                Some(o) => relative_code(me.instructions, code_length, bci, o) is None,
                None => true,
            });
            let switched = match &operands.switch {
                None => Ok(()),
                Some(SwitchOperands::Table { default_offset, low, offsets, .. }) =>
                    table_targets(&starts, code_length, bci, *default_offset, *low, offsets, &mut targets),
                Some(SwitchOperands::Lookup { default_offset, pairs }) =>
                    lookup_targets(&starts, code_length, bci, *default_offset, pairs, &mut targets),
            };
            match switched {
                Ok(()) => {},
                Err(e) => {
                    assert(bci_ordered(me.instructions) ==> !operands_ok(me.instructions, code_length as int,
                        me.instructions[i as int].bci, me.operands[i as int]));
                    proof {
                        if bci_ordered(me.instructions) {
                            assert(instruction_refusal(me, i as int, e));
                            assert(first_bad_instruction(me, e));
                        }
                    }
                    return Err(e);
                },
            }
            proof {
                assert(targets@ =~= before + instruction_rows(bci, me.operands[i as int]));
                assert(operands_ok(me.instructions, code_length as int, me.instructions[i as int].bci, me.operands[i as int]));
            }
            i = i + 1;
        }
        let mut h: usize = 0;
        while h < self.exception_handlers.len()
            invariant
                me == self@,
                starts.instructions@ == me.instructions,
                code_length == me.code_span.length,
                count == fact_count(me),
                h <= me.exception_handlers.len(),
                targets@ == body_rows(me, count as int) + handler_rows(me, h as int),
                forall|k: int| 0 <= k < count ==> operands_ok(me.instructions, code_length as int, me.instructions[k].bci,
                    #[trigger] me.operands[k]),
                forall|x: int| 0 <= x < h ==> valid_handler(me.instructions, code_length, #[trigger] me.exception_handlers[x]),
            decreases me.exception_handlers.len() - h,
        {
            let handler = &self.exception_handlers[h];
            match check_protected_range(&starts, code_length, handler) {
                Ok(()) => {},
                Err(e) => {
                    assert(bci_ordered(me.instructions) ==> !valid_handler(me.instructions, code_length, me.exception_handlers[h as int]));
                    proof {
                        if bci_ordered(me.instructions) {
                            assert(handler_code(me.instructions, code_length, me.exception_handlers[h as int]) is Some);
                            assert(first_bad_handler(me, e));
                        }
                    }
                    return Err(e);
                },
            }
            targets.push(ControlFlowTarget {
                instruction_bci: handler.handler_bci,
                kind: ControlFlowTargetKind::Handler { ordinal: handler.ordinal },
                target_bci: handler.handler_bci,
            });
            proof {
                assert(targets@ =~= body_rows(me, count as int) + handler_rows(me, h + 1));
            }
            h = h + 1;
        }
        Ok(targets)
    }
}

} // verus!
