//! Running compiled code, one instruction at a time. Numbers are carried as the bits of their
//! double-precision value: the arithmetic on them, and the digits a printed number is shown
//! with, are the caller's.
use vstd::prelude::*;
use vstd::string::StringExecFns;
use vstd::string::StringSliceAdditionalSpecFns;

use crate::byte_code::{operands_fit, spec_decode, OpCode, OpCodeTypes};
use crate::gc::{live, marked, points_to, reachable, reachable_within, GcRef};
use crate::interner::StrId;
use crate::object::{field_entries, Obj, ObjBoundMethod, ObjFunction, ObjKind, UpvalueLocation};
use crate::value::{Value, ValueTypes};
use crate::vm::{
    global_entries, holds_string, limit_error, runtime_error_message, truthy, CallFrame,
    RuntimeErrorKind, VirtualMachine, VirtualMachineError, FRAMES_MAX,
};

verus! {

/// An operation on numbers, which the caller carries out on the numbers' bits.
#[derive(Clone, Copy, Debug, PartialEq, Eq, Structural)]
pub enum NumberOp {
    Add,
    Subtract,
    Multiply,
    Divide,
    Negate,
    Greater,
    Less,
    Equal,
}

/// What a step of the machine leaves to its caller.
#[derive(Clone, Copy, Debug)]
pub enum StepOutcome {
    /// Nothing: run the next step.
    Continue,
    /// Show the value, then run the next step.
    Print(Value),
    /// The program has ended.
    Halt,
}

/// A value as `print` shows it: a number, whose digits the caller writes, or text.
#[derive(Debug)]
pub enum DisplayValue {
    Number(u64),
    Text(String),
}

/// The message of the error raised by an operand that is neither two numbers nor two strings.
pub open spec fn add_operands_message() -> Seq<char> {
    "Operands must be two numbers or two strings."@
}

/// `e` is a run-time error with the message `message` and the stack trace `trace`.
pub open spec fn raised(e: VirtualMachineError, message: Seq<char>, trace: Seq<char>) -> bool {
    e matches VirtualMachineError::RuntimeError { kind, stacktrace } && runtime_error_message(kind)
        == message && stacktrace@ == trace
}

/// `r` is the error raised where the machine's own bookkeeping does not hold: a frame, an
/// object or a slot that is not there.
pub open spec fn faulted(r: Result<StepOutcome, VirtualMachineError>) -> bool {
    r matches Err(e) && e is Unhandled
}

/// `r` is the error raised by an operand that is not a number.
pub open spec fn not_a_number(
    r: Result<StepOutcome, VirtualMachineError>,
    instruction: OpCodeTypes,
    v: Value,
) -> bool {
    r matches Err(VirtualMachineError::UnexpectedStackOperandType { instruction: i, expected, actual })
        && i == instruction && expected == ValueTypes::Number && actual == value_type(v)
}

/// The kind of a value.
pub open spec fn value_type(v: Value) -> ValueTypes {
    match v {
        Value::Number(_) => ValueTypes::Number,
        Value::Bool(_) => ValueTypes::Bool,
        Value::Nil => ValueTypes::Nil,
        Value::Object(_) => ValueTypes::Object,
    }
}

/// `r` is the error raised by popping an empty stack.
pub open spec fn missing_operand(r: Result<StepOutcome, VirtualMachineError>) -> bool {
    r matches Err(VirtualMachineError::MissingStackOperand)
}

/// Whether two values are equal, the numbers compared as `num_eq` says.
pub open spec fn values_equal(l: Value, r: Value, num_eq: bool) -> bool {
    match (l, r) {
        (Value::Number(_), Value::Number(_)) => num_eq,
        (Value::Bool(a), Value::Bool(b)) => a == b,
        (Value::Nil, Value::Nil) => true,
        (Value::Object(a), Value::Object(b)) => a == b,
        _ => false,
    }
}

/// The text of the string object `r` refers to, if it is one.
pub open spec fn string_at(slots: Seq<Option<Obj>>, r: GcRef) -> Option<Seq<char>> {
    if live(slots, r.0 as int) {
        match slots[r.0 as int]->0.kind {
            ObjKind::String(s) => Some(s.value@),
            _ => None,
        }
    } else {
        None
    }
}

impl VirtualMachine {
    /// The frame being run.
    pub open spec fn top(&self) -> CallFrame {
        self.frames@[self.frame_idx as int]
    }

    /// The function the frame being run runs, where that frame and its objects are live.
    pub open spec fn top_function(&self) -> Option<ObjFunction> {
        if self.frame_idx < self.frames@.len() {
            self.frame_function(self.top())
        } else {
            None
        }
    }

    /// What the next step runs: `None` where there is no live frame to run, or the operands of
    /// the instruction there run past the end of the code; otherwise the instruction at the
    /// frame's instruction pointer and its size, `None` at the end of the code.
    pub open spec fn next_step(&self) -> Option<Option<(OpCode, nat)>> {
        match self.top_function() {
            Some(f) => if operands_fit(f.code.code@, self.top().ip as int) {
                Some(spec_decode(f.code.code@, self.top().ip as int))
            } else {
                None
            },
            None => None,
        }
    }

    /// The stack trace that a run-time error reports: every frame's, where each frame can be
    /// reported, else none.
    pub open spec fn error_trace(&self) -> Seq<char> {
        if forall|k: int| 0 <= k < self.frames@.len() ==> self.frame_ready(#[trigger] self.frames@[k]) {
            self.trace_from(0)
        } else {
            Seq::empty()
        }
    }

    /// `self` is `old` with the frame being run at `ip` and the stack `stack`; nothing else
    /// changed.
    pub open spec fn moved_to(&self, old: &Self, ip: int, stack: Seq<Value>) -> bool {
        &&& self.moved_with(old, ip, stack, global_entries(old.globals))
    }

    /// `self` is `old` with the frame being run at `ip`, the stack `stack` and the global
    /// variables `globals`; nothing else changed.
    pub open spec fn moved_with(
        &self,
        old: &Self,
        ip: int,
        stack: Seq<Value>,
        globals: Map<StrId, Value>,
    ) -> bool {
        &&& self.frame_idx == old.frame_idx
        &&& self.frames@ == old.frames@.update(
            old.frame_idx as int,
            CallFrame { closure: old.top().closure, ip: ip as usize, locals_idx: old.top().locals_idx },
        )
        &&& self.stack@ == stack
        &&& global_entries(self.globals) == globals
        &&& self.kept_but_globals(old)
    }

    /// The constants, tables, source map, open captured variables, heap and script of `self`
    /// are those of `old`.
    pub open spec fn kept_but_globals(&self, old: &Self) -> bool {
        &&& self.constants@ == old.constants@
        &&& self.interner == old.interner
        &&& self.string_table == old.string_table
        &&& self.codemap == old.codemap
        &&& self.open_upvalues.slots_to_values@ == old.open_upvalues.slots_to_values@
        &&& self.heap == old.heap
        &&& self.script_closure == old.script_closure
    }

    /// `self` is `old` after a step that left `stack` and went on to the next instruction.
    pub open spec fn went_on(&self, old: &Self, size: nat, stack: Seq<Value>) -> bool {
        self.moved_to(old, old.top().ip + size, stack)
    }

    /// The frame being run exists and its instruction pointer can move `size` bytes on.
    pub open spec fn can_step(&self, size: nat) -> bool {
        &&& self.frame_idx < self.frames@.len()
        &&& self.top().ip + size <= usize::MAX
    }

    /// The error raised where the machine's own bookkeeping does not hold.
    fn fault(&self) -> (r: VirtualMachineError)
        ensures
            r is Unhandled,
    {
        VirtualMachineError::Unhandled(String::from_str("invalid machine state"))
    }

    /// Whether every frame can be reported in a stack trace.
    fn frames_reportable(&self) -> (b: bool)
        ensures
            b == (forall|k: int| 0 <= k < self.frames@.len() ==> self.frame_ready(#[trigger] self.frames@[k])),
    {
        let mut i: usize = 0;
        while i < self.frames.len()
            invariant
                0 <= i <= self.frames@.len(),
                forall|k: int| 0 <= k < i ==> self.frame_ready(#[trigger] self.frames@[k]),
            decreases self.frames@.len() - i,
        {
            if !self.check_frame(&self.frames[i]) {
                return false;
            }
            i = i + 1;
        }
        true
    }

    /// The run-time error `kind`, with the stack trace of every frame where each can be
    /// reported.
    pub fn runtime_error(&self, kind: RuntimeErrorKind) -> (r: VirtualMachineError)
        ensures
            r matches VirtualMachineError::RuntimeError { kind: k, stacktrace } && k == kind
                && stacktrace@ == self.error_trace(),
    {
        let stacktrace = if self.frames_reportable() {
            self.stacktrace()
        } else {
            String::new()
        };
        VirtualMachineError::RuntimeError { kind, stacktrace }
    }

    /// The run-time error with the message `error`.
    fn unexpected(&self, error: &str) -> (r: VirtualMachineError)
        ensures
            raised(r, "Unexpected runtime "@ + error@, self.error_trace()),
    {
        self.runtime_error(RuntimeErrorKind::Unexpected { error: error.to_string() })
    }

    /// Moves the frame being run `size` bytes on.
    fn advance(&mut self, size: usize)
        requires
            old(self).can_step(size as nat),
        ensures
            final(self).went_on(old(self), size as nat, old(self).stack@),
    {
        let mut f = self.frames[self.frame_idx];
        f.ip = f.ip + size;
        self.frames.set(self.frame_idx, f);
    }

    /// Moves the frame being run to `ip`.
    fn jump_to(&mut self, ip: usize)
        requires
            old(self).frame_idx < old(self).frames@.len(),
        ensures
            final(self).moved_to(old(self), ip as int, old(self).stack@),
    {
        let mut f = self.frames[self.frame_idx];
        f.ip = ip;
        self.frames.set(self.frame_idx, f);
    }
}

// ---------------------------------------------------------------------------
// What each instruction does
// ---------------------------------------------------------------------------

/// `Constant(idx)` pushes the constant `idx`.
pub open spec fn constant_effect(
    o: VirtualMachine,
    n: VirtualMachine,
    idx: u16,
    size: nat,
    r: Result<StepOutcome, VirtualMachineError>,
) -> bool {
    if (idx as int) < o.constants@.len() {
        r matches Ok(StepOutcome::Continue) && n.went_on(&o, size, o.stack@.push(o.constants@[idx as int]))
    } else {
        faulted(r)
    }
}

/// An instruction that pushes `v`.
pub open spec fn push_effect(
    o: VirtualMachine,
    n: VirtualMachine,
    v: Value,
    size: nat,
    r: Result<StepOutcome, VirtualMachineError>,
) -> bool {
    r matches Ok(StepOutcome::Continue) && n.went_on(&o, size, o.stack@.push(v))
}

/// `Pop` drops the top of the stack.
pub open spec fn pop_effect(
    o: VirtualMachine,
    n: VirtualMachine,
    size: nat,
    r: Result<StepOutcome, VirtualMachineError>,
) -> bool {
    if o.stack@.len() > 0 {
        r matches Ok(StepOutcome::Continue) && n.went_on(&o, size, o.stack@.drop_last())
    } else {
        missing_operand(r)
    }
}

/// `Not` replaces the top of the stack by whether it is false.
pub open spec fn not_effect(
    o: VirtualMachine,
    n: VirtualMachine,
    size: nat,
    r: Result<StepOutcome, VirtualMachineError>,
) -> bool {
    if o.stack@.len() > 0 {
        r matches Ok(StepOutcome::Continue) && n.went_on(
            &o,
            size,
            o.stack@.drop_last().push(Value::Bool(!truthy(o.stack@.last()))),
        )
    } else {
        missing_operand(r)
    }
}

/// `Print` pops the top of the stack and hands it to the caller to show.
pub open spec fn print_effect(
    o: VirtualMachine,
    n: VirtualMachine,
    size: nat,
    r: Result<StepOutcome, VirtualMachineError>,
) -> bool {
    if o.stack@.len() > 0 {
        r matches Ok(StepOutcome::Print(v)) && v == o.stack@.last() && n.went_on(
            &o,
            size,
            o.stack@.drop_last(),
        )
    } else {
        missing_operand(r)
    }
}

/// `Negate` replaces the number on top of the stack by what the caller's negation gives.
pub open spec fn negate_effect<A: Fn(NumberOp, u64, u64) -> Value>(
    o: VirtualMachine,
    n: VirtualMachine,
    arith: A,
    size: nat,
    r: Result<StepOutcome, VirtualMachineError>,
) -> bool {
    if o.stack@.len() == 0 {
        missing_operand(r)
    } else {
        match o.stack@.last() {
            Value::Number(x) => {
                &&& r matches Ok(StepOutcome::Continue)
                &&& n.went_on(&o, size, o.stack@.drop_last().push(n.stack@.last()))
                &&& call_ensures(arith, (NumberOp::Negate, x, 0u64), n.stack@.last())
            },
            v => not_a_number(r, OpCodeTypes::Negate, v),
        }
    }
}

/// A binary instruction on numbers: it pops `a`, then `b`, each of which must be a number,
/// and pushes what the caller's `op` gives on (`a`, `b`), or on (`b`, `a`) where `swap` holds.
pub open spec fn numbers_effect<A: Fn(NumberOp, u64, u64) -> Value>(
    o: VirtualMachine,
    n: VirtualMachine,
    arith: A,
    instruction: OpCodeTypes,
    op: NumberOp,
    swap: bool,
    size: nat,
    r: Result<StepOutcome, VirtualMachineError>,
) -> bool {
    let s = o.stack@;
    if s.len() == 0 {
        missing_operand(r)
    } else if !(s.last() is Number) {
        not_a_number(r, instruction, s.last())
    } else if s.len() == 1 {
        missing_operand(r)
    } else if !(s[s.len() - 2] is Number) {
        not_a_number(r, instruction, s[s.len() - 2])
    } else {
        let a = s.last()->Number_0;
        let b = s[s.len() - 2]->Number_0;
        &&& r matches Ok(StepOutcome::Continue)
        &&& n.went_on(&o, size, s.drop_last().drop_last().push(n.stack@.last()))
        &&& call_ensures(arith, if swap { (op, b, a) } else { (op, a, b) }, n.stack@.last())
    }
}

/// `Equal` pops two values and pushes whether they are equal; two numbers are compared by the
/// caller.
pub open spec fn equal_effect<A: Fn(NumberOp, u64, u64) -> Value>(
    o: VirtualMachine,
    n: VirtualMachine,
    arith: A,
    size: nat,
    r: Result<StepOutcome, VirtualMachineError>,
) -> bool {
    let s = o.stack@;
    if s.len() < 2 {
        missing_operand(r)
    } else {
        let right = s.last();
        let left = s[s.len() - 2];
        &&& r matches Ok(StepOutcome::Continue)
        &&& n.went_on(&o, size, s.drop_last().drop_last().push(n.stack@.last()))
        &&& match (left, right) {
            (Value::Number(a), Value::Number(b)) => call_ensures(arith, (NumberOp::Equal, a, b), n.stack@.last()),
            _ => n.stack@.last() == Value::Bool(values_equal(left, right, false)),
        }
    }
}

/// `DeclareGlobal(name)` pops the top of the stack into the global variable `name`.
pub open spec fn declare_global_effect(
    o: VirtualMachine,
    n: VirtualMachine,
    name: StrId,
    size: nat,
    r: Result<StepOutcome, VirtualMachineError>,
) -> bool {
    if o.stack@.len() > 0 {
        r matches Ok(StepOutcome::Continue) && n.moved_with(
            &o,
            o.top().ip + size,
            o.stack@.drop_last(),
            global_entries(o.globals).insert(name, o.stack@.last()),
        )
    } else {
        missing_operand(r)
    }
}

/// The message of a global variable that is not defined.
pub open spec fn undefined_variable_message(name: Seq<char>) -> Seq<char> {
    "Undefined variable '"@ + name + "'."@
}

/// `GetGlobal(name)` pushes the value of the global variable `name`.
pub open spec fn get_global_effect(
    o: VirtualMachine,
    n: VirtualMachine,
    name: StrId,
    size: nat,
    r: Result<StepOutcome, VirtualMachineError>,
) -> bool {
    if global_entries(o.globals).contains_key(name) {
        r matches Ok(StepOutcome::Continue) && n.went_on(
            &o,
            size,
            o.stack@.push(global_entries(o.globals)[name]),
        )
    } else if (name.idx as int) < o.interner.strings().len() {
        r matches Err(e) && raised(
            e,
            undefined_variable_message(o.interner.strings()[name.idx as int]),
            o.error_trace(),
        )
    } else {
        faulted(r)
    }
}

/// `SetGlobal(name)` assigns the top of the stack, which it leaves there, to the global
/// variable `name`, which must be defined.
pub open spec fn set_global_effect(
    o: VirtualMachine,
    n: VirtualMachine,
    name: StrId,
    size: nat,
    r: Result<StepOutcome, VirtualMachineError>,
) -> bool {
    if o.stack@.len() == 0 {
        missing_operand(r)
    } else if (name.idx as int) >= o.interner.strings().len() {
        faulted(r)
    } else if !global_entries(o.globals).contains_key(name) {
        r matches Err(e) && raised(
            e,
            undefined_variable_message(o.interner.strings()[name.idx as int]),
            o.error_trace(),
        )
    } else {
        r matches Ok(StepOutcome::Continue) && n.moved_with(
            &o,
            o.top().ip + size,
            o.stack@,
            global_entries(o.globals).insert(name, o.stack@.last()),
        )
    }
}

/// `GetLocal(offset)` pushes the local `offset` of the frame being run.
pub open spec fn get_local_effect(
    o: VirtualMachine,
    n: VirtualMachine,
    offset: u16,
    size: nat,
    r: Result<StepOutcome, VirtualMachineError>,
) -> bool {
    let slot = o.top().locals_idx + offset;
    if slot < o.stack@.len() {
        r matches Ok(StepOutcome::Continue) && n.went_on(&o, size, o.stack@.push(o.stack@[slot]))
    } else {
        faulted(r)
    }
}

/// `SetLocal(offset)` assigns the top of the stack, which it leaves there, to the local
/// `offset`; where that local is the top itself, the stack stays as it is.
pub open spec fn set_local_effect(
    o: VirtualMachine,
    n: VirtualMachine,
    offset: u16,
    size: nat,
    r: Result<StepOutcome, VirtualMachineError>,
) -> bool {
    let slot = o.top().locals_idx + offset;
    let s = o.stack@;
    if s.len() == 0 {
        missing_operand(r)
    } else if slot < s.len() - 1 {
        r matches Ok(StepOutcome::Continue) && n.went_on(
            &o,
            size,
            s.drop_last().update(slot, s.last()).push(s.last()),
        )
    } else if slot == s.len() - 1 {
        r matches Ok(StepOutcome::Continue) && n.went_on(&o, size, s)
    } else {
        faulted(r)
    }
}

/// A jump `offset` bytes forward from the instruction.
pub open spec fn jump_effect(
    o: VirtualMachine,
    n: VirtualMachine,
    offset: i16,
    r: Result<StepOutcome, VirtualMachineError>,
) -> bool {
    if offset >= 0 && o.top().ip + offset <= usize::MAX {
        r matches Ok(StepOutcome::Continue) && n.moved_to(&o, o.top().ip + offset, o.stack@)
    } else {
        faulted(r)
    }
}

/// `JumpIfFalse(offset)` jumps where the top of the stack, which stays, is false.
pub open spec fn jump_if_false_effect(
    o: VirtualMachine,
    n: VirtualMachine,
    offset: i16,
    size: nat,
    r: Result<StepOutcome, VirtualMachineError>,
) -> bool {
    if o.stack@.len() == 0 {
        missing_operand(r)
    } else if truthy(o.stack@.last()) {
        r matches Ok(StepOutcome::Continue) && n.went_on(&o, size, o.stack@)
    } else {
        jump_effect(o, n, offset, r)
    }
}

/// `Loop(offset)` jumps `offset` bytes back.
pub open spec fn loop_effect(
    o: VirtualMachine,
    n: VirtualMachine,
    offset: i16,
    r: Result<StepOutcome, VirtualMachineError>,
) -> bool {
    if offset >= 0 && offset <= o.top().ip {
        r matches Ok(StepOutcome::Continue) && n.moved_to(&o, o.top().ip - offset, o.stack@)
    } else {
        faulted(r)
    }
}

/// The message of a run-time error raised with `text`.
pub open spec fn unexpected_message(text: Seq<char>) -> Seq<char> {
    "Unexpected runtime "@ + text
}

/// The stack without its two top values.
pub open spec fn drop_two(s: Seq<Value>) -> Seq<Value> {
    s.drop_last().drop_last()
}

/// `Add` pops two values: two numbers give what the caller's addition gives, two strings give
/// a string of their texts one after the other.
pub open spec fn add_effect<A: Fn(NumberOp, u64, u64) -> Value>(
    o: VirtualMachine,
    n: VirtualMachine,
    arith: A,
    size: nat,
    r: Result<StepOutcome, VirtualMachineError>,
) -> bool {
    let s = o.stack@;
    if s.len() < 2 {
        missing_operand(r)
    } else {
        let right = s.last();
        let left = s[s.len() - 2];
        match (left, right) {
            (Value::Number(a), Value::Number(b)) => {
                &&& r matches Ok(StepOutcome::Continue)
                &&& n.went_on(&o, size, drop_two(s).push(n.stack@.last()))
                &&& call_ensures(arith, (NumberOp::Add, a, b), n.stack@.last())
            },
            (Value::Object(a), Value::Object(b)) => if !live(o.heap.slots(), a.0 as int) || !live(
                o.heap.slots(),
                b.0 as int,
            ) {
                faulted(r)
            } else {
                match (string_at(o.heap.slots(), a), string_at(o.heap.slots(), b)) {
                    (Some(ta), Some(tb)) => if o.can_allocate(
                        (vstd::layout::size_of::<Obj>() + vstd::utf8::encode_utf8(ta + tb).len()) as int,
                    ) {
                        &&& r matches Ok(StepOutcome::Continue)
                        &&& n.stack@.drop_last() == drop_two(s)
                        &&& n.stack@.last() matches Value::Object(g) && holds_string(
                            n.heap.slots()[g.0 as int],
                            ta + tb,
                        )
                        &&& n.constants@ == o.constants@
                        &&& global_entries(n.globals) == global_entries(o.globals)
                        &&& n.frame_idx == o.frame_idx
                        &&& n.frames@ == o.frames@.update(
                            o.frame_idx as int,
                            CallFrame {
                                closure: o.top().closure,
                                ip: (o.top().ip + size) as usize,
                                locals_idx: o.top().locals_idx,
                            },
                        )
                    } else {
                        faulted(r)
                    },
                    _ => r matches Err(e) && raised(
                        e,
                        unexpected_message(add_operands_message()),
                        o.error_trace(),
                    ),
                }
            },
            _ => r matches Err(e) && raised(
                e,
                unexpected_message(add_operands_message()),
                o.error_trace(),
            ),
        }
    }
}

/// The function a closure object runs, where the closure and its function are live.
pub open spec fn closure_function(slots: Seq<Option<Obj>>, c: GcRef) -> Option<ObjFunction> {
    if live(slots, c.0 as int) {
        match slots[c.0 as int]->0.kind {
            ObjKind::Closure(cl) => if live(slots, cl.function.0 as int) {
                match slots[cl.function.0 as int]->0.kind {
                    ObjKind::Function(f) => Some(f),
                    _ => None,
                }
            } else {
                None
            },
            _ => None,
        }
    } else {
        None
    }
}

/// `o` calls the closure `c`, whose function takes `arity` arguments, with `argc` arguments
/// above the callee at stack slot `pos`: the caller moves `size` bytes on and a frame for `c`
/// starts there.
pub open spec fn called(
    o: VirtualMachine,
    n: VirtualMachine,
    c: GcRef,
    arity: usize,
    argc: nat,
    pos: int,
    size: nat,
    r: Result<StepOutcome, VirtualMachineError>,
) -> bool {
    if arity != argc {
        r matches Err(e) && raised(
            e,
            runtime_error_message(
                RuntimeErrorKind::InvalidFunArity { got: argc as usize, expected: arity },
            ),
            o.error_trace(),
        )
    } else if o.frames@.len() >= FRAMES_MAX {
        r matches Err(e) && raised(e, "Stack overflow."@, o.error_trace())
    } else {
        &&& r matches Ok(StepOutcome::Continue)
        &&& n.frame_idx == o.frame_idx + 1
        &&& n.frames@ == o.frames@.update(
            o.frame_idx as int,
            CallFrame {
                closure: o.top().closure,
                ip: (o.top().ip + size) as usize,
                locals_idx: o.top().locals_idx,
            },
        ).push(CallFrame { closure: c, ip: 0, locals_idx: pos as usize })
        &&& n.stack@ == o.stack@
        &&& global_entries(n.globals) == global_entries(o.globals)
        &&& n.kept_but_globals(&o)
    }
}

/// `mid` is `o` with the value `v` in stack slot `pos`.
pub open spec fn receiver_placed(o: VirtualMachine, mid: VirtualMachine, v: Value, pos: int) -> bool {
    &&& mid.stack@ == o.stack@.update(pos, v)
    &&& mid.kept_but_globals(&o)
    &&& global_entries(mid.globals) == global_entries(o.globals)
    &&& mid.frame_idx == o.frame_idx
    &&& mid.frames@ == o.frames@
}

/// `mid` is `o` with a new instance of class `c`, with no fields, in stack slot `pos`.
pub open spec fn instance_made(o: VirtualMachine, mid: VirtualMachine, c: GcRef, pos: int) -> bool {
    &&& mid.stack@.len() == o.stack@.len()
    &&& mid.stack@[pos] matches Value::Object(i) && mid.heap.slots()[i.0 as int] matches Some(obj)
        && (obj.kind matches ObjKind::Instance(inst) && inst.klass == c && field_entries(inst.fields)
        == Map::<GcRef, Value>::empty())
    &&& mid.stack@ == o.stack@.update(pos, mid.stack@[pos])
    &&& mid.constants@ == o.constants@
    &&& global_entries(mid.globals) == global_entries(o.globals)
    &&& mid.frame_idx == o.frame_idx
    &&& mid.frames@ == o.frames@
}

/// The method of class `c` named by the interned string `init`, where it has one.
pub open spec fn init_method(o: VirtualMachine, c: GcRef) -> Option<Value> {
    let t = o.string_table.entries();
    let h = crate::interner::str_hash("init"@);
    if live(o.heap.slots(), c.0 as int) && kind_of(o, c) is Class && t.contains_key(h)
        && string_at(o.heap.slots(), t[h]) == Some("init"@) && field_entries(
        kind_of(o, c)->Class_0.methods,
    ).contains_key(t[h]) {
        Some(field_entries(kind_of(o, c)->Class_0.methods)[t[h]])
    } else {
        None
    }
}

/// Calling a class without an initializer: no arguments are accepted, and the frame moves on.
pub open spec fn no_init_call(
    mid: VirtualMachine,
    n: VirtualMachine,
    argc: u8,
    size: nat,
    r: Result<StepOutcome, VirtualMachineError>,
) -> bool {
    &&& n.stack@ == mid.stack@
    &&& n.constants@ == mid.constants@
    &&& global_entries(n.globals) == global_entries(mid.globals)
    &&& if argc == 0 {
        &&& r matches Ok(StepOutcome::Continue)
        &&& n.frame_idx == mid.frame_idx
        &&& n.frames@ == mid.frames@.update(
            mid.frame_idx as int,
            CallFrame {
                closure: mid.top().closure,
                ip: (mid.top().ip + size) as usize,
                locals_idx: mid.top().locals_idx,
            },
        )
    } else {
        r matches Err(e) && raised(
            e,
            runtime_error_message(RuntimeErrorKind::InvalidFunArity { got: argc as usize, expected: 0 }),
            n.error_trace(),
        )
    }
}

/// `Call(argc)` calls the value below the `argc` arguments: a closure gets a frame; a class
/// gets an instance, which takes its place and is the receiver of the class's `init` method,
/// called with the arguments; without one, no arguments are accepted. A bound method's
/// receiver takes its place, and its method is called.
pub open spec fn call_effect(
    o: VirtualMachine,
    n: VirtualMachine,
    argc: u8,
    size: nat,
    r: Result<StepOutcome, VirtualMachineError>,
) -> bool {
    let s = o.stack@;
    if argc + 1 > s.len() {
        faulted(r)
    } else {
        let pos = s.len() - argc - 1;
        match s[pos] {
            Value::Object(c) => if !live(o.heap.slots(), c.0 as int) {
                faulted(r)
            } else {
                match o.heap.slots()[c.0 as int]->0.kind {
                    ObjKind::Closure(_) => match closure_function(o.heap.slots(), c) {
                        Some(f) => called(o, n, c, f.arity, argc as nat, pos, size, r),
                        None => faulted(r),
                    },
                    ObjKind::Class(_) => if !o.can_allocate(vstd::layout::size_of::<Obj>() as int) {
                        faulted(r)
                    } else {
                        exists|mid: VirtualMachine|
                            #[trigger] instance_made(o, mid, c, pos) && match init_method(mid, c) {
                                None => no_init_call(mid, n, argc, size, r),
                                Some(Value::Object(m)) => match closure_function(mid.heap.slots(), m) {
                                    Some(f) => called(mid, n, m, f.arity, argc as nat, pos, size, r),
                                    None => faulted(r),
                                },
                                Some(_) => faulted(r),
                            }
                    },
                    ObjKind::BoundMethod(b) => match closure_function(o.heap.slots(), b.method) {
                        Some(f) => exists|mid: VirtualMachine|
                            #[trigger] receiver_placed(o, mid, b.receiver, pos) && called(
                                mid,
                                n,
                                b.method,
                                f.arity,
                                argc as nat,
                                pos,
                                size,
                                r,
                            ),
                        None => faulted(r),
                    },
                    _ => r matches Err(e) && raised(
                        e,
                        runtime_error_message(RuntimeErrorKind::InvalidCallee),
                        o.error_trace(),
                    ),
                }
            },
            _ => r matches Err(e) && raised(
                e,
                runtime_error_message(RuntimeErrorKind::InvalidCallee),
                o.error_trace(),
            ),
        }
    }
}

/// Every open captured variable at or above stack slot `from` lies below `limit`.
pub open spec fn open_below(o: VirtualMachine, from: int, limit: int) -> bool {
    forall|k: usize| o.open_upvalues.slots_to_values@.contains_key(k) && k >= from ==> k < limit
}

/// The heap, open captured variables and stack of `n` are those of `o` once the captured
/// variables at or above `from` are closed over the stack `stack`.
pub open spec fn closed_from(o: VirtualMachine, n: VirtualMachine, from: usize, stack: Seq<Value>) -> bool {
    &&& n.heap.slots() == crate::vm::closing(
        o.heap.slots(),
        o.open_upvalues.slots_to_values@,
        from,
        stack,
    )
    &&& n.open_upvalues.slots_to_values@ == o.open_upvalues.slots_to_values@.restrict(
        Set::new(|k: usize| k < from),
    )
    &&& n.constants@ == o.constants@
    &&& n.interner == o.interner
    &&& n.string_table == o.string_table
    &&& global_entries(n.globals) == global_entries(o.globals)
    &&& n.codemap == o.codemap
    &&& n.script_closure == o.script_closure
}

/// `Ret` pops the result, closes the captured variables of the frame's slots, drops those
/// slots and the frame, and pushes the result for the caller.
pub open spec fn ret_effect(
    o: VirtualMachine,
    n: VirtualMachine,
    r: Result<StepOutcome, VirtualMachineError>,
) -> bool {
    let s = o.stack@;
    if s.len() == 0 {
        missing_operand(r)
    } else {
        let rest = s.drop_last();
        let base = o.top().locals_idx;
        if !open_below(o, base as int, rest.len() as int) || o.frame_idx == 0 {
            faulted(r)
        } else {
            &&& r matches Ok(StepOutcome::Continue)
            &&& closed_from(o, n, base, rest)
            &&& n.stack@ == (if base <= rest.len() {
                rest.subrange(0, base as int)
            } else {
                rest
            }).push(s.last())
            &&& n.frames@ == o.frames@.drop_last()
            &&& n.frame_idx == o.frame_idx - 1
        }
    }
}

/// `CloseUpvalue` closes the captured variable of the top slot, if any, and pops it.
pub open spec fn close_upvalue_effect(
    o: VirtualMachine,
    n: VirtualMachine,
    size: nat,
    r: Result<StepOutcome, VirtualMachineError>,
) -> bool {
    let s = o.stack@;
    if s.len() == 0 || !open_below(o, s.len() - 1, s.len() as int) {
        faulted(r)
    } else {
        &&& r matches Ok(StepOutcome::Continue)
        &&& closed_from(o, n, (s.len() - 1) as usize, s)
        &&& n.stack@ == s.drop_last()
        &&& n.frame_idx == o.frame_idx
        &&& n.frames@ == o.frames@.update(
            o.frame_idx as int,
            CallFrame {
                closure: o.top().closure,
                ip: (o.top().ip + size) as usize,
                locals_idx: o.top().locals_idx,
            },
        )
    }
}

/// The captured variable `slot` of the closure the frame being run runs, where the closure
/// is live and has one there.
pub open spec fn frame_upvalue(o: VirtualMachine, slot: u16) -> Option<GcRef> {
    let s = o.heap.slots();
    let c = o.top().closure;
    if live(s, c.0 as int) {
        match s[c.0 as int]->0.kind {
            ObjKind::Closure(cl) => if (slot as int) < cl.upvalues@.len() {
                Some(cl.upvalues@[slot as int])
            } else {
                None
            },
            _ => None,
        }
    } else {
        None
    }
}

/// Where the upvalue object `u` keeps its value, where it is a live upvalue object.
pub open spec fn upvalue_location(s: Seq<Option<Obj>>, u: GcRef) -> Option<UpvalueLocation> {
    if live(s, u.0 as int) {
        match s[u.0 as int]->0.kind {
            ObjKind::Upvalue(up) => Some(up.location),
            _ => None,
        }
    } else {
        None
    }
}

/// `GetUpvalue(slot)` pushes the value of the captured variable `slot`: its stack slot's while
/// it is open, its own once closed.
pub open spec fn get_upvalue_effect(
    o: VirtualMachine,
    n: VirtualMachine,
    slot: u16,
    size: nat,
    r: Result<StepOutcome, VirtualMachineError>,
) -> bool {
    match frame_upvalue(o, slot) {
        Some(u) => match upvalue_location(o.heap.slots(), u) {
            Some(UpvalueLocation::Open(k)) => if k < o.stack@.len() {
                r matches Ok(StepOutcome::Continue) && n.went_on(&o, size, o.stack@.push(o.stack@[k as int]))
            } else {
                faulted(r)
            },
            Some(UpvalueLocation::Closed(v)) => r matches Ok(StepOutcome::Continue) && n.went_on(
                &o,
                size,
                o.stack@.push(v),
            ),
            None => faulted(r),
        },
        None => faulted(r),
    }
}

/// `SetUpvalue(slot)` assigns the top of the stack, which stays, to the captured variable
/// `slot`: to its stack slot while it is open, to itself once closed.
pub open spec fn set_upvalue_effect(
    o: VirtualMachine,
    n: VirtualMachine,
    slot: u16,
    size: nat,
    r: Result<StepOutcome, VirtualMachineError>,
) -> bool {
    let s = o.stack@;
    if s.len() == 0 {
        missing_operand(r)
    } else {
        match frame_upvalue(o, slot) {
            Some(u) => match upvalue_location(o.heap.slots(), u) {
                Some(UpvalueLocation::Open(k)) => if k < s.len() {
                    r matches Ok(StepOutcome::Continue) && n.went_on(&o, size, s.update(k as int, s.last()))
                } else {
                    faulted(r)
                },
                Some(UpvalueLocation::Closed(_)) => {
                    &&& r matches Ok(StepOutcome::Continue)
                    &&& n.heap.slots() == o.heap.slots().update(
                        u.0 as int,
                        Some(crate::vm::closed_upvalue(s.last())),
                    )
                    &&& n.stack@ == s
                    &&& n.frame_idx == o.frame_idx
                    &&& n.frames@ == o.frames@.update(
                        o.frame_idx as int,
                        CallFrame {
                            closure: o.top().closure,
                            ip: (o.top().ip + size) as usize,
                            locals_idx: o.top().locals_idx,
                        },
                    )
                    &&& global_entries(n.globals) == global_entries(o.globals)
                    &&& n.open_upvalues.slots_to_values@ == o.open_upvalues.slots_to_values@
                    &&& n.constants@ == o.constants@
                },
                None => faulted(r),
            },
            None => faulted(r),
        }
    }
}

/// The object the constant `idx` refers to: `None` where there is no such constant,
/// `Some(None)` where it is no reference.
pub open spec fn constant_object(o: VirtualMachine, idx: u16) -> Option<Option<GcRef>> {
    if (idx as int) < o.constants@.len() {
        match o.constants@[idx as int] {
            Value::Object(g) => Some(Some(g)),
            _ => Some(None),
        }
    } else {
        None
    }
}

/// `r` is the run-time error with the text `text`, reported with `trace`.
pub open spec fn raised_text(r: Result<StepOutcome, VirtualMachineError>, text: Seq<char>, trace: Seq<char>) -> bool {
    r matches Err(e) && raised(e, unexpected_message(text), trace)
}

/// The message of a property that neither the instance nor its class has.
pub open spec fn undefined_property(name: Seq<char>) -> Seq<char> {
    "Undefined property '"@ + name + "'."@
}

/// The kind of the live object `g`.
pub open spec fn kind_of(o: VirtualMachine, g: GcRef) -> ObjKind {
    o.heap.slots()[g.0 as int]->0.kind
}

/// `n` is `o` with the frame being run moved `size` bytes on; the stack and the heap may
/// differ.
pub open spec fn frame_moved(o: VirtualMachine, n: VirtualMachine, size: nat) -> bool {
    &&& n.frame_idx == o.frame_idx
    &&& n.frames@ == o.frames@.update(
        o.frame_idx as int,
        CallFrame {
            closure: o.top().closure,
            ip: (o.top().ip + size) as usize,
            locals_idx: o.top().locals_idx,
        },
    )
}

/// `Class(idx)` pushes a new class named by the constant `idx`.
pub open spec fn class_effect(
    o: VirtualMachine,
    n: VirtualMachine,
    idx: u16,
    size: nat,
    r: Result<StepOutcome, VirtualMachineError>,
) -> bool {
    match constant_object(o, idx) {
        None => faulted(r),
        Some(None) => raised_text(r, "Expected string object in constants"@, o.error_trace()),
        Some(Some(name)) => if o.can_allocate(vstd::layout::size_of::<Obj>() as int) {
            &&& r matches Ok(StepOutcome::Continue)
            &&& n.stack@.drop_last() == o.stack@
            &&& n.stack@.last() matches Value::Object(c) && n.heap.slots()[c.0 as int] matches Some(obj)
                && !obj.is_marked && (obj.kind matches ObjKind::Class(k) && k.name == name
                && field_entries(k.methods) == Map::<GcRef, Value>::empty())
            &&& frame_moved(o, n, size)
            &&& n.constants@ == o.constants@
            &&& global_entries(n.globals) == global_entries(o.globals)
        } else {
            faulted(r)
        },
    }
}

/// `GetProperty(idx)` replaces the instance on top of the stack by its field named by the
/// constant `idx` or, where it has no such field, by its class's method of that name bound
/// to it.
pub open spec fn get_property_effect(
    o: VirtualMachine,
    n: VirtualMachine,
    idx: u16,
    size: nat,
    r: Result<StepOutcome, VirtualMachineError>,
) -> bool {
    let s = o.stack@;
    match constant_object(o, idx) {
        None => faulted(r),
        Some(None) => raised_text(r, "Expected string object in constants"@, o.error_trace()),
        Some(Some(name)) => if s.len() == 0 {
            missing_operand(r)
        } else {
            match s.last() {
                Value::Object(i) => if !live(o.heap.slots(), i.0 as int) {
                    faulted(r)
                } else {
                    match kind_of(o, i) {
                        ObjKind::Instance(inst) => if field_entries(inst.fields).contains_key(name) {
                            r matches Ok(StepOutcome::Continue) && n.went_on(
                                &o,
                                size,
                                s.drop_last().push(field_entries(inst.fields)[name]),
                            )
                        } else if !live(o.heap.slots(), inst.klass.0 as int) {
                            faulted(r)
                        } else if !(kind_of(o, inst.klass) is Class) {
                            raised_text(r, "Instance's klass is not a class"@, o.error_trace())
                        } else if field_entries(kind_of(o, inst.klass)->Class_0.methods).contains_key(
                            name,
                        ) {
                            bound_pushed(
                                o,
                                n,
                                s.drop_last(),
                                s.last(),
                                field_entries(kind_of(o, inst.klass)->Class_0.methods)[name],
                                size,
                                r,
                            )
                        } else {
                            match string_at(o.heap.slots(), name) {
                                Some(t) => raised_text(r, undefined_property(t), o.error_trace()),
                                None => faulted(r),
                            }
                        },
                        _ => raised_text(r, "Only instances have properties."@, o.error_trace()),
                    }
                },
                _ => raised_text(r, "Only instances have properties."@, o.error_trace()),
            }
        },
    }
}

/// The method `m` is bound to `receiver`: a new bound method is pushed on `below`, the stack
/// left under the operands, and the frame moves on.
pub open spec fn bound_pushed(
    o: VirtualMachine,
    n: VirtualMachine,
    below: Seq<Value>,
    receiver: Value,
    m: Value,
    size: nat,
    r: Result<StepOutcome, VirtualMachineError>,
) -> bool {
    match m {
        Value::Object(mr) => if o.can_allocate(vstd::layout::size_of::<Obj>() as int) {
            &&& r matches Ok(StepOutcome::Continue)
            &&& n.stack@.len() == below.len() + 1
            &&& n.stack@.drop_last() == below
            &&& n.stack@.last() matches Value::Object(b) && n.heap.slots()[b.0 as int] matches Some(obj)
                && !obj.is_marked && obj.kind == ObjKind::BoundMethod(
                ObjBoundMethod { receiver, method: mr },
            )
            &&& frame_moved(o, n, size)
            &&& n.constants@ == o.constants@
            &&& global_entries(n.globals) == global_entries(o.globals)
        } else {
            faulted(r)
        },
        _ => faulted(r),
    }
}

/// The bytes an instance with `fields` fields accounts for.
pub open spec fn instance_size(fields: nat) -> int {
    (vstd::layout::size_of::<Obj>() + fields * (vstd::layout::size_of::<GcRef>()
        + vstd::layout::size_of::<Value>())) as int
}

/// `SetProperty(idx)` pops a value and an instance, sets the instance's field named by the
/// constant `idx` to the value, and pushes the value.
pub open spec fn set_property_effect(
    o: VirtualMachine,
    n: VirtualMachine,
    idx: u16,
    size: nat,
    r: Result<StepOutcome, VirtualMachineError>,
) -> bool {
    let s = o.stack@;
    match constant_object(o, idx) {
        None => faulted(r),
        Some(None) => raised_text(r, "Expected string object in constants"@, o.error_trace()),
        Some(Some(name)) => if s.len() < 2 {
            missing_operand(r)
        } else {
            let value = s.last();
            match s[s.len() - 2] {
                Value::Object(i) => if !live(o.heap.slots(), i.0 as int) {
                    faulted(r)
                } else {
                    match kind_of(o, i) {
                        ObjKind::Instance(inst) => if field_entries(inst.fields).len() + 1 > usize::MAX
                            || instance_size(field_entries(inst.fields).len() + 1) > usize::MAX {
                            faulted(r)
                        } else {
                            &&& r matches Ok(StepOutcome::Continue)
                            &&& n.stack@ == drop_two(s).push(value)
                            &&& frame_moved(o, n, size)
                            &&& n.heap.slots().len() == o.heap.slots().len()
                            &&& forall|j: int| 0 <= j < o.heap.slots().len() && j != i.0 ==> n.heap.slots()[j] == o.heap.slots()[j]
                            &&& n.heap.slots()[i.0 as int] matches Some(obj) && !obj.is_marked && (obj.kind matches ObjKind::Instance(ni)
                                && ni.klass == inst.klass && field_entries(ni.fields) == field_entries(
                                inst.fields,
                            ).insert(name, value))
                            &&& global_entries(n.globals) == global_entries(o.globals)
                            &&& n.constants@ == o.constants@
                        },
                        _ => raised_text(r, "Only instances have fields."@, o.error_trace()),
                    }
                },
                _ => raised_text(r, "Only instances have fields."@, o.error_trace()),
            }
        },
    }
}

/// `Method(idx)` pops a closure and the class below it, and stores the closure in the class as
/// the method named by the constant `idx`, replacing any method of that name.
pub open spec fn method_effect(
    o: VirtualMachine,
    n: VirtualMachine,
    idx: u16,
    size: nat,
    r: Result<StepOutcome, VirtualMachineError>,
) -> bool {
    let s = o.stack@;
    match constant_object(o, idx) {
        None => faulted(r),
        Some(None) => raised_text(r, "Expected string object in constants"@, o.error_trace()),
        Some(Some(name)) => if s.len() == 0 {
            missing_operand(r)
        } else if !(s.last() is Object) {
            raised_text(r, "Expected closure object"@, o.error_trace())
        } else if s.len() == 1 {
            missing_operand(r)
        } else {
            let method = s.last();
            match s[s.len() - 2] {
                Value::Object(c) => if !live(o.heap.slots(), c.0 as int) {
                    faulted(r)
                } else {
                    match kind_of(o, c) {
                        ObjKind::Class(k) => if field_entries(k.methods).len() + 1 > usize::MAX
                            || instance_size(field_entries(k.methods).len() + 1) > usize::MAX {
                            faulted(r)
                        } else {
                            &&& r matches Ok(StepOutcome::Continue)
                            &&& n.stack@ == drop_two(s)
                            &&& frame_moved(o, n, size)
                            &&& n.heap.slots().len() == o.heap.slots().len()
                            &&& forall|j: int| 0 <= j < o.heap.slots().len() && j != c.0 ==> n.heap.slots()[j] == o.heap.slots()[j]
                            &&& n.heap.slots()[c.0 as int] matches Some(obj) && !obj.is_marked && (obj.kind matches ObjKind::Class(nk)
                                && nk.name == k.name && field_entries(nk.methods) == field_entries(
                                k.methods,
                            ).insert(name, method))
                            &&& global_entries(n.globals) == global_entries(o.globals)
                            &&& n.constants@ == o.constants@
                        },
                        _ => raised_text(r, "Expected class object"@, o.error_trace()),
                    }
                },
                _ => raised_text(r, "Expected class object"@, o.error_trace()),
            }
        },
    }
}

/// `Invoke(idx, argc)` calls the property named by the constant `idx` of the instance below
/// the `argc` arguments: a field holding a closure is called in the instance's place.
pub open spec fn invoke_effect(
    o: VirtualMachine,
    n: VirtualMachine,
    idx: u16,
    argc: u8,
    size: nat,
    r: Result<StepOutcome, VirtualMachineError>,
) -> bool {
    let s = o.stack@;
    match constant_object(o, idx) {
        None => faulted(r),
        Some(None) => raised_text(r, "Expected string constant for INVOKE"@, o.error_trace()),
        Some(Some(name)) => if argc + 1 > s.len() {
            faulted(r)
        } else {
            let pos = s.len() - argc - 1;
            match s[pos] {
                Value::Object(i) => if !live(o.heap.slots(), i.0 as int) {
                    faulted(r)
                } else {
                    match kind_of(o, i) {
                        ObjKind::Instance(inst) => if field_entries(inst.fields).contains_key(name) {
                            invoke_field_effect(o, n, field_entries(inst.fields)[name], argc, pos, size, r)
                        } else if !live(o.heap.slots(), inst.klass.0 as int) {
                            faulted(r)
                        } else if !(kind_of(o, inst.klass) is Class) {
                            raised_text(r, "Instance's klass is not a class"@, o.error_trace())
                        } else if field_entries(kind_of(o, inst.klass)->Class_0.methods).contains_key(
                            name,
                        ) {
                            invoke_method_effect(
                                o,
                                n,
                                field_entries(kind_of(o, inst.klass)->Class_0.methods)[name],
                                argc,
                                pos,
                                size,
                                r,
                            )
                        } else {
                            match string_at(o.heap.slots(), name) {
                                Some(t) => raised_text(r, undefined_property(t), o.error_trace()),
                                None => faulted(r),
                            }
                        },
                        _ => raised_text(r, "Only instances have properties."@, o.error_trace()),
                    }
                },
                _ => raised_text(r, "Only instances have properties."@, o.error_trace()),
            }
        },
    }
}

/// An invoked method `v` of the instance's class is called with `argc` arguments, the instance
/// staying in its stack slot `pos` as the method's receiver; the frame moves on.
pub open spec fn invoke_method_effect(
    o: VirtualMachine,
    n: VirtualMachine,
    v: Value,
    argc: u8,
    pos: int,
    size: nat,
    r: Result<StepOutcome, VirtualMachineError>,
) -> bool {
    match v {
        Value::Object(c) => if !live(o.heap.slots(), c.0 as int) {
            faulted(r)
        } else {
            match kind_of(o, c) {
                ObjKind::Closure(_) => match closure_function(o.heap.slots(), c) {
                    None => faulted(r),
                    Some(f) => if f.arity != argc {
                        r matches Err(e) && raised(
                            e,
                            runtime_error_message(
                                RuntimeErrorKind::InvalidFunArity { got: argc as usize, expected: f.arity },
                            ),
                            n.error_trace(),
                        ) && frame_moved(o, n, size)
                    } else if o.frames@.len() >= FRAMES_MAX {
                        r matches Err(e) && raised(e, "Stack overflow."@, n.error_trace())
                            && frame_moved(o, n, size)
                    } else {
                        &&& r matches Ok(StepOutcome::Continue)
                        &&& n.frame_idx == o.frame_idx + 1
                        &&& n.frames@ == o.frames@.update(
                            o.frame_idx as int,
                            CallFrame {
                                closure: o.top().closure,
                                ip: (o.top().ip + size) as usize,
                                locals_idx: o.top().locals_idx,
                            },
                        ).push(CallFrame { closure: c, ip: 0, locals_idx: pos as usize })
                        &&& n.stack@ == o.stack@
                        &&& global_entries(n.globals) == global_entries(o.globals)
                        &&& n.kept_but_globals(&o)
                    },
                },
                _ => r matches Err(e) && raised(
                    e,
                    runtime_error_message(RuntimeErrorKind::InvalidCallee),
                    n.error_trace(),
                ) && frame_moved(o, n, size),
            }
        },
        _ => r matches Err(e) && raised(
            e,
            runtime_error_message(RuntimeErrorKind::InvalidCallee),
            n.error_trace(),
        ) && frame_moved(o, n, size),
    }
}

/// An invoked field `v` takes the instance's stack slot `pos`, the frame moves on, and `v`
/// is called with `argc` arguments.
pub open spec fn invoke_field_effect(
    o: VirtualMachine,
    n: VirtualMachine,
    v: Value,
    argc: u8,
    pos: int,
    size: nat,
    r: Result<StepOutcome, VirtualMachineError>,
) -> bool {
    match v {
        Value::Object(c) => if !live(o.heap.slots(), c.0 as int) {
            faulted(r)
        } else {
            match kind_of(o, c) {
                ObjKind::Closure(_) => match closure_function(o.heap.slots(), c) {
                    None => faulted(r),
                    Some(f) => if f.arity != argc {
                        r matches Err(e) && raised(
                            e,
                            runtime_error_message(
                                RuntimeErrorKind::InvalidFunArity { got: argc as usize, expected: f.arity },
                            ),
                            n.error_trace(),
                        ) && frame_moved(o, n, size)
                    } else if o.frames@.len() >= FRAMES_MAX {
                        r matches Err(e) && raised(e, "Stack overflow."@, n.error_trace())
                            && frame_moved(o, n, size)
                    } else {
                        &&& r matches Ok(StepOutcome::Continue)
                        &&& n.frame_idx == o.frame_idx + 1
                        &&& n.frames@ == o.frames@.update(
                            o.frame_idx as int,
                            CallFrame {
                                closure: o.top().closure,
                                ip: (o.top().ip + size) as usize,
                                locals_idx: o.top().locals_idx,
                            },
                        ).push(CallFrame { closure: c, ip: 0, locals_idx: pos as usize })
                        &&& n.stack@ == o.stack@.update(pos, v)
                        &&& global_entries(n.globals) == global_entries(o.globals)
                        &&& n.kept_but_globals(&o)
                    },
                },
                _ => r matches Err(e) && raised(
                    e,
                    runtime_error_message(RuntimeErrorKind::InvalidCallee),
                    n.error_trace(),
                ) && frame_moved(o, n, size),
            }
        },
        _ => r matches Err(e) && raised(
            e,
            runtime_error_message(RuntimeErrorKind::InvalidCallee),
            n.error_trace(),
        ) && frame_moved(o, n, size),
    }
}

/// `Inherit` pops the subclass and copies into it the methods of the superclass below it
/// that it does not define itself.
pub open spec fn inherit_effect(
    o: VirtualMachine,
    n: VirtualMachine,
    size: nat,
    r: Result<StepOutcome, VirtualMachineError>,
) -> bool {
    let s = o.stack@;
    if s.len() < 2 {
        missing_operand(r)
    } else {
        let sub = s.last();
        match s[s.len() - 2] {
            Value::Object(sup) => if !live(o.heap.slots(), sup.0 as int) {
                faulted(r)
            } else if !(kind_of(o, sup) is Class) {
                raised_text(r, "Superclass must be a class."@, o.error_trace())
            } else {
                match sub {
                    Value::Object(c) => if !live(o.heap.slots(), c.0 as int) {
                        faulted(r)
                    } else {
                        match kind_of(o, c) {
                            ObjKind::Class(k) => {
                                let sup_methods = field_entries(kind_of(o, sup)->Class_0.methods);
                                let sub_methods = field_entries(k.methods);
                                if sub_methods.len() + sup_methods.len() > usize::MAX || instance_size(
                                    sub_methods.len() + sup_methods.len(),
                                ) > usize::MAX {
                                    faulted(r)
                                } else {
                                    &&& r matches Ok(StepOutcome::Continue)
                                    &&& n.stack@ == s.drop_last()
                                    &&& frame_moved(o, n, size)
                                    &&& n.heap.slots().len() == o.heap.slots().len()
                                    &&& forall|j: int|
                                        0 <= j < o.heap.slots().len() && j != c.0 ==> n.heap.slots()[j]
                                            == o.heap.slots()[j]
                                    &&& n.heap.slots()[c.0 as int] matches Some(obj) && !obj.is_marked && (
                                    obj.kind matches ObjKind::Class(nk) && nk.name == k.name
                                        && field_entries(nk.methods) == sup_methods.union_prefer_right(
                                        sub_methods,
                                    ))
                                    &&& global_entries(n.globals) == global_entries(o.globals)
                                    &&& n.constants@ == o.constants@
                                }
                            },
                            _ => raised_text(r, "Expected class object"@, o.error_trace()),
                        }
                    },
                    _ => raised_text(r, "Expected class object"@, o.error_trace()),
                }
            },
            _ => raised_text(r, "Superclass must be a class."@, o.error_trace()),
        }
    }
}

/// The stack trace of an error in a use of `super`: the line of the current instruction.
pub open spec fn line_trace(o: VirtualMachine) -> Option<Seq<char>> {
    if o.frame_idx < o.frames@.len() && o.frame_ready(o.top()) {
        Some(
            "[line "@ + crate::decimal::decimal_text(
                o.frame_function(o.top())->0.code.lines@[o.top().ip as int] as nat,
            ) + "]"@,
        )
    } else {
        None
    }
}

/// The error of a superclass without the method named `name`.
pub open spec fn no_super_method(o: VirtualMachine, name: GcRef, r: Result<StepOutcome, VirtualMachineError>) -> bool {
    match (string_at(o.heap.slots(), name), line_trace(o)) {
        (Some(t), Some(trace)) => raised_text(r, undefined_property(t), trace),
        _ => faulted(r),
    }
}

/// The methods of the class `c`, where `c` is a live class.
pub open spec fn class_methods(o: VirtualMachine, c: GcRef) -> Option<Map<GcRef, Value>> {
    if live(o.heap.slots(), c.0 as int) && kind_of(o, c) is Class {
        Some(field_entries(kind_of(o, c)->Class_0.methods))
    } else {
        None
    }
}

/// `GetSuper(idx)` pops the superclass and the receiver below it, and pushes the superclass's
/// method named by the constant `idx` bound to the receiver.
pub open spec fn get_super_effect(
    o: VirtualMachine,
    n: VirtualMachine,
    idx: u16,
    size: nat,
    r: Result<StepOutcome, VirtualMachineError>,
) -> bool {
    let s = o.stack@;
    match constant_object(o, idx) {
        None => faulted(r),
        Some(None) => raised_text(r, "Expected string constant for method name"@, o.error_trace()),
        Some(Some(name)) => if s.len() < 2 {
            missing_operand(r)
        } else {
            match s.last() {
                Value::Object(sup) => if !live(o.heap.slots(), sup.0 as int) {
                    faulted(r)
                } else {
                    match class_methods(o, sup) {
                        Some(ms) => if ms.contains_key(name) {
                            bound_pushed(o, n, drop_two(s), s[s.len() - 2], ms[name], size, r)
                        } else {
                            no_super_method(o, name, r)
                        },
                        None => no_super_method(o, name, r),
                    }
                },
                _ => raised_text(r, "Expected superclass"@, o.error_trace()),
            }
        },
    }
}

/// `SuperInvoke(idx, argc)` pops the superclass and calls its method named by the constant
/// `idx` with the `argc` arguments above the receiver, which stays in its stack slot.
pub open spec fn super_invoke_effect(
    o: VirtualMachine,
    n: VirtualMachine,
    idx: u16,
    argc: u8,
    size: nat,
    r: Result<StepOutcome, VirtualMachineError>,
) -> bool {
    let s = o.stack@;
    match constant_object(o, idx) {
        None => faulted(r),
        Some(None) => raised_text(r, "Expected string constant"@, o.error_trace()),
        Some(Some(name)) => if s.len() == 0 {
            missing_operand(r)
        } else {
            match s.last() {
                Value::Object(sup) => if !live(o.heap.slots(), sup.0 as int) {
                    faulted(r)
                } else {
                    match class_methods(o, sup) {
                        Some(ms) => if ms.contains_key(name) {
                            super_called(o, n, ms[name], argc, size, r)
                        } else {
                            no_super_method(o, name, r)
                        },
                        None => no_super_method(o, name, r),
                    }
                },
                _ => raised_text(r, "Expected superclass"@, o.error_trace()),
            }
        },
    }
}

/// The superclass's method `m` is called with `argc` arguments once the superclass is popped:
/// the receiver below the arguments stays in its slot, and a frame for `m` starts there.
pub open spec fn super_called(
    o: VirtualMachine,
    n: VirtualMachine,
    m: Value,
    argc: u8,
    size: nat,
    r: Result<StepOutcome, VirtualMachineError>,
) -> bool {
    let rest = o.stack@.drop_last();
    match m {
        Value::Object(c) => if argc + 1 > rest.len() {
            faulted(r)
        } else {
            match closure_function(o.heap.slots(), c) {
                None => faulted(r),
                Some(f) => if f.arity != argc {
                    match line_trace(o) {
                        Some(trace) => r matches Err(e) && raised(
                            e,
                            runtime_error_message(
                                RuntimeErrorKind::InvalidFunArity { got: argc as usize, expected: f.arity },
                            ),
                            trace,
                        ),
                        None => faulted(r),
                    }
                } else if o.frames@.len() >= FRAMES_MAX {
                    r matches Err(e) && raised(e, "Stack overflow."@, o.error_trace())
                } else {
                    &&& r matches Ok(StepOutcome::Continue)
                    &&& n.frame_idx == o.frame_idx + 1
                    &&& n.frames@ == o.frames@.update(
                        o.frame_idx as int,
                        CallFrame {
                            closure: o.top().closure,
                            ip: (o.top().ip + size) as usize,
                            locals_idx: o.top().locals_idx,
                        },
                    ).push(CallFrame { closure: c, ip: 0, locals_idx: (rest.len() - argc - 1) as usize })
                    &&& n.stack@ == rest
                    &&& global_entries(n.globals) == global_entries(o.globals)
                    &&& n.kept_but_globals(&o)
                },
            }
        },
        _ => faulted(r),
    }
}

/// The number of captures of the live function object `f`.
pub open spec fn function_captures(o: VirtualMachine, f: GcRef) -> Option<usize> {
    if live(o.heap.slots(), f.0 as int) {
        match kind_of(o, f) {
            ObjKind::Function(fun) => Some(fun.upvalue_count),
            _ => None,
        }
    } else {
        None
    }
}

/// The three bytes at `p` of `code` describe a capture: a local slot of the frame where the
/// first is 1, else a captured variable of the enclosing closure; the index follows.
pub open spec fn capture_described(code: Seq<u8>, p: int, is_local: bool, index: usize) -> bool {
    &&& 0 <= p
    &&& p + 3 <= code.len()
    &&& is_local == (code[p] == 1)
    &&& index == crate::byte_code::u16_at(code, p + 1)
}

/// The captured variable `index` of the closure the frame being run runs, where the closure
/// is live and has one there.
pub open spec fn enclosing_upvalue(o: VirtualMachine, index: int) -> Option<GcRef> {
    let s = o.heap.slots();
    let c = o.top().closure;
    if live(s, c.0 as int) {
        match s[c.0 as int]->0.kind {
            ObjKind::Closure(cl) => if 0 <= index < cl.upvalues@.len() {
                Some(cl.upvalues@[index])
            } else {
                None
            },
            _ => None,
        }
    } else {
        None
    }
}

/// `u`, captured by the description at `p` of the code the frame of `o` runs, is the open
/// captured variable of the frame's local slot in `n`, or the enclosing closure's captured
/// variable.
pub open spec fn captured_as_described(o: VirtualMachine, n: VirtualMachine, u: GcRef, p: int) -> bool {
    let code = o.top_function()->0.code.code@;
    let index = crate::byte_code::u16_at(code, p + 1);
    if code[p] == 1 {
        let slot = (o.top().locals_idx + index) as usize;
        n.open_upvalues.slots_to_values@.contains_key(slot) && n.open_upvalues.slots_to_values@[slot] == u
    } else {
        enclosing_upvalue(o, index as int) == Some(u)
    }
}

/// `Closure(idx)` pushes a closure of the function that the constant `idx` refers to, over
/// the captures that the code after the instruction describes, three bytes each.
pub open spec fn closure_effect(
    o: VirtualMachine,
    n: VirtualMachine,
    idx: u16,
    size: nat,
    r: Result<StepOutcome, VirtualMachineError>,
) -> bool {
    match constant_object(o, idx) {
        None => faulted(r),
        Some(None) => raised_text(r, "Expected function object in constants"@, n.error_trace())
            && frame_moved(o, n, size),
        Some(Some(f)) => match function_captures(o, f) {
            None => faulted(r),
            Some(count) => match r {
                Ok(out) => {
                    &&& out is Continue
                    &&& n.stack@.drop_last() == o.stack@
                    &&& n.stack@.last() matches Value::Object(c) && n.heap.slots()[c.0 as int] matches Some(obj)
                        && (obj.kind matches ObjKind::Closure(cl) && cl.function == f && cl.upvalues@.len()
                        == count && forall|j: int| 0 <= j < count ==> captured_as_described(
                        o,
                        n,
                        #[trigger] cl.upvalues@[j],
                        o.top().ip + size + 3 * j,
                    ))
                    &&& frame_moved(o, n, (size + 3 * count) as nat)
                    &&& n.constants@ == o.constants@
                    &&& global_entries(n.globals) == global_entries(o.globals)
                },
                Err(e) => e is Unhandled,
            },
        },
    }
}

impl VirtualMachine {
    fn op_constant(&mut self, idx: u16, size: usize) -> (r: Result<StepOutcome, VirtualMachineError>)
        requires
            old(self).wf(),
            old(self).can_step(size as nat),
        ensures
            final(self).wf(),
            constant_effect(*old(self), *final(self), idx, size as nat, r),
    {
        let i = idx as usize;
        if i < self.constants.len() {
            let v = self.constants[i];
            self.push(v);
            self.advance(size);
            Ok(StepOutcome::Continue)
        } else {
            Err(self.fault())
        }
    }

    fn op_push(&mut self, v: Value, size: usize) -> (r: Result<StepOutcome, VirtualMachineError>)
        requires
            old(self).wf(),
            old(self).can_step(size as nat),
        ensures
            final(self).wf(),
            push_effect(*old(self), *final(self), v, size as nat, r),
    {
        self.push(v);
        self.advance(size);
        Ok(StepOutcome::Continue)
    }

    fn op_pop(&mut self, size: usize) -> (r: Result<StepOutcome, VirtualMachineError>)
        requires
            old(self).wf(),
            old(self).can_step(size as nat),
        ensures
            final(self).wf(),
            pop_effect(*old(self), *final(self), size as nat, r),
    {
        match self.pop() {
            Ok(_) => {},
            Err(e) => {
                return Err(e);
            },
        }
        self.advance(size);
        Ok(StepOutcome::Continue)
    }

    fn op_not(&mut self, size: usize) -> (r: Result<StepOutcome, VirtualMachineError>)
        requires
            old(self).wf(),
            old(self).can_step(size as nat),
        ensures
            final(self).wf(),
            not_effect(*old(self), *final(self), size as nat, r),
    {
        let value = match self.pop() {
            Ok(v) => v,
            Err(e) => {
                return Err(e);
            },
        };
        let b = self.is_truthy(&value);
        self.push(Value::Bool(!b));
        self.advance(size);
        Ok(StepOutcome::Continue)
    }

    fn op_print(&mut self, size: usize) -> (r: Result<StepOutcome, VirtualMachineError>)
        requires
            old(self).wf(),
            old(self).can_step(size as nat),
        ensures
            final(self).wf(),
            print_effect(*old(self), *final(self), size as nat, r),
    {
        let value = match self.pop() {
            Ok(v) => v,
            Err(e) => {
                return Err(e);
            },
        };
        self.advance(size);
        Ok(StepOutcome::Print(value))
    }

    /// Pops a number for `instruction`: an error where the stack is empty or its top is no
    /// number.
    pub fn pop_number(&mut self, instruction: OpCodeTypes) -> (r: Result<u64, VirtualMachineError>)
        ensures
            old(self).stack@.len() > 0 ==> final(self).stack@ == old(self).stack@.drop_last(),
            old(self).stack@.len() == 0 ==> r matches Err(VirtualMachineError::MissingStackOperand),
            old(self).stack@.len() > 0 ==> match old(self).stack@.last() {
                Value::Number(x) => r == Ok::<u64, VirtualMachineError>(x),
                v => r matches Err(VirtualMachineError::UnexpectedStackOperandType { instruction: i, expected, actual })
                    && i == instruction && expected == ValueTypes::Number && actual == value_type(v),
            },
            final(self).constants@ == old(self).constants@,
            final(self).same_but_stack_and_constants(old(self)),
    {
        let value = match self.pop() {
            Ok(v) => v,
            Err(e) => {
                return Err(e);
            },
        };
        match value {
            Value::Number(x) => Ok(x),
            _ => Err(
                VirtualMachineError::UnexpectedStackOperandType {
                    instruction,
                    expected: ValueTypes::Number,
                    actual: value.value_type(),
                },
            ),
        }
    }

    fn op_negate<A: Fn(NumberOp, u64, u64) -> Value>(&mut self, arith: &A, size: usize) -> (r: Result<
        StepOutcome,
        VirtualMachineError,
    >)
        requires
            old(self).wf(),
            old(self).can_step(size as nat),
            forall|op: NumberOp, a: u64, b: u64| arith.requires((op, a, b)),
        ensures
            final(self).wf(),
            negate_effect(*old(self), *final(self), *arith, size as nat, r),
    {
        let x = match self.pop_number(OpCodeTypes::Negate) {
            Ok(x) => x,
            Err(e) => {
                return Err(e);
            },
        };
        let v = arith(NumberOp::Negate, x, 0);
        self.push(v);
        self.advance(size);
        Ok(StepOutcome::Continue)
    }

    fn op_numbers<A: Fn(NumberOp, u64, u64) -> Value>(
        &mut self,
        arith: &A,
        instruction: OpCodeTypes,
        op: NumberOp,
        swap: bool,
        size: usize,
    ) -> (r: Result<StepOutcome, VirtualMachineError>)
        requires
            old(self).wf(),
            old(self).can_step(size as nat),
            forall|op: NumberOp, a: u64, b: u64| arith.requires((op, a, b)),
        ensures
            final(self).wf(),
            numbers_effect(*old(self), *final(self), *arith, instruction, op, swap, size as nat, r),
    {
        let a = match self.pop_number(instruction) {
            Ok(x) => x,
            Err(e) => {
                return Err(e);
            },
        };
        let b = match self.pop_number(instruction) {
            Ok(x) => x,
            Err(e) => {
                return Err(e);
            },
        };
        let v = if swap {
            arith(op, b, a)
        } else {
            arith(op, a, b)
        };
        self.push(v);
        self.advance(size);
        Ok(StepOutcome::Continue)
    }

    fn op_equal<A: Fn(NumberOp, u64, u64) -> Value>(&mut self, arith: &A, size: usize) -> (r: Result<
        StepOutcome,
        VirtualMachineError,
    >)
        requires
            old(self).wf(),
            old(self).can_step(size as nat),
            forall|op: NumberOp, a: u64, b: u64| arith.requires((op, a, b)),
        ensures
            final(self).wf(),
            equal_effect(*old(self), *final(self), *arith, size as nat, r),
    {
        let right = match self.pop() {
            Ok(v) => v,
            Err(e) => {
                return Err(e);
            },
        };
        let left = match self.pop() {
            Ok(v) => v,
            Err(e) => {
                return Err(e);
            },
        };
        let v = match (left, right) {
            (Value::Number(a), Value::Number(b)) => arith(NumberOp::Equal, a, b),
            (Value::Bool(a), Value::Bool(b)) => Value::Bool(a == b),
            (Value::Nil, Value::Nil) => Value::Bool(true),
            (Value::Object(a), Value::Object(b)) => Value::Bool(a == b),
            _ => Value::Bool(false),
        };
        self.push(v);
        self.advance(size);
        Ok(StepOutcome::Continue)
    }

    fn op_declare_global(&mut self, name: StrId, size: usize) -> (r: Result<StepOutcome, VirtualMachineError>)
        requires
            old(self).wf(),
            old(self).can_step(size as nat),
        ensures
            final(self).wf(),
            declare_global_effect(*old(self), *final(self), name, size as nat, r),
    {
        let value = match self.pop() {
            Ok(v) => v,
            Err(e) => {
                return Err(e);
            },
        };
        self.set_global(name, value);
        self.advance(size);
        Ok(StepOutcome::Continue)
    }

    fn op_get_global(&mut self, name: StrId, size: usize) -> (r: Result<StepOutcome, VirtualMachineError>)
        requires
            old(self).wf(),
            old(self).can_step(size as nat),
        ensures
            final(self).wf(),
            get_global_effect(*old(self), *final(self), name, size as nat, r),
    {
        match self.get_global(name) {
            Some(v) => {
                self.push(v);
                self.advance(size);
                Ok(StepOutcome::Continue)
            },
            None => {
                if (name.idx as usize) < self.interner.count() {
                    let text = self.interner.get_str(name).to_string();
                    Err(self.runtime_error(RuntimeErrorKind::UndefinedVariable { name: text }))
                } else {
                    Err(self.fault())
                }
            },
        }
    }

    fn op_set_global(&mut self, name: StrId, size: usize) -> (r: Result<StepOutcome, VirtualMachineError>)
        requires
            old(self).wf(),
            old(self).can_step(size as nat),
        ensures
            final(self).wf(),
            set_global_effect(*old(self), *final(self), name, size as nat, r),
    {
        let value = match self.peek() {
            Ok(v) => v,
            Err(e) => {
                return Err(e);
            },
        };
        if (name.idx as usize) >= self.interner.count() {
            return Err(self.fault());
        }
        match self.get_global(name) {
            None => {
                let text = self.interner.get_str(name).to_string();
                Err(self.runtime_error(RuntimeErrorKind::UndefinedVariable { name: text }))
            },
            Some(_) => {
                self.set_global(name, value);
                self.advance(size);
                Ok(StepOutcome::Continue)
            },
        }
    }

    fn op_get_local(&mut self, offset: u16, size: usize) -> (r: Result<StepOutcome, VirtualMachineError>)
        requires
            old(self).wf(),
            old(self).can_step(size as nat),
        ensures
            final(self).wf(),
            get_local_effect(*old(self), *final(self), offset, size as nat, r),
    {
        let base = self.frames[self.frame_idx].locals_idx;
        if base >= self.stack.len() || offset as usize >= self.stack.len() - base {
            return Err(self.fault());
        }
        let v = self.stack[base + offset as usize];
        self.push(v);
        self.advance(size);
        Ok(StepOutcome::Continue)
    }

    fn op_set_local(&mut self, offset: u16, size: usize) -> (r: Result<StepOutcome, VirtualMachineError>)
        requires
            old(self).wf(),
            old(self).can_step(size as nat),
        ensures
            final(self).wf(),
            set_local_effect(*old(self), *final(self), offset, size as nat, r),
    {
        let value = match self.pop() {
            Ok(v) => v,
            Err(e) => {
                return Err(e);
            },
        };
        let base = self.frames[self.frame_idx].locals_idx;
        let len = self.stack.len();
        if base <= len && offset as usize == len - base {
            self.push(value);
            assert(self.stack@ =~= old(self).stack@);
        } else if base < len && (offset as usize) < len - base {
            self.stack.set(base + offset as usize, value);
            self.push(value);
        } else {
            return Err(self.fault());
        }
        self.advance(size);
        Ok(StepOutcome::Continue)
    }

    fn op_jump(&mut self, offset: i16) -> (r: Result<StepOutcome, VirtualMachineError>)
        requires
            old(self).wf(),
            old(self).frame_idx < old(self).frames@.len(),
        ensures
            final(self).wf(),
            jump_effect(*old(self), *final(self), offset, r),
    {
        let ip = self.frames[self.frame_idx].ip;
        if offset < 0 {
            return Err(self.fault());
        }
        let forward = offset as usize;
        if ip > usize::MAX - forward {
            return Err(self.fault());
        }
        self.jump_to(ip + forward);
        Ok(StepOutcome::Continue)
    }

    fn op_jump_if_false(&mut self, offset: i16, size: usize) -> (r: Result<StepOutcome, VirtualMachineError>)
        requires
            old(self).wf(),
            old(self).can_step(size as nat),
        ensures
            final(self).wf(),
            jump_if_false_effect(*old(self), *final(self), offset, size as nat, r),
    {
        let value = match self.peek() {
            Ok(v) => v,
            Err(e) => {
                return Err(e);
            },
        };
        if self.is_truthy(&value) {
            self.advance(size);
            Ok(StepOutcome::Continue)
        } else {
            self.op_jump(offset)
        }
    }

    fn op_loop(&mut self, offset: i16) -> (r: Result<StepOutcome, VirtualMachineError>)
        requires
            old(self).wf(),
            old(self).frame_idx < old(self).frames@.len(),
        ensures
            final(self).wf(),
            loop_effect(*old(self), *final(self), offset, r),
    {
        let ip = self.frames[self.frame_idx].ip;
        if offset < 0 {
            return Err(self.fault());
        }
        let back = offset as usize;
        if back > ip {
            return Err(self.fault());
        }
        self.jump_to(ip - back);
        Ok(StepOutcome::Continue)
    }
}

impl VirtualMachine {
    /// The text of the two string objects `a` and `b`, one after the other.
    fn concat_strings(&self, a: GcRef, b: GcRef) -> (r: String)
        requires
            string_at(self.heap.slots(), a) is Some,
            string_at(self.heap.slots(), b) is Some,
        ensures
            r@ == string_at(self.heap.slots(), a)->0 + string_at(self.heap.slots(), b)->0,
    {
        let sa = self.get_heap_string(a);
        let sb = self.get_heap_string(b);
        let mut t = sa.to_string();
        t.append(sb);
        t
    }

    /// Whether `r` refers to a live string object.
    fn is_string(&self, r: GcRef) -> (b: bool)
        ensures
            b == string_at(self.heap.slots(), r) is Some,
    {
        if !self.heap.is_valid(r) {
            return false;
        }
        match &self.heap.get(r).kind {
            ObjKind::String(_) => true,
            _ => false,
        }
    }

    fn op_add<A: Fn(NumberOp, u64, u64) -> Value>(&mut self, arith: &A, size: usize) -> (r: Result<
        StepOutcome,
        VirtualMachineError,
    >)
        requires
            old(self).wf(),
            old(self).can_step(size as nat),
            forall|op: NumberOp, a: u64, b: u64| arith.requires((op, a, b)),
        ensures
            final(self).wf(),
            add_effect(*old(self), *final(self), *arith, size as nat, r),
    {
        let len = self.stack.len();
        if len < 2 {
            return Err(VirtualMachineError::MissingStackOperand);
        }
        let right = self.stack[len - 1];
        let left = self.stack[len - 2];
        match (left, right) {
            (Value::Number(a), Value::Number(b)) => {
                let v = arith(NumberOp::Add, a, b);
                let _ = self.pop();
                let _ = self.pop();
                self.push(v);
                self.advance(size);
                Ok(StepOutcome::Continue)
            },
            (Value::Object(a), Value::Object(b)) => {
                if !self.heap.is_valid(a) || !self.heap.is_valid(b) {
                    return Err(self.fault());
                }
                if !self.is_string(a) || !self.is_string(b) {
                    return Err(self.unexpected("Operands must be two numbers or two strings."));
                }
                let text = self.concat_strings(a, b);
                if !self.heap_room(text.as_str().as_bytes().len()) {
                    return Err(self.fault());
                }
                let _ = self.pop();
                let _ = self.pop();
                let g = self.alloc_string(text);
                self.push(Value::Object(g));
                assert(self.stack@.drop_last() =~= drop_two(old(self).stack@));
                self.advance(size);
                Ok(StepOutcome::Continue)
            },
            _ => Err(self.unexpected("Operands must be two numbers or two strings.")),
        }
    }

    /// The arity of the function the closure `c` runs, where the closure and function are live.
    fn closure_arity(&self, c: GcRef) -> (r: Option<usize>)
        ensures
            r == (match closure_function(self.heap.slots(), c) {
                Some(f) => Some(f.arity),
                None => None::<usize>,
            }),
    {
        if !self.heap.is_valid(c) {
            return None;
        }
        let fref = match &self.heap.get(c).kind {
            ObjKind::Closure(cl) => cl.function,
            _ => {
                return None;
            },
        };
        if !self.heap.is_valid(fref) {
            return None;
        }
        match &self.heap.get(fref).kind {
            ObjKind::Function(f) => Some(f.arity),
            _ => None,
        }
    }

    /// Calls the closure `c`, whose function takes `arity` arguments, with `argc` arguments
    /// above the callee at stack slot `pos`.
    fn call_closure(&mut self, c: GcRef, arity: usize, argc: usize, pos: usize, size: usize) -> (r: Result<
        StepOutcome,
        VirtualMachineError,
    >)
        requires
            old(self).wf(),
            old(self).can_step(size as nat),
        ensures
            final(self).wf(),
            called(*old(self), *final(self), c, arity, argc as nat, pos as int, size as nat, r),
    {
        if arity != argc {
            return Err(
                self.runtime_error(RuntimeErrorKind::InvalidFunArity { got: argc, expected: arity }),
            );
        }
        if self.frames.len() >= FRAMES_MAX {
            return Err(self.runtime_error(RuntimeErrorKind::StackOverflow));
        }
        self.advance(size);
        self.frames.push(CallFrame { closure: c, ip: 0, locals_idx: pos });
        self.frame_idx = self.frame_idx + 1;
        Ok(StepOutcome::Continue)
    }

    /// The method of class `c` named `init`: the string table is asked for the interned string
    /// of that text, and the class for the method of that name.
    fn init_of(&self, c: GcRef) -> (r: Option<Value>)
        ensures
            r == init_method(*self, c),
    {
        if !self.heap.is_valid(c) {
            return None;
        }
        match &self.heap.get(c).kind {
            ObjKind::Class(_) => {},
            _ => {
                return None;
            },
        }
        let h = self.string_table.hash_string("init");
        let sref = match self.string_table.get(h) {
            Some(x) => x,
            None => {
                return None;
            },
        };
        if !self.heap.is_valid(sref) {
            return None;
        }
        let is_init = match &self.heap.get(sref).kind {
            ObjKind::String(st) => crate::vm::str_eq(st.value.as_str(), "init"),
            _ => false,
        };
        if !is_init {
            return None;
        }
        match &self.heap.get(c).kind {
            ObjKind::Class(k) => k.method(sref),
            _ => None,
        }
    }

    fn op_call(&mut self, argc: u8, size: usize) -> (r: Result<StepOutcome, VirtualMachineError>)
        requires
            old(self).wf(),
            old(self).can_step(size as nat),
        ensures
            final(self).wf(),
            call_effect(*old(self), *final(self), argc, size as nat, r),
    {
        let n = argc as usize;
        let len = self.stack.len();
        if n + 1 > len {
            return Err(self.fault());
        }
        let pos = len - n - 1;
        match self.stack[pos] {
            Value::Object(c) => {
                if !self.heap.is_valid(c) {
                    return Err(self.fault());
                }
                let which: u8 = match &self.heap.get(c).kind {
                    ObjKind::Closure(_) => 1,
                    ObjKind::Class(_) => 2,
                    ObjKind::BoundMethod(_) => 3,
                    _ => 0,
                };
                if which == 1 {
                    match self.closure_arity(c) {
                        Some(arity) => self.call_closure(c, arity, n, pos, size),
                        None => Err(self.fault()),
                    }
                } else if which == 2 {
                    if !self.heap_room(0) {
                        return Err(self.fault());
                    }
                    let inst = self.alloc_instance(c);
                    self.stack.set(pos, Value::Object(inst));
                    let ghost mid = *self;
                    assert(instance_made(*old(self), mid, c, pos as int));
                    match self.init_of(c) {
                        Some(Value::Object(m)) => match self.closure_arity(m) {
                            Some(arity) => self.call_closure(m, arity, n, pos, size),
                            None => Err(self.fault()),
                        },
                        Some(_) => Err(self.fault()),
                        None => {
                            if n != 0 {
                                return Err(
                                    self.runtime_error(
                                        RuntimeErrorKind::InvalidFunArity { got: n, expected: 0 },
                                    ),
                                );
                            }
                            self.advance(size);
                            Ok(StepOutcome::Continue)
                        },
                    }
                } else if which == 3 {
                    let (receiver, m) = match &self.heap.get(c).kind {
                        ObjKind::BoundMethod(b) => (b.receiver, b.method),
                        _ => {
                            return Err(self.fault());
                        },
                    };
                    match self.closure_arity(m) {
                        Some(arity) => {
                            self.stack.set(pos, receiver);
                            let ghost mid = *self;
                            assert(receiver_placed(*old(self), mid, receiver, pos as int));
                            self.call_closure(m, arity, n, pos, size)
                        },
                        None => Err(self.fault()),
                    }
                } else {
                    Err(self.runtime_error(RuntimeErrorKind::InvalidCallee))
                }
            },
            _ => Err(self.runtime_error(RuntimeErrorKind::InvalidCallee)),
        }
    }

    fn op_ret(&mut self) -> (r: Result<StepOutcome, VirtualMachineError>)
        requires
            old(self).wf(),
            old(self).frame_idx < old(self).frames@.len(),
        ensures
            final(self).wf(),
            ret_effect(*old(self), *final(self), r),
    {
        let len = self.stack.len();
        if len == 0 {
            return Err(VirtualMachineError::MissingStackOperand);
        }
        let base = self.frames[self.frame_idx].locals_idx;
        if !self.open_upvalues.all_below(base, len - 1) || self.frame_idx == 0 {
            return Err(self.fault());
        }
        let v = self.stack[len - 1];
        let _ = self.pop();
        self.close_upvalues(base);
        self.stack.truncate(base);
        self.frames.pop();
        self.frame_idx = self.frame_idx - 1;
        self.push(v);
        Ok(StepOutcome::Continue)
    }

    fn op_close_upvalue(&mut self, size: usize) -> (r: Result<StepOutcome, VirtualMachineError>)
        requires
            old(self).wf(),
            old(self).can_step(size as nat),
        ensures
            final(self).wf(),
            close_upvalue_effect(*old(self), *final(self), size as nat, r),
    {
        let len = self.stack.len();
        if len == 0 || !self.open_upvalues.all_below(len - 1, len) {
            return Err(self.fault());
        }
        self.close_upvalues(len - 1);
        let _ = self.pop();
        self.advance(size);
        Ok(StepOutcome::Continue)
    }

    /// The captured variable `slot` of the closure the frame being run runs.
    fn frame_upvalue_ref(&self, slot: u16) -> (r: Option<GcRef>)
        requires
            self.frame_idx < self.frames@.len(),
        ensures
            r == frame_upvalue(*self, slot),
    {
        let c = self.frames[self.frame_idx].closure;
        if !self.heap.is_valid(c) {
            return None;
        }
        match &self.heap.get(c).kind {
            ObjKind::Closure(cl) => {
                if (slot as usize) < cl.upvalues.len() {
                    Some(cl.upvalues[slot as usize])
                } else {
                    None
                }
            },
            _ => None,
        }
    }

    /// Where the upvalue object `u` keeps its value: `(true, k, _)` while open on stack slot
    /// `k`, `(false, _, v)` once closed over `v`.
    fn upvalue_place(&self, u: GcRef) -> (r: Option<(bool, usize, Value)>)
        ensures
            match upvalue_location(self.heap.slots(), u) {
                Some(UpvalueLocation::Open(k)) => r matches Some((true, k2, _)) && k2 == k,
                Some(UpvalueLocation::Closed(v)) => r matches Some((false, _, v2)) && v2 == v,
                None => r is None,
            },
    {
        if !self.heap.is_valid(u) {
            return None;
        }
        match &self.heap.get(u).kind {
            ObjKind::Upvalue(up) => match &up.location {
                UpvalueLocation::Open(k) => Some((true, *k, Value::Nil)),
                UpvalueLocation::Closed(v) => Some((false, 0, *v)),
            },
            _ => None,
        }
    }

    fn op_get_upvalue(&mut self, slot: u16, size: usize) -> (r: Result<StepOutcome, VirtualMachineError>)
        requires
            old(self).wf(),
            old(self).can_step(size as nat),
        ensures
            final(self).wf(),
            get_upvalue_effect(*old(self), *final(self), slot, size as nat, r),
    {
        let u = match self.frame_upvalue_ref(slot) {
            Some(u) => u,
            None => {
                return Err(self.fault());
            },
        };
        let v = match self.upvalue_place(u) {
            Some((true, k, _)) => {
                if k < self.stack.len() {
                    self.stack[k]
                } else {
                    return Err(self.fault());
                }
            },
            Some((false, _, v)) => v,
            None => {
                return Err(self.fault());
            },
        };
        self.push(v);
        self.advance(size);
        Ok(StepOutcome::Continue)
    }

    fn op_set_upvalue(&mut self, slot: u16, size: usize) -> (r: Result<StepOutcome, VirtualMachineError>)
        requires
            old(self).wf(),
            old(self).can_step(size as nat),
        ensures
            final(self).wf(),
            set_upvalue_effect(*old(self), *final(self), slot, size as nat, r),
    {
        let value = match self.peek() {
            Ok(v) => v,
            Err(e) => {
                return Err(e);
            },
        };
        let u = match self.frame_upvalue_ref(slot) {
            Some(u) => u,
            None => {
                return Err(self.fault());
            },
        };
        match self.upvalue_place(u) {
            Some((true, k, _)) => {
                if k < self.stack.len() {
                    self.stack.set(k, value);
                } else {
                    return Err(self.fault());
                }
            },
            Some((false, _, _)) => {
                let ghost s0 = self.heap.slots();
                let ghost m = self.open_upvalues.slots_to_values@;
                assert(!crate::gc::marked(s0, u.0 as int));
                let obj = self.heap.get_mut(u);
                obj.kind = ObjKind::Upvalue(crate::object::ObjUpvalue { location: UpvalueLocation::Closed(value) });
                proof {
                    let s1 = self.heap.slots();
                    assert(s1 == s0.update(u.0 as int, Some(crate::vm::closed_upvalue(value))));
                    assert forall|k: usize| #[trigger] m.contains_key(k) implies crate::vm::open_upvalue_at(
                        s1,
                        m[k],
                        k,
                    ) by {
                        assert(crate::vm::open_upvalue_at(s0, m[k], k));
                    }
                    assert forall|i: int| !crate::gc::marked(s1, i) by {
                        assert(!crate::gc::marked(s0, i));
                    }
                    assert forall|i: int| live(s1, i) implies crate::object::spec_size(s1[i]->0) <= usize::MAX by {
                        assert(live(s0, i));
                    }
                    assert forall|k: int| 0 <= k < self.heap.free_slots().len() implies (
                        self.heap.free_slots()[k] < s1.len() && s1[self.heap.free_slots()[k] as int] is None) by {
                        assert(s0[self.heap.free_slots()[k] as int] is None);
                    }
                }
            },
            None => {
                return Err(self.fault());
            },
        }
        self.advance(size);
        Ok(StepOutcome::Continue)
    }
}

impl VirtualMachine {
    /// The object the constant `idx` refers to.
    fn constant_ref(&self, idx: u16) -> (r: Option<Option<GcRef>>)
        ensures
            r == constant_object(*self, idx),
    {
        let i = idx as usize;
        if i < self.constants.len() {
            match self.constants[i] {
                Value::Object(g) => Some(Some(g)),
                _ => Some(None),
            }
        } else {
            None
        }
    }

    /// Whether the live object `g` is a class.
    fn is_class(&self, g: GcRef) -> (b: bool)
        requires
            live(self.heap.slots(), g.0 as int),
        ensures
            b == kind_of(*self, g) is Class,
    {
        match &self.heap.get(g).kind {
            ObjKind::Class(_) => true,
            _ => false,
        }
    }

    /// The error of a property named by the string object `name` that is not there.
    fn undefined_property_error(&self, name: GcRef) -> (r: VirtualMachineError)
        requires
            string_at(self.heap.slots(), name) is Some,
        ensures
            raised(
                r,
                unexpected_message(undefined_property(string_at(self.heap.slots(), name)->0)),
                self.error_trace(),
            ),
    {
        let mut msg = String::from_str("Undefined property '");
        msg.append(self.get_heap_string(name));
        msg.append("'.");
        self.unexpected(msg.as_str())
    }

    fn op_class(&mut self, idx: u16, size: usize) -> (r: Result<StepOutcome, VirtualMachineError>)
        requires
            old(self).wf(),
            old(self).can_step(size as nat),
        ensures
            final(self).wf(),
            class_effect(*old(self), *final(self), idx, size as nat, r),
    {
        let name = match self.constant_ref(idx) {
            None => {
                return Err(self.fault());
            },
            Some(None) => {
                return Err(self.unexpected("Expected string object in constants"));
            },
            Some(Some(g)) => g,
        };
        if !self.heap_room(0) {
            return Err(self.fault());
        }
        let c = self.alloc_class(name);
        self.push(Value::Object(c));
        assert(self.stack@.drop_last() =~= old(self).stack@);
        self.advance(size);
        Ok(StepOutcome::Continue)
    }

    fn op_get_property(&mut self, idx: u16, size: usize) -> (r: Result<StepOutcome, VirtualMachineError>)
        requires
            old(self).wf(),
            old(self).can_step(size as nat),
        ensures
            final(self).wf(),
            get_property_effect(*old(self), *final(self), idx, size as nat, r),
    {
        let name = match self.constant_ref(idx) {
            None => {
                return Err(self.fault());
            },
            Some(None) => {
                return Err(self.unexpected("Expected string object in constants"));
            },
            Some(Some(g)) => g,
        };
        let len = self.stack.len();
        if len == 0 {
            return Err(VirtualMachineError::MissingStackOperand);
        }
        let i = match self.stack[len - 1] {
            Value::Object(i) => i,
            _ => {
                return Err(self.unexpected("Only instances have properties."));
            },
        };
        if !self.heap.is_valid(i) {
            return Err(self.fault());
        }
        let (field, klass) = match &self.heap.get(i).kind {
            ObjKind::Instance(inst) => (inst.field(name), inst.klass),
            _ => {
                return Err(self.unexpected("Only instances have properties."));
            },
        };
        match field {
            Some(v) => {
                let _ = self.pop();
                self.push(v);
                self.advance(size);
                Ok(StepOutcome::Continue)
            },
            None => {
                if !self.heap.is_valid(klass) {
                    return Err(self.fault());
                }
                if !self.is_class(klass) {
                    return Err(self.unexpected("Instance's klass is not a class"));
                }
                let method = match &self.heap.get(klass).kind {
                    ObjKind::Class(k) => k.method(name),
                    _ => None,
                };
                match method {
                    Some(m) => self.push_bound(len - 1, self.stack[len - 1], m, size),
                    None => {
                        if !self.is_string(name) {
                            return Err(self.fault());
                        }
                        Err(self.undefined_property_error(name))
                    },
                }
            },
        }
    }

    /// Binds the method `m` to `receiver`, and pushes the bound method in place of the
    /// operands from stack slot `from` on.
    fn push_bound(&mut self, from: usize, receiver: Value, m: Value, size: usize) -> (r: Result<
        StepOutcome,
        VirtualMachineError,
    >)
        requires
            old(self).wf(),
            old(self).can_step(size as nat),
            from <= old(self).stack@.len(),
        ensures
            final(self).wf(),
            bound_pushed(
                *old(self),
                *final(self),
                old(self).stack@.subrange(0, from as int),
                receiver,
                m,
                size as nat,
                r,
            ),
    {
        let mr = match m {
            Value::Object(mr) => mr,
            _ => {
                return Err(self.fault());
            },
        };
        if !self.heap_room(0) {
            return Err(self.fault());
        }
        let b = self.alloc_bound_method(receiver, mr);
        let ghost s1 = self.heap.slots();
        assert(s1[b.0 as int] == Some(Obj { is_marked: false, kind: ObjKind::BoundMethod(ObjBoundMethod { receiver, method: mr }) }));
        self.stack.truncate(from);
        self.push(Value::Object(b));
        assert(self.stack@.drop_last() =~= old(self).stack@.subrange(0, from as int));
        self.advance(size);
        Ok(StepOutcome::Continue)
    }

    fn op_set_property(&mut self, idx: u16, size: usize) -> (r: Result<StepOutcome, VirtualMachineError>)
        requires
            old(self).wf(),
            old(self).can_step(size as nat),
        ensures
            final(self).wf(),
            set_property_effect(*old(self), *final(self), idx, size as nat, r),
    {
        let name = match self.constant_ref(idx) {
            None => {
                return Err(self.fault());
            },
            Some(None) => {
                return Err(self.unexpected("Expected string object in constants"));
            },
            Some(Some(g)) => g,
        };
        let len = self.stack.len();
        if len < 2 {
            return Err(VirtualMachineError::MissingStackOperand);
        }
        let value = self.stack[len - 1];
        let i = match self.stack[len - 2] {
            Value::Object(i) => i,
            _ => {
                return Err(self.unexpected("Only instances have fields."));
            },
        };
        if !self.heap.is_valid(i) {
            return Err(self.fault());
        }
        let count = match &self.heap.get(i).kind {
            ObjKind::Instance(inst) => inst.field_count(),
            _ => {
                return Err(self.unexpected("Only instances have fields."));
            },
        };
        if count == usize::MAX {
            return Err(self.fault());
        }
        let per = match core::mem::size_of::<GcRef>().checked_add(core::mem::size_of::<Value>()) {
            Some(p) => p,
            None => {
                proof {
                    let p = vstd::layout::size_of::<GcRef>() + vstd::layout::size_of::<Value>();
                    assert(((count + 1) as int) * p >= p) by (nonlinear_arith)
                        requires
                            count + 1 >= 1,
                            p >= 0,
                    ;
                }
                return Err(self.fault());
            },
        };
        let fields_bytes = match (count + 1).checked_mul(per) {
            Some(b) => b,
            None => {
                return Err(self.fault());
            },
        };
        if fields_bytes > usize::MAX - core::mem::size_of::<Obj>() {
            return Err(self.fault());
        }
        let _ = self.pop();
        let _ = self.pop();
        let ghost s0 = self.heap.slots();
        let ghost m = self.open_upvalues.slots_to_values@;
        assert(!crate::gc::marked(s0, i.0 as int));
        let obj = self.heap.get_mut(i);
        match &mut obj.kind {
            ObjKind::Instance(inst) => {
                inst.set_field(name, value);
            },
            _ => {},
        }
        proof {
            let s1 = self.heap.slots();
            assert forall|j: int| 0 <= j < s0.len() && j != i.0 implies s1[j] == s0[j] by {}
            let old_inst = s0[i.0 as int]->0.kind->Instance_0;
            let fs = field_entries(old_inst.fields);
            vstd::set::axiom_set_insert_len(fs.dom(), name);
            assert(fs.insert(name, value).dom() =~= fs.dom().insert(name));
            assert(fs.insert(name, value).len() <= count + 1);
            assert((fs.insert(name, value).len() as int) * (per as int) <= ((count + 1) as int) * (per as int)) by (nonlinear_arith)
                requires
                    fs.insert(name, value).len() <= count + 1,
            ;
            assert forall|k: usize| #[trigger] m.contains_key(k) implies crate::vm::open_upvalue_at(
                s1,
                m[k],
                k,
            ) by {
                assert(crate::vm::open_upvalue_at(s0, m[k], k));
            }
            assert forall|j: int| !crate::gc::marked(s1, j) by {
                assert(!crate::gc::marked(s0, j));
            }
            assert forall|j: int| live(s1, j) implies crate::object::spec_size(s1[j]->0) <= usize::MAX by {
                assert(live(s0, j));
            }
            assert forall|k: int| 0 <= k < self.heap.free_slots().len() implies (
                self.heap.free_slots()[k] < s1.len() && s1[self.heap.free_slots()[k] as int] is None) by {
                assert(s0[self.heap.free_slots()[k] as int] is None);
            }
        }
        self.push(value);
        self.advance(size);
        Ok(StepOutcome::Continue)
    }
}

impl VirtualMachine {
    fn op_method(&mut self, idx: u16, size: usize) -> (r: Result<StepOutcome, VirtualMachineError>)
        requires
            old(self).wf(),
            old(self).can_step(size as nat),
        ensures
            final(self).wf(),
            method_effect(*old(self), *final(self), idx, size as nat, r),
    {
        let name = match self.constant_ref(idx) {
            None => {
                return Err(self.fault());
            },
            Some(None) => {
                return Err(self.unexpected("Expected string object in constants"));
            },
            Some(Some(g)) => g,
        };
        let len = self.stack.len();
        if len == 0 {
            return Err(VirtualMachineError::MissingStackOperand);
        }
        let method = self.stack[len - 1];
        match method {
            Value::Object(_) => {},
            _ => {
                return Err(self.unexpected("Expected closure object"));
            },
        }
        if len == 1 {
            return Err(VirtualMachineError::MissingStackOperand);
        }
        let c = match self.stack[len - 2] {
            Value::Object(c) => c,
            _ => {
                return Err(self.unexpected("Expected class object"));
            },
        };
        if !self.heap.is_valid(c) {
            return Err(self.fault());
        }
        let count = match &self.heap.get(c).kind {
            ObjKind::Class(k) => k.method_count(),
            _ => {
                return Err(self.unexpected("Expected class object"));
            },
        };
        if count == usize::MAX {
            return Err(self.fault());
        }
        let per = match core::mem::size_of::<GcRef>().checked_add(core::mem::size_of::<Value>()) {
            Some(p) => p,
            None => {
                proof {
                    let p = vstd::layout::size_of::<GcRef>() + vstd::layout::size_of::<Value>();
                    assert(((count + 1) as int) * p >= p) by (nonlinear_arith)
                        requires
                            count + 1 >= 1,
                            p >= 0,
                    ;
                }
                return Err(self.fault());
            },
        };
        let methods_bytes = match (count + 1).checked_mul(per) {
            Some(b) => b,
            None => {
                return Err(self.fault());
            },
        };
        if methods_bytes > usize::MAX - core::mem::size_of::<Obj>() {
            return Err(self.fault());
        }
        let _ = self.pop();
        let _ = self.pop();
        let ghost s0 = self.heap.slots();
        let ghost m = self.open_upvalues.slots_to_values@;
        assert(!crate::gc::marked(s0, c.0 as int));
        let obj = self.heap.get_mut(c);
        match &mut obj.kind {
            ObjKind::Class(k) => {
                k.set_method(name, method);
            },
            _ => {},
        }
        proof {
            let s1 = self.heap.slots();
            assert forall|j: int| 0 <= j < s0.len() && j != c.0 implies s1[j] == s0[j] by {}
            let old_class = s0[c.0 as int]->0.kind->Class_0;
            let ms = field_entries(old_class.methods);
            vstd::set::axiom_set_insert_len(ms.dom(), name);
            assert(ms.insert(name, method).dom() =~= ms.dom().insert(name));
            assert(ms.insert(name, method).len() <= count + 1);
            assert((ms.insert(name, method).len() as int) * (per as int) <= ((count + 1) as int) * (per as int)) by (nonlinear_arith)
                requires
                    ms.insert(name, method).len() <= count + 1,
            ;
            assert forall|k: usize| #[trigger] m.contains_key(k) implies crate::vm::open_upvalue_at(
                s1,
                m[k],
                k,
            ) by {
                assert(crate::vm::open_upvalue_at(s0, m[k], k));
            }
            assert forall|j: int| !crate::gc::marked(s1, j) by {
                assert(!crate::gc::marked(s0, j));
            }
            assert forall|j: int| live(s1, j) implies crate::object::spec_size(s1[j]->0) <= usize::MAX by {
                assert(live(s0, j));
            }
            assert forall|k: int| 0 <= k < self.heap.free_slots().len() implies (
                self.heap.free_slots()[k] < s1.len() && s1[self.heap.free_slots()[k] as int] is None) by {
                assert(s0[self.heap.free_slots()[k] as int] is None);
            }
        }
        self.advance(size);
        Ok(StepOutcome::Continue)
    }

    fn op_invoke(&mut self, idx: u16, argc: u8, size: usize) -> (r: Result<StepOutcome, VirtualMachineError>)
        requires
            old(self).wf(),
            old(self).can_step(size as nat),
        ensures
            final(self).wf(),
            invoke_effect(*old(self), *final(self), idx, argc, size as nat, r),
    {
        let name = match self.constant_ref(idx) {
            None => {
                return Err(self.fault());
            },
            Some(None) => {
                return Err(self.unexpected("Expected string constant for INVOKE"));
            },
            Some(Some(g)) => g,
        };
        let n = argc as usize;
        let len = self.stack.len();
        if n + 1 > len {
            return Err(self.fault());
        }
        let pos = len - n - 1;
        let i = match self.stack[pos] {
            Value::Object(i) => i,
            _ => {
                return Err(self.unexpected("Only instances have properties."));
            },
        };
        if !self.heap.is_valid(i) {
            return Err(self.fault());
        }
        let (field, klass) = match &self.heap.get(i).kind {
            ObjKind::Instance(inst) => (inst.field(name), inst.klass),
            _ => {
                return Err(self.unexpected("Only instances have properties."));
            },
        };
        match field {
            Some(v) => {
                self.stack.set(pos, v);
                self.advance(size);
                match v {
                    Value::Object(c) => {
                        if !self.heap.is_valid(c) {
                            return Err(self.fault());
                        }
                        let is_closure = match &self.heap.get(c).kind {
                            ObjKind::Closure(_) => true,
                            _ => false,
                        };
                        if !is_closure {
                            return Err(self.runtime_error(RuntimeErrorKind::InvalidCallee));
                        }
                        let arity = match self.closure_arity(c) {
                            Some(a) => a,
                            None => {
                                return Err(self.fault());
                            },
                        };
                        if arity != n {
                            return Err(
                                self.runtime_error(
                                    RuntimeErrorKind::InvalidFunArity { got: n, expected: arity },
                                ),
                            );
                        }
                        if self.frames.len() >= FRAMES_MAX {
                            return Err(self.runtime_error(RuntimeErrorKind::StackOverflow));
                        }
                        self.frames.push(CallFrame { closure: c, ip: 0, locals_idx: pos });
                        self.frame_idx = self.frame_idx + 1;
                        Ok(StepOutcome::Continue)
                    },
                    _ => Err(self.runtime_error(RuntimeErrorKind::InvalidCallee)),
                }
            },
            None => {
                if !self.heap.is_valid(klass) {
                    return Err(self.fault());
                }
                if !self.is_class(klass) {
                    return Err(self.unexpected("Instance's klass is not a class"));
                }
                let method = match &self.heap.get(klass).kind {
                    ObjKind::Class(k) => k.method(name),
                    _ => None,
                };
                match method {
                    Some(v) => {
                        self.advance(size);
                        match v {
                            Value::Object(c) => {
                                if !self.heap.is_valid(c) {
                                    return Err(self.fault());
                                }
                                let is_closure = match &self.heap.get(c).kind {
                                    ObjKind::Closure(_) => true,
                                    _ => false,
                                };
                                if !is_closure {
                                    return Err(self.runtime_error(RuntimeErrorKind::InvalidCallee));
                                }
                                let arity = match self.closure_arity(c) {
                                    Some(a) => a,
                                    None => {
                                        return Err(self.fault());
                                    },
                                };
                                if arity != n {
                                    return Err(
                                        self.runtime_error(
                                            RuntimeErrorKind::InvalidFunArity { got: n, expected: arity },
                                        ),
                                    );
                                }
                                if self.frames.len() >= FRAMES_MAX {
                                    return Err(self.runtime_error(RuntimeErrorKind::StackOverflow));
                                }
                                self.frames.push(CallFrame { closure: c, ip: 0, locals_idx: pos });
                                self.frame_idx = self.frame_idx + 1;
                                Ok(StepOutcome::Continue)
                            },
                            _ => Err(self.runtime_error(RuntimeErrorKind::InvalidCallee)),
                        }
                    },
                    None => {
                        if !self.is_string(name) {
                            return Err(self.fault());
                        }
                        Err(self.undefined_property_error(name))
                    },
                }
            },
        }
    }

    fn op_inherit(&mut self, size: usize) -> (r: Result<StepOutcome, VirtualMachineError>)
        requires
            old(self).wf(),
            old(self).can_step(size as nat),
        ensures
            final(self).wf(),
            inherit_effect(*old(self), *final(self), size as nat, r),
    {
        let len = self.stack.len();
        if len < 2 {
            return Err(VirtualMachineError::MissingStackOperand);
        }
        let sup = match self.stack[len - 2] {
            Value::Object(sup) => {
                if !self.heap.is_valid(sup) {
                    return Err(self.fault());
                }
                if !self.is_class(sup) {
                    return Err(self.unexpected("Superclass must be a class."));
                }
                sup
            },
            _ => {
                return Err(self.unexpected("Superclass must be a class."));
            },
        };
        let c = match self.stack[len - 1] {
            Value::Object(c) => {
                if !self.heap.is_valid(c) {
                    return Err(self.fault());
                }
                c
            },
            _ => {
                return Err(self.unexpected("Expected class object"));
            },
        };
        let (inherited, sup_count) = match &self.heap.get(sup).kind {
            ObjKind::Class(k) => (k.methods.entries(), k.method_count()),
            _ => {
                return Err(self.fault());
            },
        };
        let count = match &self.heap.get(c).kind {
            ObjKind::Class(k) => k.method_count(),
            _ => {
                return Err(self.unexpected("Expected class object"));
            },
        };
        if count > usize::MAX - sup_count {
            return Err(self.fault());
        }
        let total = count + sup_count;
        let ghost p = vstd::layout::size_of::<GcRef>() + vstd::layout::size_of::<Value>();
        let methods_bytes: usize = if total == 0 {
            assert((total as int) * p == 0) by (nonlinear_arith)
                requires
                    total == 0,
            ;
            0
        } else {
            let per = match core::mem::size_of::<GcRef>().checked_add(core::mem::size_of::<Value>()) {
                Some(q) => q,
                None => {
                    proof {
                        assert((total as int) * p >= p) by (nonlinear_arith)
                            requires
                                total >= 1,
                                p >= 0,
                        ;
                    }
                    return Err(self.fault());
                },
            };
            match total.checked_mul(per) {
                Some(b) => b,
                None => {
                    return Err(self.fault());
                },
            }
        };
        assert(methods_bytes == (total as int) * p);
        if methods_bytes > usize::MAX - core::mem::size_of::<Obj>() {
            return Err(self.fault());
        }
        let _ = self.pop();
        let ghost s0 = self.heap.slots();
        let ghost m = self.open_upvalues.slots_to_values@;
        let ghost sub_methods = field_entries(s0[c.0 as int]->0.kind->Class_0.methods);
        let ghost sup_methods = field_entries(s0[sup.0 as int]->0.kind->Class_0.methods);
        assert(!crate::gc::marked(s0, c.0 as int));
        let obj = self.heap.get_mut(c);
        match &mut obj.kind {
            ObjKind::Class(k) => {
                let mut i: usize = 0;
                while i < inherited.len()
                    invariant
                        0 <= i <= inherited@.len(),
                        forall|kk: GcRef, v: Value| #[trigger]
                            inherited@.contains((kk, v)) <==> (sup_methods.contains_key(kk)
                                && sup_methods[kk] == v),
                        field_entries(k.methods).dom() == sub_methods.dom().union(
                            Set::new(|kk: GcRef| exists|j: int| 0 <= j < i && inherited@[j].0 == kk),
                        ),
                        forall|kk: GcRef| #[trigger]
                            field_entries(k.methods).contains_key(kk) ==> field_entries(k.methods)[kk]
                                == (if sub_methods.contains_key(kk) {
                                sub_methods[kk]
                            } else {
                                sup_methods[kk]
                            }),
                        k.name == s0[c.0 as int]->0.kind->Class_0.name,
                    decreases inherited@.len() - i,
                {
                    let (name, value) = inherited[i];
                    proof {
                        assert(inherited@.contains((name, value)));
                    }
                    if k.method(name).is_none() {
                        k.set_method(name, value);
                    }
                    i = i + 1;
                    proof {
                        assert(field_entries(k.methods).dom() =~= sub_methods.dom().union(
                            Set::new(|kk: GcRef| exists|j: int| 0 <= j < i && inherited@[j].0 == kk),
                        ));
                    }
                }
                proof {
                    let u = sup_methods.union_prefer_right(sub_methods);
                    let fm = field_entries(k.methods);
                    assert(i == inherited@.len());
                    assert forall|kk: GcRef| #[trigger] fm.contains_key(kk) <==> u.contains_key(kk) by {
                        assert(fm.dom().contains(kk) == (sub_methods.dom().contains(kk) || Set::new(
                            |kk: GcRef| exists|j: int| 0 <= j < i && inherited@[j].0 == kk,
                        ).contains(kk)));
                        assert(u.dom().contains(kk) == (sub_methods.dom().contains(kk) || sup_methods.dom().contains(kk)));
                        if exists|j: int| 0 <= j < inherited@.len() && inherited@[j].0 == kk {
                            let j = choose|j: int| 0 <= j < inherited@.len() && inherited@[j].0 == kk;
                            assert(inherited@[j] == (inherited@[j].0, inherited@[j].1));
                            assert(inherited@.contains((inherited@[j].0, inherited@[j].1)));
                        }
                        if sup_methods.contains_key(kk) {
                            assert(inherited@.contains((kk, sup_methods[kk])));
                            let j = choose|j: int| 0 <= j < inherited@.len() && inherited@[j] == (kk, sup_methods[kk]);
                            assert(inherited@[j].0 == kk);
                        }
                    }
                    assert forall|kk: GcRef| u.contains_key(kk) implies #[trigger] fm[kk] == u[kk] by {
                        assert(fm.contains_key(kk));
                        if sup_methods.contains_key(kk) {
                            assert(inherited@.contains((kk, sup_methods[kk])));
                            let j = choose|j: int| 0 <= j < inherited@.len() && inherited@[j] == (kk, sup_methods[kk]);
                            assert(inherited@[j].0 == kk);
                        }
                    }
                    assert(fm =~= u);
                }
            },
            _ => {},
        }
        proof {
            let s1 = self.heap.slots();
            assert forall|j: int| 0 <= j < s0.len() && j != c.0 implies s1[j] == s0[j] by {}
            let u = sup_methods.union_prefer_right(sub_methods);
            assert(u.dom() =~= sub_methods.dom().union(sup_methods.dom()));
            vstd::set_lib::lemma_len_union(sub_methods.dom(), sup_methods.dom());
            assert(u.len() <= total);
            assert((u.len() as int) * p <= (total as int) * p) by (nonlinear_arith)
                requires
                    u.len() <= total,
                    p >= 0,
            ;
            assert forall|k: usize| #[trigger] m.contains_key(k) implies crate::vm::open_upvalue_at(
                s1,
                m[k],
                k,
            ) by {
                assert(crate::vm::open_upvalue_at(s0, m[k], k));
            }
            assert forall|j: int| !crate::gc::marked(s1, j) by {
                assert(!crate::gc::marked(s0, j));
            }
            assert forall|j: int| live(s1, j) implies crate::object::spec_size(s1[j]->0) <= usize::MAX by {
                assert(live(s0, j));
            }
            assert forall|k: int| 0 <= k < self.heap.free_slots().len() implies (
                self.heap.free_slots()[k] < s1.len() && s1[self.heap.free_slots()[k] as int] is None) by {
                assert(s0[self.heap.free_slots()[k] as int] is None);
            }
        }
        self.advance(size);
        Ok(StepOutcome::Continue)
    }

    /// The source line of the instruction the frame being run is at.
    fn top_line(&self) -> (r: Option<usize>)
        ensures
            match r {
                Some(l) => self.frame_idx < self.frames@.len() && self.frame_ready(self.top()) && l
                    == self.frame_function(self.top())->0.code.lines@[self.top().ip as int],
                None => !(self.frame_idx < self.frames@.len() && self.frame_ready(self.top())),
            },
    {
        if self.frame_idx >= self.frames.len() {
            return None;
        }
        if !self.check_frame(&self.frames[self.frame_idx]) {
            return None;
        }
        Some(self.current_line())
    }

    /// The error of a superclass without the method named by `name`, reported with the line
    /// of the current instruction.
    fn no_super_method_error(&self, name: GcRef) -> (r: Result<StepOutcome, VirtualMachineError>)
        ensures
            no_super_method(*self, name, r),
    {
        if !self.is_string(name) {
            return Err(self.fault());
        }
        let line = match self.top_line() {
            Some(l) => l,
            None => {
                return Err(self.fault());
            },
        };
        let mut msg = String::from_str("Undefined property '");
        msg.append(self.get_heap_string(name));
        msg.append("'.");
        let mut trace = String::from_str("[line ");
        trace.append(crate::decimal::decimal(line).as_str());
        trace.append("]");
        Err(
            VirtualMachineError::RuntimeError {
                kind: RuntimeErrorKind::Unexpected { error: msg },
                stacktrace: trace,
            },
        )
    }

    /// The methods of the class `c`, where `c` is a live class.
    fn methods_of(&self, c: GcRef) -> (r: Option<&crate::object::FieldTable>)
        ensures
            match class_methods(*self, c) {
                Some(ms) => r matches Some(t) && field_entries(*t) == ms,
                None => r is None,
            },
    {
        if !self.heap.is_valid(c) {
            return None;
        }
        match &self.heap.get(c).kind {
            ObjKind::Class(k) => Some(&k.methods),
            _ => None,
        }
    }

    fn op_get_super(&mut self, idx: u16, size: usize) -> (r: Result<StepOutcome, VirtualMachineError>)
        requires
            old(self).wf(),
            old(self).can_step(size as nat),
        ensures
            final(self).wf(),
            get_super_effect(*old(self), *final(self), idx, size as nat, r),
    {
        let name = match self.constant_ref(idx) {
            None => {
                return Err(self.fault());
            },
            Some(None) => {
                return Err(self.unexpected("Expected string constant for method name"));
            },
            Some(Some(g)) => g,
        };
        let len = self.stack.len();
        if len < 2 {
            return Err(VirtualMachineError::MissingStackOperand);
        }
        match self.stack[len - 1] {
            Value::Object(sup) => {
                if !self.heap.is_valid(sup) {
                    return Err(self.fault());
                }
                let method = match self.methods_of(sup) {
                    Some(t) => t.get(name),
                    None => None,
                };
                match method {
                    Some(m) => {
                        assert(old(self).stack@.subrange(0, len - 2) =~= drop_two(old(self).stack@));
                        self.push_bound(len - 2, self.stack[len - 2], m, size)
                    },
                    None => self.no_super_method_error(name),
                }
            },
            _ => Err(self.unexpected("Expected superclass")),
        }
    }

    /// The error that the method called with `got` arguments takes `expected` ones, traced to
    /// the line of the current instruction.
    fn line_arity_error(&self, got: usize, expected: usize) -> (r: Result<StepOutcome, VirtualMachineError>)
        ensures
            match line_trace(*self) {
                Some(trace) => r matches Err(e) && raised(
                    e,
                    runtime_error_message(RuntimeErrorKind::InvalidFunArity { got, expected }),
                    trace,
                ),
                None => faulted(r),
            },
    {
        let line = match self.top_line() {
            Some(l) => l,
            None => {
                return Err(self.fault());
            },
        };
        let mut trace = String::from_str("[line ");
        trace.append(crate::decimal::decimal(line).as_str());
        trace.append("]");
        Err(
            VirtualMachineError::RuntimeError {
                kind: RuntimeErrorKind::InvalidFunArity { got, expected },
                stacktrace: trace,
            },
        )
    }

    fn op_super_invoke(&mut self, idx: u16, argc: u8, size: usize) -> (r: Result<
        StepOutcome,
        VirtualMachineError,
    >)
        requires
            old(self).wf(),
            old(self).can_step(size as nat),
        ensures
            final(self).wf(),
            super_invoke_effect(*old(self), *final(self), idx, argc, size as nat, r),
    {
        let name = match self.constant_ref(idx) {
            None => {
                return Err(self.fault());
            },
            Some(None) => {
                return Err(self.unexpected("Expected string constant"));
            },
            Some(Some(g)) => g,
        };
        let len = self.stack.len();
        if len == 0 {
            return Err(VirtualMachineError::MissingStackOperand);
        }
        let sup = match self.stack[len - 1] {
            Value::Object(sup) => sup,
            _ => {
                return Err(self.unexpected("Expected superclass"));
            },
        };
        if !self.heap.is_valid(sup) {
            return Err(self.fault());
        }
        let method = match self.methods_of(sup) {
            Some(t) => t.get(name),
            None => None,
        };
        let m = match method {
            Some(m) => m,
            None => {
                return self.no_super_method_error(name);
            },
        };
        let c = match m {
            Value::Object(c) => c,
            _ => {
                return Err(self.fault());
            },
        };
        let n = argc as usize;
        if n + 1 > len - 1 {
            return Err(self.fault());
        }
        let arity = match self.closure_arity(c) {
            Some(a) => a,
            None => {
                return Err(self.fault());
            },
        };
        if arity != n {
            return self.line_arity_error(n, arity);
        }
        if self.frames.len() >= FRAMES_MAX {
            return Err(self.runtime_error(RuntimeErrorKind::StackOverflow));
        }
        let _ = self.pop();
        self.advance(size);
        self.frames.push(CallFrame { closure: c, ip: 0, locals_idx: len - 1 - n - 1 });
        self.frame_idx = self.frame_idx + 1;
        Ok(StepOutcome::Continue)
    }
}

/// An allocation, with any collection that comes first, keeps the closure that the frame
/// being run runs, and that closure's function.
proof fn lemma_allocation_keeps_frame(o: VirtualMachine, n: VirtualMachine, r: GcRef, obj: Obj)
    requires
        o.wf(),
        n.stored_at(&o, r, obj),
        o.frame_idx < o.frames@.len(),
        o.top_function() is Some,
    ensures
        n.heap.slots()[o.top().closure.0 as int] == o.heap.slots()[o.top().closure.0 as int],
        n.frame_function(o.top()) == o.top_function(),
{
    let s = o.heap.slots();
    let g = o.top().closure;
    let c = g.0 as int;
    let cl = s[c]->0.kind->Closure_0;
    let fi = cl.function.0 as int;
    let m = o.slots_before_alloc();
    assert(!marked(s, c));
    assert(!marked(s, fi));
    if o.collects() {
        let roots = o.roots();
        assert(o.root_refs().contains(g)) by {
            assert(o.frames@[o.frame_idx as int].closure == g);
        }
        assert(GcRef(c as u32) == g);
        assert(roots.contains(c));
        assert(reachable_within(s, roots, 0, c));
        assert(spec_refs_contains_function(s, c, cl.function));
        assert(GcRef(fi as u32) == cl.function);
        assert(points_to(s, c, fi));
        crate::gc::lemma_reachable_step(s, roots, 0, c, fi);
        assert(reachable(s, roots, c));
        assert(reachable(s, roots, fi));
    }
    assert(m[c] == s[c]);
    assert(m[fi] == s[fi]);
}

/// A closure refers to its function.
pub open spec fn spec_refs_contains_function(s: Seq<Option<Obj>>, c: int, f: GcRef) -> bool {
    crate::object::spec_refs(s[c]->0.kind).contains(f)
}

impl VirtualMachine {
    /// The number of captures of the live function object `f`.
    fn captures_of(&self, f: GcRef) -> (r: Option<usize>)
        ensures
            r == function_captures(*self, f),
    {
        if !self.heap.is_valid(f) {
            return None;
        }
        match &self.heap.get(f).kind {
            ObjKind::Function(fun) => Some(fun.upvalue_count),
            _ => None,
        }
    }

    /// The capture described at the instruction pointer of the frame being run: whether it
    /// is a local slot of the frame, and its index; `None` where the frame, its objects or the
    /// three bytes of the description are not there.
    fn capture_at(&self) -> (r: Option<(bool, usize)>)
        requires
            self.frame_idx < self.frames@.len(),
        ensures
            r is Some <==> (self.top_function() matches Some(f) && self.top().ip + 3
                <= f.code.code@.len()),
            r matches Some((is_local, index)) ==> {
                &&& self.top().ip + 3 <= usize::MAX
                &&& self.top_function() is Some
                &&& capture_described(self.top_function()->0.code.code@, self.top().ip as int, is_local, index)
            },
    {
        let frame = self.frames[self.frame_idx];
        if !self.heap.is_valid(frame.closure) {
            return None;
        }
        let fref = match &self.heap.get(frame.closure).kind {
            ObjKind::Closure(cl) => cl.function,
            _ => {
                return None;
            },
        };
        if !self.heap.is_valid(fref) {
            return None;
        }
        match &self.heap.get(fref).kind {
            ObjKind::Function(fun) => {
                let len = fun.code.size();
                if frame.ip >= len || len - frame.ip < 3 {
                    return None;
                }
                let is_local = fun.code.read_u8(frame.ip) == 1;
                let index = fun.code.read_u16(frame.ip + 1) as usize;
                Some((is_local, index))
            },
            _ => None,
        }
    }

    /// The captured variable `index` of the closure the frame being run runs.
    fn enclosing_capture(&self, index: usize) -> (r: Option<GcRef>)
        requires
            self.frame_idx < self.frames@.len(),
        ensures
            r == enclosing_upvalue(*self, index as int),
    {
        let c = self.frames[self.frame_idx].closure;
        if !self.heap.is_valid(c) {
            return None;
        }
        match &self.heap.get(c).kind {
            ObjKind::Closure(cl) => {
                if index < cl.upvalues.len() {
                    Some(cl.upvalues[index])
                } else {
                    None
                }
            },
            _ => None,
        }
    }

    fn op_closure(&mut self, idx: u16, size: usize) -> (r: Result<StepOutcome, VirtualMachineError>)
        requires
            old(self).wf(),
            old(self).can_step(size as nat),
        ensures
            final(self).wf(),
            closure_effect(*old(self), *final(self), idx, size as nat, r),
    {
        self.advance(size);
        let f = match self.constant_ref(idx) {
            None => {
                return Err(self.fault());
            },
            Some(None) => {
                return Err(self.unexpected("Expected function object in constants"));
            },
            Some(Some(g)) => g,
        };
        let count = match self.captures_of(f) {
            Some(c) => c,
            None => {
                return Err(self.fault());
            },
        };
        let ghost o = *old(self);
        let ghost cidx = o.top().closure.0 as int;
        let mut refs: Vec<GcRef> = Vec::new();
        let mut k: usize = 0;
        while k < count
            invariant
                0 <= k <= count,
                refs@.len() == k,
                cidx == o.top().closure.0 as int,
                self.heap.slots()[cidx] == o.heap.slots()[cidx],
                self.frame_function(self.top()) == o.top_function(),
                self.top().closure == o.top().closure,
                forall|j: int| 0 <= j < k ==> captured_as_described(
                    o,
                    *self,
                    #[trigger] refs@[j],
                    o.top().ip + size + 3 * j,
                ),
                self.wf(),
                self.frame_idx == o.frame_idx,
                o.frame_idx < o.frames@.len(),
                self.frames@ == o.frames@.update(
                    o.frame_idx as int,
                    CallFrame {
                        closure: o.top().closure,
                        ip: (o.top().ip + size + 3 * k) as usize,
                        locals_idx: o.top().locals_idx,
                    },
                ),
                o.top().ip + size + 3 * k <= usize::MAX,
                self.stack@ == o.stack@,
                self.constants@ == o.constants@,
                global_entries(self.globals) == global_entries(o.globals),
                constant_object(o, idx) == Some(Some(f)),
                function_captures(o, f) == Some(count),
                o == *old(self),
            decreases count - k,
        {
            let (is_local, index) = match self.capture_at() {
                Some(d) => d,
                None => {
                    return Err(self.fault());
                },
            };
            self.advance(3);
            let ghost before = *self;
            let up = if is_local {
                let base = self.frames[self.frame_idx].locals_idx;
                if index > usize::MAX - base || !self.heap_room(0) {
                    return Err(self.fault());
                }
                let u = self.capture_upvalue(base + index);
                proof {
                    let slot = (base + index) as usize;
                    if !before.open_upvalues.slots_to_values@.contains_key(slot) {
                        lemma_allocation_keeps_frame(
                            before,
                            *self,
                            u,
                            Obj {
                                is_marked: false,
                                kind: ObjKind::Upvalue(
                                    crate::object::ObjUpvalue { location: UpvalueLocation::Open(slot) },
                                ),
                            },
                        );
                    }
                }
                u
            } else {
                match self.enclosing_capture(index) {
                    Some(u) => u,
                    None => {
                        return Err(self.fault());
                    },
                }
            };
            proof {
                assert(enclosing_upvalue(*self, index as int) == enclosing_upvalue(o, index as int));
                assert(captured_as_described(o, *self, up, o.top().ip + size + 3 * k));
                assert forall|j: int| 0 <= j < k implies captured_as_described(
                    o,
                    *self,
                    #[trigger] refs@[j],
                    o.top().ip + size + 3 * j,
                ) by {
                    assert(captured_as_described(o, before, refs@[j], o.top().ip + size + 3 * j));
                }
            }
            refs.push(up);
            k = k + 1;
        }
        let width = core::mem::size_of::<GcRef>();
        let bytes = match count.checked_mul(width) {
            Some(b) => b,
            None => {
                return Err(self.fault());
            },
        };
        if !self.heap_room(bytes) {
            return Err(self.fault());
        }
        let c = self.alloc_closure(f, refs);
        self.push(Value::Object(c));
        assert(self.stack@.drop_last() =~= o.stack@);
        Ok(StepOutcome::Continue)
    }
}

/// What the instruction `op`, of `size` bytes, does to the machine `o`, giving `n` and `r`.
pub open spec fn op_effect<A: Fn(NumberOp, u64, u64) -> Value>(
    o: VirtualMachine,
    n: VirtualMachine,
    arith: A,
    op: OpCode,
    size: nat,
    r: Result<StepOutcome, VirtualMachineError>,
) -> bool {
    match op {
        OpCode::Constant(i) => constant_effect(o, n, i, size, r),
        OpCode::GetGlobal(name) => get_global_effect(o, n, name, size, r),
        OpCode::SetGlobal(name) => set_global_effect(o, n, name, size, r),
        OpCode::SetLocal(x) => set_local_effect(o, n, x, size, r),
        OpCode::GetLocal(x) => get_local_effect(o, n, x, size, r),
        OpCode::GetUpvalue(x) => get_upvalue_effect(o, n, x, size, r),
        OpCode::SetUpvalue(x) => set_upvalue_effect(o, n, x, size, r),
        OpCode::Closure(i) => closure_effect(o, n, i, size, r),
        OpCode::CloseUpvalue => close_upvalue_effect(o, n, size, r),
        OpCode::DeclareGlobal(name) => declare_global_effect(o, n, name, size, r),
        OpCode::Jump(off) => jump_effect(o, n, off, r),
        OpCode::JumpIfFalse(off) => jump_if_false_effect(o, n, off, size, r),
        OpCode::Loop(off) => loop_effect(o, n, off, r),
        OpCode::Call(argc) => call_effect(o, n, argc, size, r),
        OpCode::Ret => ret_effect(o, n, r),
        OpCode::Pop => pop_effect(o, n, size, r),
        OpCode::Add => add_effect(o, n, arith, size, r),
        OpCode::Multiply => numbers_effect(o, n, arith, OpCodeTypes::Multiply, NumberOp::Multiply, false, size, r),
        OpCode::Subtract => numbers_effect(o, n, arith, OpCodeTypes::Subtract, NumberOp::Subtract, true, size, r),
        OpCode::Divide => numbers_effect(o, n, arith, OpCodeTypes::Divide, NumberOp::Divide, true, size, r),
        OpCode::Negate => negate_effect(o, n, arith, size, r),
        OpCode::Not => not_effect(o, n, size, r),
        OpCode::Print => print_effect(o, n, size, r),
        OpCode::True => push_effect(o, n, Value::Bool(true), size, r),
        OpCode::False => push_effect(o, n, Value::Bool(false), size, r),
        OpCode::Nil => push_effect(o, n, Value::Nil, size, r),
        OpCode::Greater => numbers_effect(o, n, arith, OpCodeTypes::Greater, NumberOp::Greater, true, size, r),
        OpCode::Less => numbers_effect(o, n, arith, OpCodeTypes::Less, NumberOp::Less, false, size, r),
        OpCode::Equal => equal_effect(o, n, arith, size, r),
        OpCode::Class(i) => class_effect(o, n, i, size, r),
        OpCode::GetProperty(i) => get_property_effect(o, n, i, size, r),
        OpCode::SetProperty(i) => set_property_effect(o, n, i, size, r),
        OpCode::Method(i) => method_effect(o, n, i, size, r),
        OpCode::Invoke(i, argc) => invoke_effect(o, n, i, argc, size, r),
        OpCode::Inherit => inherit_effect(o, n, size, r),
        OpCode::GetSuper(i) => get_super_effect(o, n, i, size, r),
        OpCode::SuperInvoke(i, argc) => super_invoke_effect(o, n, i, argc, size, r),
    }
}

/// What one step does: it faults where there is no live frame to run or the instruction is
/// cut short, halts unchanged at the end of the code, and otherwise runs the instruction at
/// the frame's instruction pointer.
pub open spec fn step_effect<A: Fn(NumberOp, u64, u64) -> Value>(
    o: VirtualMachine,
    n: VirtualMachine,
    arith: A,
    r: Result<StepOutcome, VirtualMachineError>,
) -> bool {
    match o.next_step() {
        None => faulted(r),
        Some(None) => r matches Ok(StepOutcome::Halt) && n == o,
        Some(Some((op, size))) => op_effect(o, n, arith, op, size, r),
    }
}

/// How a value shows as text, where it is no number: `None` where an object it leads to is
/// not live.
pub open spec fn value_text(s: Seq<Option<Obj>>, v: Value) -> Option<Seq<char>> {
    match v {
        Value::Number(_) => None,
        Value::Bool(b) => Some(if b { "true"@ } else { "false"@ }),
        Value::Nil => Some("nil"@),
        Value::Object(g) => object_text(s, g),
    }
}

/// The name a function shows with: `<fn NAME>`, or `<fn>` where its name is no string.
pub open spec fn function_text(s: Seq<Option<Obj>>, name: GcRef) -> Option<Seq<char>> {
    if !live(s, name.0 as int) {
        None
    } else {
        match string_at(s, name) {
            Some(t) => Some("<fn "@ + t + ">"@),
            None => Some("<fn>"@),
        }
    }
}

/// How the object `g` shows as text.
pub open spec fn object_text(s: Seq<Option<Obj>>, g: GcRef) -> Option<Seq<char>> {
    if !live(s, g.0 as int) {
        None
    } else {
        match s[g.0 as int]->0.kind {
            ObjKind::String(st) => Some(st.value@),
            ObjKind::Closure(c) => if !live(s, c.function.0 as int) {
                None
            } else {
                match s[c.function.0 as int]->0.kind {
                    ObjKind::Function(f) => function_text(s, f.name),
                    _ => Some("<fn>"@),
                }
            },
            ObjKind::Function(f) => function_text(s, f.name),
            ObjKind::Upvalue(_) => Some("<upvalue>"@),
            ObjKind::Class(c) => if !live(s, c.name.0 as int) {
                None
            } else {
                match string_at(s, c.name) {
                    Some(t) => Some(t),
                    None => Some("<class>"@),
                }
            },
            ObjKind::BoundMethod(b) => if !live(s, b.method.0 as int) {
                None
            } else {
                match s[b.method.0 as int]->0.kind {
                    ObjKind::Closure(c) => if !live(s, c.function.0 as int) {
                        None
                    } else {
                        match s[c.function.0 as int]->0.kind {
                            ObjKind::Function(f) => function_text(s, f.name),
                            _ => Some("<fn>"@),
                        }
                    },
                    _ => Some("<fn>"@),
                }
            },
            ObjKind::Instance(i) => if !live(s, i.klass.0 as int) {
                None
            } else {
                match s[i.klass.0 as int]->0.kind {
                    ObjKind::Class(c) => if !live(s, c.name.0 as int) {
                        None
                    } else {
                        match string_at(s, c.name) {
                            Some(t) => Some(t + " instance"@),
                            None => Some("<instance>"@),
                        }
                    },
                    _ => Some("<instance>"@),
                }
            },
        }
    }
}

/// The number of operand bytes after the tag `tag`, where it is one.
fn operand_bytes(tag: u8) -> (r: Option<usize>)
    ensures
        match r {
            Some(k) => crate::byte_code::operand_len(tag) == k,
            None => crate::byte_code::operand_len(tag) < 0,
        },
{
    if tag == 0 || tag > 37 {
        None
    } else if tag == 14 {
        Some(1)
    } else if tag == 34 || tag == 37 {
        Some(3)
    } else if tag == 9 || (15 <= tag && tag <= 29) || tag == 35 {
        Some(0)
    } else {
        Some(2)
    }
}

impl VirtualMachine {
    /// The instruction the next step runs and its size: `None` where there is no live frame
    /// to run or the instruction is cut short, `Some(None)` at the end of the code.
    fn fetch(&self) -> (r: Option<Option<(OpCode, usize)>>)
        ensures
            match self.next_step() {
                None => r is None,
                Some(None) => r == Some(None::<(OpCode, usize)>),
                Some(Some((op, n))) => r == Some(Some((op, n as usize))) && self.can_step(n),
            },
    {
        if self.frame_idx >= self.frames.len() {
            return None;
        }
        let frame = self.frames[self.frame_idx];
        if !self.heap.is_valid(frame.closure) {
            return None;
        }
        let fref = match &self.heap.get(frame.closure).kind {
            ObjKind::Closure(cl) => cl.function,
            _ => {
                return None;
            },
        };
        if !self.heap.is_valid(fref) {
            return None;
        }
        match &self.heap.get(fref).kind {
            ObjKind::Function(fun) => {
                let code = &fun.code;
                let len = code.size();
                if frame.ip < len {
                    let tag = code.read_u8(frame.ip);
                    match operand_bytes(tag) {
                        Some(k) => {
                            if len - frame.ip - 1 < k {
                                return None;
                            }
                        },
                        None => {},
                    }
                }
                match code.read_next(frame.ip) {
                    None => Some(None),
                    Some(Ok((op, n))) => Some(Some((op, n))),
                    Some(Err(_)) => None,
                }
            },
            _ => None,
        }
    }

    /// Runs one instruction of the frame being run. Numbers are added, subtracted, multiplied,
    /// divided, negated and compared by `arith`, on the bits of their values; the outcome says
    /// whether a value is to be printed or the program has ended.
    pub fn step<A: Fn(NumberOp, u64, u64) -> Value>(&mut self, arith: &A) -> (r: Result<
        StepOutcome,
        VirtualMachineError,
    >)
        requires
            old(self).wf(),
            forall|op: NumberOp, a: u64, b: u64| arith.requires((op, a, b)),
        ensures
            final(self).wf(),
            step_effect(*old(self), *final(self), *arith, r),
    {
        let (op, size) = match self.fetch() {
            None => {
                return Err(self.fault());
            },
            Some(None) => {
                return Ok(StepOutcome::Halt);
            },
            Some(Some(x)) => x,
        };
        match op {
            OpCode::Constant(i) => self.op_constant(i, size),
            OpCode::GetGlobal(name) => self.op_get_global(name, size),
            OpCode::SetGlobal(name) => self.op_set_global(name, size),
            OpCode::SetLocal(x) => self.op_set_local(x, size),
            OpCode::GetLocal(x) => self.op_get_local(x, size),
            OpCode::GetUpvalue(x) => self.op_get_upvalue(x, size),
            OpCode::SetUpvalue(x) => self.op_set_upvalue(x, size),
            OpCode::Closure(i) => self.op_closure(i, size),
            OpCode::CloseUpvalue => self.op_close_upvalue(size),
            OpCode::DeclareGlobal(name) => self.op_declare_global(name, size),
            OpCode::Jump(off) => self.op_jump(off),
            OpCode::JumpIfFalse(off) => self.op_jump_if_false(off, size),
            OpCode::Loop(off) => self.op_loop(off),
            OpCode::Call(argc) => self.op_call(argc, size),
            OpCode::Ret => self.op_ret(),
            OpCode::Pop => self.op_pop(size),
            OpCode::Add => self.op_add(arith, size),
            OpCode::Multiply => self.op_numbers(arith, OpCodeTypes::Multiply, NumberOp::Multiply, false, size),
            OpCode::Subtract => self.op_numbers(arith, OpCodeTypes::Subtract, NumberOp::Subtract, true, size),
            OpCode::Divide => self.op_numbers(arith, OpCodeTypes::Divide, NumberOp::Divide, true, size),
            OpCode::Negate => self.op_negate(arith, size),
            OpCode::Not => self.op_not(size),
            OpCode::Print => self.op_print(size),
            OpCode::True => self.op_push(Value::Bool(true), size),
            OpCode::False => self.op_push(Value::Bool(false), size),
            OpCode::Nil => self.op_push(Value::Nil, size),
            OpCode::Greater => self.op_numbers(arith, OpCodeTypes::Greater, NumberOp::Greater, true, size),
            OpCode::Less => self.op_numbers(arith, OpCodeTypes::Less, NumberOp::Less, false, size),
            OpCode::Equal => self.op_equal(arith, size),
            OpCode::Class(i) => self.op_class(i, size),
            OpCode::GetProperty(i) => self.op_get_property(i, size),
            OpCode::SetProperty(i) => self.op_set_property(i, size),
            OpCode::Method(i) => self.op_method(i, size),
            OpCode::Invoke(i, argc) => self.op_invoke(i, argc, size),
            OpCode::Inherit => self.op_inherit(size),
            OpCode::GetSuper(i) => self.op_get_super(i, size),
            OpCode::SuperInvoke(i, argc) => self.op_super_invoke(i, argc, size),
        }
    }

    /// The tag byte at the instruction pointer of the frame being run, where the frame and its
    /// objects are live and the code has not ended.
    pub fn current_tag(&self) -> (r: Option<u8>)
        ensures
            r == (match self.top_function() {
                Some(f) => if (self.top().ip as int) < f.code.code@.len() {
                    Some(f.code.code@[self.top().ip as int])
                } else {
                    None
                },
                None => None::<u8>,
            }),
    {
        if self.frame_idx >= self.frames.len() {
            return None;
        }
        let frame = self.frames[self.frame_idx];
        if !self.heap.is_valid(frame.closure) {
            return None;
        }
        let fref = match &self.heap.get(frame.closure).kind {
            ObjKind::Closure(cl) => cl.function,
            _ => {
                return None;
            },
        };
        if !self.heap.is_valid(fref) {
            return None;
        }
        match &self.heap.get(fref).kind {
            ObjKind::Function(fun) => {
                if frame.ip < fun.code.size() {
                    Some(fun.code.read_u8(frame.ip))
                } else {
                    None
                }
            },
            _ => None,
        }
    }

    /// Lists the compiled code; functions live on the heap, and nothing is listed.
    pub fn decompile(&self) -> (r: Result<(), VirtualMachineError>)
        ensures
            r is Ok,
    {
        Ok(())
    }

    /// Starts running the compiled script: a frame for the script's closure, at its first
    /// instruction, with its locals from the bottom of the stack.
    pub fn begin(&mut self)
        requires
            old(self).script_closure is Some,
        ensures
            final(self).frames@ == old(self).frames@.push(
                CallFrame { closure: old(self).script_closure->0, ip: 0, locals_idx: 0 },
            ),
            final(self).frame_idx == old(self).frame_idx,
            final(self).stack@ == old(self).stack@,
            global_entries(final(self).globals) == global_entries(old(self).globals),
            final(self).kept_but_globals(old(self)),
    {
        let script = match self.script_closure {
            Some(c) => c,
            None => {
                return ;
            },
        };
        self.frames.push(CallFrame { closure: script, ip: 0, locals_idx: 0 });
    }

    /// The text of the function object's name `name`, as a function shows it.
    fn function_name_text(&self, name: GcRef) -> (r: Option<String>)
        ensures
            match function_text(self.heap.slots(), name) {
                Some(t) => r matches Some(x) && x@ == t,
                None => r is None,
            },
    {
        if !self.heap.is_valid(name) {
            return None;
        }
        if self.is_string(name) {
            let mut t = String::from_str("<fn ");
            t.append(self.get_heap_string(name));
            t.append(">");
            Some(t)
        } else {
            Some(String::from_str("<fn>"))
        }
    }

    /// How `value` shows when printed: a number's bits, for the caller to write its digits, or
    /// text; `None` where an object it leads to is not live.
    pub fn display_value(&self, value: Value) -> (r: Option<DisplayValue>)
        ensures
            match value {
                Value::Number(x) => r matches Some(DisplayValue::Number(y)) && y == x,
                _ => match value_text(self.heap.slots(), value) {
                    Some(t) => r matches Some(DisplayValue::Text(x)) && x@ == t,
                    None => r is None,
                },
            },
    {
        match value {
            Value::Number(x) => Some(DisplayValue::Number(x)),
            Value::Bool(b) => Some(
                DisplayValue::Text(
                    if b {
                        String::from_str("true")
                    } else {
                        String::from_str("false")
                    },
                ),
            ),
            Value::Nil => Some(DisplayValue::Text(String::from_str("nil"))),
            Value::Object(g) => {
                if !self.heap.is_valid(g) {
                    return None;
                }
                let text = match &self.heap.get(g).kind {
                    ObjKind::String(st) => Some(st.value.clone()),
                    ObjKind::Closure(c) => {
                        let f = c.function;
                        if !self.heap.is_valid(f) {
                            return None;
                        }
                        match &self.heap.get(f).kind {
                            ObjKind::Function(fun) => self.function_name_text(fun.name),
                            _ => Some(String::from_str("<fn>")),
                        }
                    },
                    ObjKind::Function(fun) => self.function_name_text(fun.name),
                    ObjKind::Upvalue(_) => Some(String::from_str("<upvalue>")),
                    ObjKind::Class(c) => {
                        if !self.heap.is_valid(c.name) {
                            return None;
                        }
                        if self.is_string(c.name) {
                            Some(self.get_heap_string(c.name).to_string())
                        } else {
                            Some(String::from_str("<class>"))
                        }
                    },
                    ObjKind::BoundMethod(b) => {
                        let m = b.method;
                        if !self.heap.is_valid(m) {
                            return None;
                        }
                        match &self.heap.get(m).kind {
                            ObjKind::Closure(c) => {
                                let f = c.function;
                                if !self.heap.is_valid(f) {
                                    return None;
                                }
                                match &self.heap.get(f).kind {
                                    ObjKind::Function(fun) => self.function_name_text(fun.name),
                                    _ => Some(String::from_str("<fn>")),
                                }
                            },
                            _ => Some(String::from_str("<fn>")),
                        }
                    },
                    ObjKind::Instance(i) => {
                        let k = i.klass;
                        if !self.heap.is_valid(k) {
                            return None;
                        }
                        match &self.heap.get(k).kind {
                            ObjKind::Class(c) => {
                                if !self.heap.is_valid(c.name) {
                                    return None;
                                }
                                if self.is_string(c.name) {
                                    let mut t = self.get_heap_string(c.name).to_string();
                                    t.append(" instance");
                                    Some(t)
                                } else {
                                    Some(String::from_str("<instance>"))
                                }
                            },
                            _ => Some(String::from_str("<instance>")),
                        }
                    },
                };
                match text {
                    Some(t) => Some(DisplayValue::Text(t)),
                    None => None,
                }
            },
        }
    }
}


/// A local read right after it is assigned gives the assigned value: in a running frame,
/// `SetLocal(k)` then `GetLocal(k)` succeeds and pushes what was on top of the stack at the
/// assignment.
pub proof fn lemma_local_read_after_write(
    o: VirtualMachine,
    m: VirtualMachine,
    n: VirtualMachine,
    k: u16,
    size1: nat,
    size2: nat,
    r1: Result<StepOutcome, VirtualMachineError>,
    r2: Result<StepOutcome, VirtualMachineError>,
)
    requires
        set_local_effect(o, m, k, size1, r1),
        r1 is Ok,
        get_local_effect(m, n, k, size2, r2),
        o.frame_idx < o.frames@.len(),
    ensures
        r2 is Ok,
        n.stack@.last() == o.stack@.last(),
        n.stack@.drop_last() == m.stack@,
{
    assert(m.top().locals_idx == o.top().locals_idx);
}

/// A global read right after it is assigned gives the assigned value: `SetGlobal(g)` then
/// `GetGlobal(g)` pushes what was on top of the stack at the assignment.
pub proof fn lemma_global_read_after_write(
    o: VirtualMachine,
    m: VirtualMachine,
    n: VirtualMachine,
    g: StrId,
    size1: nat,
    size2: nat,
    r1: Result<StepOutcome, VirtualMachineError>,
    r2: Result<StepOutcome, VirtualMachineError>,
)
    requires
        set_global_effect(o, m, g, size1, r1),
        r1 is Ok,
        get_global_effect(m, n, g, size2, r2),
    ensures
        r2 is Ok,
        n.stack@.last() == o.stack@.last(),
{
}

/// `Equal` on two values of which at least one is not a number pushes whether they are the
/// same value: two objects are equal exactly when they are the same object, so two strings
/// of different texts, which interning keeps in different objects, are unequal.
pub proof fn lemma_equal_compares_values<A: Fn(NumberOp, u64, u64) -> Value>(
    o: VirtualMachine,
    n: VirtualMachine,
    arith: A,
    size: nat,
    r: Result<StepOutcome, VirtualMachineError>,
)
    requires
        equal_effect(o, n, arith, size, r),
        o.stack@.len() >= 2,
        !(o.stack@[o.stack@.len() - 2] is Number && o.stack@.last() is Number),
    ensures
        r is Ok,
        n.stack@.drop_last() == o.stack@.drop_last().drop_last(),
        n.stack@.last() == Value::Bool(o.stack@[o.stack@.len() - 2] == o.stack@.last()),
        o.stack@[o.stack@.len() - 2] matches Value::Object(a) ==> (o.stack@.last() matches Value::Object(
            b,
        ) ==> n.stack@.last() == Value::Bool(a == b)),
{
}

/// `Equal` on two strings of different texts pushes `false`.
pub proof fn lemma_equal_strings_of_different_texts<A: Fn(NumberOp, u64, u64) -> Value>(
    o: VirtualMachine,
    n: VirtualMachine,
    arith: A,
    size: nat,
    r: Result<StepOutcome, VirtualMachineError>,
    a: GcRef,
    b: GcRef,
)
    requires
        equal_effect(o, n, arith, size, r),
        o.stack@.len() >= 2,
        o.stack@[o.stack@.len() - 2] == Value::Object(a),
        o.stack@.last() == Value::Object(b),
        string_at(o.heap.slots(), a) is Some,
        string_at(o.heap.slots(), b) is Some,
        string_at(o.heap.slots(), a) != string_at(o.heap.slots(), b),
    ensures
        n.stack@.last() == Value::Bool(false),
{
}

/// A property assignment evaluates to the assigned value: after `SetProperty`, the stack is
/// the stack below the instance and the value, with the value pushed; the instance keeps its
/// class and its other fields, and its field of that name holds the value; no other object
/// changes.
pub proof fn lemma_set_property_leaves_value(
    o: VirtualMachine,
    n: VirtualMachine,
    idx: u16,
    size: nat,
    r: Result<StepOutcome, VirtualMachineError>,
)
    requires
        set_property_effect(o, n, idx, size, r),
        r is Ok,
    ensures
        o.stack@.len() >= 2,
        n.stack@.len() == o.stack@.len() - 1,
        n.stack@.last() == o.stack@.last(),
        n.stack@.drop_last() == o.stack@.drop_last().drop_last(),
        o.stack@[o.stack@.len() - 2] matches Value::Object(i) && n.heap.slots()[i.0 as int] matches Some(
            obj,
        ) && obj.kind matches ObjKind::Instance(inst) && constant_object(o, idx) matches Some(
            Some(name),
        ) && field_entries(inst.fields).contains_key(name) && field_entries(inst.fields)[name]
            == o.stack@.last(),
        ({
            &&& o.stack@[o.stack@.len() - 2] matches Value::Object(i)
            &&& o.heap.slots()[i.0 as int] matches Some(old_obj)
            &&& old_obj.kind matches ObjKind::Instance(old_inst)
            &&& n.heap.slots()[i.0 as int] matches Some(obj)
            &&& obj.kind matches ObjKind::Instance(inst)
            &&& inst.klass == old_inst.klass
            &&& constant_object(o, idx) matches Some(Some(name))
            &&& field_entries(inst.fields) == field_entries(old_inst.fields).insert(name, o.stack@.last())
        }),
        n.heap.slots().len() == o.heap.slots().len(),
        o.stack@[o.stack@.len() - 2] matches Value::Object(i) && forall|j: int|
            0 <= j < o.heap.slots().len() && j != i.0 ==> n.heap.slots()[j] == o.heap.slots()[j],
{
}

} // verus!
