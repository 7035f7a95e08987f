//! The interpreter over a call stack: each step runs one instruction of
//! the method on top, calls a method (`invokestatic`, `invokespecial`,
//! `invokevirtual`, `invokeinterface`) by pushing its frame, returns into
//! the caller, and unwinds a thrown exception through the exception tables
//! of the frames to the first handler that catches it.
//!
//! Classes are the parsed class files given to the machine; a class found
//! by name is the first one that names itself so. A static call, `new` and
//! a static field access first initialize the class: it is marked
//! initialized and its `<clinit>` runs before the instruction runs again.
//! Static fields are kept by `owner.name`. A call of a method the classes
//! do not hold in bytecode (a native method, or one of a class that is not
//! there) is handed to the caller, which makes it and hands back the
//! result. `invokedynamic` call sites of `StringConcatFactory` make their
//! string here. Object monitors are entered and exited by the one thread
//! that runs the machine. Instructions this machine leaves to the caller
//! (floating point, `multianewarray`, other `invokedynamic` call sites, and
//! entering a monitor another thread owns) stop it with the frame as it
//! was.

use vstd::prelude::*;
use crate::bytecode::{
    Frame, FrameV, Step, Value, args_of, call_locals, outcome_view, pop_args, new_call_frame, stack_after_args,
    top, with_pc, with_stack,
};
use crate::class_file::{cp_class_name, ClassFile, ExceptionTableEntry};
use crate::indy::{indy_plan, indy_readable, indy_ready, resolve_invokedynamic};
use crate::monitors::{
    enter_blocks, enter_table, execute_monitor_opcode, exit_table, exit_threads, illegal_monitor_state, monitor_frame,
    monitor_insn, monitor_of, monitor_operand, monitor_wf, MonitorTable, MonitorV,
};
use crate::threads::{ids_ordered, Scheduler, ThreadContext};
use crate::string_concat::{
    concat_constant_texts, concat_recipe, concat_spec, constant_texts, decode_utf16, recipe_constants, recipe_of,
    string_concat, text_of_units,
};
use crate::class_spec::{be_u16, CpEntry};
use crate::descriptors::{arg_kinds, arg_type_chars, read_u16};
use crate::exceptions::{exception_class_text, exception_class_from_err_msg};
use crate::heap::{
    Field, Heap, HeapObject, ObjectV, Payload, PayloadV, StringPool, default_for, field_value, field_views, fields_after_put, find_field,
    first_field, has_field, put_field, string_object, anewarray_step, execute_anewarray, execute_getfield, execute_heap_opcode,
    execute_ldc, execute_putfield, getfield_step, handler_entry, enter_exception_handler, heap_step,
    heap_step_ok, heap_step_ready, ldc_ok, ldc_step, object_operand_ready, putfield_step, ref_ok,
};
use crate::method_exec::{
    exec_info_readable, exec_info_ready, exec_info_with_id, gather_exec_info, member_position, MethodExecInfo, MethodExecInfoV,
};
use crate::resolution::{fieldref_class, fieldref_class_of, fieldref_member, fieldref_member_of, methodref_member, methodref_member_of, ACC_STATIC};
use crate::text::{chars_of, nat_text, push_char, push_nat_text, str_eq};

verus! {

// ---------------------------------------------------------------------------
// State
// ---------------------------------------------------------------------------

/// A method being run: its frame, the class whose constant pool its code
/// reads, and what executing it needs.
pub struct Activation {
    pub frame: Frame,
    pub class: usize,
    pub method: MethodExecInfo,
}

pub struct ActivationV {
    pub frame: FrameV,
    pub class: int,
    pub method: MethodExecInfoV,
}

impl View for Activation {
    type V = ActivationV;

    open spec fn view(&self) -> ActivationV {
        ActivationV { frame: self.frame@, class: self.class as int, method: self.method@ }
    }
}

pub open spec fn activation_views(s: Seq<Activation>) -> Seq<ActivationV> {
    s.map_values(|a: Activation| a@)
}

/// The machine: the classes, which of them are initialized, the heap, the
/// interned strings, the call stack (the running method last), an
/// exception on its way to the caller of a method it left, the static
/// fields (by `owner.name`), the object thrown by `athrow` while it is on
/// its way to a handler, and the object monitors with the thread that runs
/// the machine.
pub struct Machine {
    pub classes: Vec<ClassFile>,
    pub initialized: Vec<bool>,
    pub heap: Heap,
    pub strings: StringPool,
    pub stack: Vec<Activation>,
    pub pending: Option<String>,
    pub statics: Vec<Field>,
    pub thrown: Option<Value>,
    pub monitors: MonitorTable,
    pub threads: Scheduler,
}

pub struct MachineV {
    pub classes: Seq<ClassFile>,
    pub initialized: Seq<bool>,
    pub heap: Seq<ObjectV>,
    pub strings: Seq<(Seq<char>, Value)>,
    pub stack: Seq<ActivationV>,
    pub pending: Option<Seq<char>>,
    pub statics: Seq<(Seq<char>, Value)>,
    pub thrown: Option<Value>,
    pub monitors: Map<usize, MonitorV>,
    pub threads: Seq<ThreadContext>,
    pub current: int,
    pub next_id: u64,
}

impl View for Machine {
    type V = MachineV;

    open spec fn view(&self) -> MachineV {
        MachineV {
            classes: self.classes@,
            initialized: self.initialized@,
            heap: self.heap@,
            strings: self.strings@,
            stack: activation_views(self.stack@),
            pending: match self.pending {
                Some(e) => Some(e@),
                None => None,
            },
            statics: field_views(self.statics@),
            thrown: self.thrown,
            monitors: self.monitors.view(),
            threads: self.threads.threads(),
            current: self.threads.current_index(),
            next_id: self.threads.next_id(),
        }
    }
}

/// Each monitor is owned exactly when it is entered, and the running
/// thread is one of the threads, whose ids are in order.
#[verifier::opaque]
pub open spec fn sync_ok(monitors: Map<usize, MonitorV>, threads: Seq<ThreadContext>, current: int, next_id: u64) -> bool {
    &&& forall|k: usize| #[trigger] monitors.contains_key(k) ==> monitor_wf(monitors[k])
    &&& ids_ordered(threads, next_id)
    &&& 0 <= current < threads.len()
}

/// Each class has its initialized flag, each frame reads the pool of a
/// class there is, each monitor is owned exactly when it is entered, and
/// the running thread is one of the threads.
pub open spec fn machine_wf(m: MachineV) -> bool {
    &&& m.initialized.len() == m.classes.len()
    &&& sync_ok(m.monitors, m.threads, m.current, m.next_id)
    &&& forall|i: int| 0 <= i < m.stack.len() ==> 0 <= (#[trigger] m.stack[i]).class < m.classes.len()
}

/// A call of a method that is not in bytecode, for the caller to make.
pub struct NativeCall {
    pub class_name: String,
    pub name: String,
    pub descriptor: String,
    pub args: Vec<Value>,
}

pub struct NativeCallV {
    pub class_name: Seq<char>,
    pub name: Seq<char>,
    pub descriptor: Seq<char>,
    pub args: Seq<Value>,
}

/// What a step ends in.
pub enum Outcome {
    /// Go on with the next step.
    Continue,
    /// The first method returned this value; the call stack is empty.
    Finished(Value),
    /// This exception left the first method.
    Thrown(String),
    /// The caller makes this call (its arguments already popped) and hands
    /// back its result.
    Native(NativeCall),
    /// The caller carries out the instruction with this opcode; nothing
    /// changed.
    Delegated(u8),
    /// The instruction cannot be carried out on this state (the
    /// interpreter would stop): an operand past the code, a constant that is
    /// not there, or operands of the wrong kinds.
    Fault(String),
}

pub enum OutcomeV {
    Continue,
    Finished(Value),
    Thrown(Seq<char>),
    Native(NativeCallV),
    Delegated(u8),
    Fault(Seq<char>),
}

impl View for Outcome {
    type V = OutcomeV;

    open spec fn view(&self) -> OutcomeV {
        match self {
            Outcome::Continue => OutcomeV::Continue,
            Outcome::Finished(v) => OutcomeV::Finished(*v),
            Outcome::Thrown(e) => OutcomeV::Thrown(e@),
            Outcome::Native(c) => OutcomeV::Native(
                NativeCallV { class_name: c.class_name@, name: c.name@, descriptor: c.descriptor@, args: c.args@ },
            ),
            Outcome::Delegated(op) => OutcomeV::Delegated(*op),
            Outcome::Fault(e) => OutcomeV::Fault(e@),
        }
    }
}

// ---------------------------------------------------------------------------
// Classes and methods
// ---------------------------------------------------------------------------

pub open spec fn own_class_name(cf: ClassFile) -> Option<Seq<char>> {
    cp_class_name(cf@.constant_pool, cf.this_class)
}

pub open spec fn super_class_name(cf: ClassFile) -> Option<Seq<char>> {
    cp_class_name(cf@.constant_pool, cf.super_class)
}

/// The first class at or after `i` that names itself `name`.
pub open spec fn class_position_from(cs: Seq<ClassFile>, name: Seq<char>, i: int) -> Option<int>
    decreases cs.len() - i,
{
    if i < 0 || i >= cs.len() {
        None
    } else if own_class_name(cs[i]) == Some(name) {
        Some(i)
    } else {
        class_position_from(cs, name, i + 1)
    }
}

pub open spec fn class_position(cs: Seq<ClassFile>, name: Seq<char>) -> Option<int> {
    class_position_from(cs, name, 0)
}

pub proof fn lemma_class_position_from(cs: Seq<ClassFile>, name: Seq<char>, i: int)
    ensures
        class_position_from(cs, name, i) matches Some(k) ==> 0 <= i <= k < cs.len() && own_class_name(cs[k]) == Some(name),
    decreases cs.len() - i,
{
    if 0 <= i < cs.len() && own_class_name(cs[i]) != Some(name) {
        lemma_class_position_from(cs, name, i + 1);
    }
}

/// What looking up a method from a class gives.
pub enum LookupV {
    /// Declared by the class at this position, with what running it needs.
    Found(int, MethodExecInfoV),
    /// Not declared by the class or its superclasses among the classes.
    Missing,
    /// The constant pool of a class on the way cannot be read for it.
    Unreadable,
}

/// The method `name` with descriptor `desc`, looked up in the class at `k`
/// and then in its superclasses, at most `fuel` of them.
pub open spec fn lookup_method(cs: Seq<ClassFile>, k: int, name: Seq<char>, desc: Seq<char>, fuel: nat) -> LookupV
    decreases fuel,
{
    if !exec_info_readable(cs[k], name, desc) {
        LookupV::Unreadable
    } else {
        match exec_info_with_id(cs[k], name, desc, None) {
            Some(info) => LookupV::Found(k, info),
            None => if fuel == 0 {
                LookupV::Missing
            } else {
                match super_class_name(cs[k]) {
                    None => LookupV::Missing,
                    Some(s) => match class_position(cs, s) {
                        None => LookupV::Missing,
                        Some(j) => lookup_method(cs, j, name, desc, (fuel - 1) as nat),
                    },
                }
            },
        }
    }
}

/// Whether the class `a` is `b` or has it among its supertypes (its
/// superclass and the interfaces it names, and theirs), at most `fuel`
/// levels up, among the classes.
pub open spec fn descends(cs: Seq<ClassFile>, a: Seq<char>, b: Seq<char>, fuel: nat) -> bool
    decreases fuel,
{
    if a == b {
        true
    } else if fuel == 0 {
        false
    } else {
        match class_position(cs, a) {
            None => false,
            Some(k) => {
                ||| exists|i: int|
                    0 <= i < cs[k].interfaces@.len() && (#[trigger] cp_class_name(cs[k]@.constant_pool, cs[k].interfaces@[i])
                        matches Some(n) && descends(cs, n, b, (fuel - 1) as nat))
                ||| match super_class_name(cs[k]) {
                    None => false,
                    Some(s) => descends(cs, s, b, (fuel - 1) as nat),
                }
            },
        }
    }
}

/// The parameter kinds as one-character type tokens.
pub open spec fn kind_tokens(kinds: Seq<char>) -> Seq<Seq<char>> {
    kinds.map_values(|c: char| seq![c])
}

/// The frame a called method starts in.
pub open spec fn entry_frame(info: MethodExecInfoV, kinds: Seq<char>, args: Seq<Value>) -> FrameV {
    FrameV { locals: call_locals(info.max_locals, kind_tokens(kinds), args), stack: Seq::empty(), pc: 0 }
}

// ---------------------------------------------------------------------------
// Steps
// ---------------------------------------------------------------------------

pub open spec fn with_top(m: MachineV, a: ActivationV) -> MachineV {
    MachineV { stack: m.stack.drop_last().push(a), ..m }
}

pub open spec fn with_top_frame(m: MachineV, f: FrameV) -> MachineV {
    with_top(m, ActivationV { frame: f, ..m.stack.last() })
}

pub open spec fn fault_text() -> Seq<char> {
    "the instruction cannot run on this frame"@
}

pub open spec fn fell_off_text(class_name: Seq<char>) -> Seq<char> {
    "Execution fell off end of method in "@ + class_name
}

/// An exception leaves the running method: to its caller, or out of the
/// machine when it was the first.
pub open spec fn unwind(m: MachineV, e: Seq<char>) -> (MachineV, OutcomeV) {
    let rest = m.stack.drop_last();
    if rest.len() == 0 {
        (MachineV { stack: rest, pending: None, thrown: None, ..m }, OutcomeV::Thrown(e))
    } else {
        (MachineV { stack: rest, pending: Some(e), ..m }, OutcomeV::Continue)
    }
}

/// Whether the handler entry catches an exception of class `exc`: it
/// catches everything, or its class is that of the exception or one of its
/// supertypes among the classes.
pub open spec fn catches(cs: Seq<ClassFile>, cp: Seq<CpEntry>, e: ExceptionTableEntry, exc: Seq<char>) -> bool {
    e.catch_type == 0 || (cp_class_name(cp, e.catch_type) matches Some(c) && descends(cs, exc, c, cs.len()))
}

/// The first entry of the table from `i` on that covers `pc` and catches
/// `exc`.
pub open spec fn handler_from(
    cs: Seq<ClassFile>,
    cp: Seq<CpEntry>,
    t: Seq<ExceptionTableEntry>,
    pc: int,
    exc: Seq<char>,
    i: int,
) -> Option<int>
    decreases t.len() - i,
{
    if i < 0 || i >= t.len() {
        None
    } else if t[i].start_pc <= pc < t[i].end_pc && catches(cs, cp, t[i], exc) {
        Some(i)
    } else {
        handler_from(cs, cp, t, pc, exc, i + 1)
    }
}

/// The exception `e` thrown at `pc` in the running method: its handler
/// takes over with the thrown object, or one made from the text when none
/// was thrown, or it leaves.
pub open spec fn throw(m: MachineV, e: Seq<char>, pc: int) -> (MachineV, OutcomeV) {
    let a = m.stack.last();
    let cp = m.classes[a.class]@.constant_pool;
    match handler_from(m.classes, cp, a.method.exception_table, pc, exception_class_text(e), 0) {
        Some(j) => if m.heap.len() + 2 >= u64::MAX {
            (m, OutcomeV::Fault(fault_text()))
        } else {
            let (f2, h2) = handler_entry(a.frame, m.heap, a.method.exception_table[j].handler_pc as int, m.thrown, e);
            (with_top_frame(MachineV { heap: h2, thrown: None, ..m }, f2), OutcomeV::Continue)
        },
        None => unwind(m, e),
    }
}

/// The running method returns `v`: its caller goes on with `v` pushed
/// (unless it is `Void`), or the machine is done.
pub open spec fn return_to_caller(m: MachineV, v: Value) -> (MachineV, OutcomeV) {
    let rest = m.stack.drop_last();
    if rest.len() == 0 {
        (MachineV { stack: rest, ..m }, OutcomeV::Finished(v))
    } else {
        let c = rest.last();
        let c2 = if v is Void {
            c
        } else {
            ActivationV { frame: with_stack(c.frame, c.frame.stack.push(v)), ..c }
        };
        (MachineV { stack: rest.drop_last().push(c2), ..m }, OutcomeV::Continue)
    }
}

pub open spec fn npe_call_text(op: u8, c: Seq<char>, n: Seq<char>, d: Seq<char>, in_class: Seq<char>) -> Seq<char> {
    if op == 0xb9 {
        "NullPointerException: invokeinterface "@ + c + "."@ + n + d
    } else {
        npe_virtual_text(op, c, n, d, in_class)
    }
}

pub open spec fn npe_virtual_text(op: u8, c: Seq<char>, n: Seq<char>, d: Seq<char>, in_class: Seq<char>) -> Seq<char> {
    "NullPointerException: "@ + (if op == 0xb7 {
        "invokespecial "@
    } else {
        "invokevirtual "@
    }) + c + "."@ + n + d + " in "@ + in_class
}

pub open spec fn static_change_text(owner: Seq<char>, n: Seq<char>, d: Seq<char>) -> Seq<char> {
    "java/lang/IncompatibleClassChangeError: "@ + owner + "."@ + n + d
}

/// The call of `n`/`d` looked up from the class at `k`, with the caller's
/// frame `g` (arguments popped): a method in bytecode gets a new frame on
/// the stack; one that is not is handed to the caller of the machine.
pub open spec fn call(
    m: MachineV,
    g: FrameV,
    k: int,
    c: Seq<char>,
    n: Seq<char>,
    d: Seq<char>,
    kinds: Seq<char>,
    args: Seq<Value>,
    is_static: bool,
) -> (MachineV, OutcomeV) {
    let m1 = with_top_frame(m, g);
    match lookup_method(m.classes, k, n, d, m.classes.len()) {
        LookupV::Unreadable => (m, OutcomeV::Fault(fault_text())),
        LookupV::Missing => (m1, OutcomeV::Native(NativeCallV { class_name: c, name: n, descriptor: d, args })),
        LookupV::Found(j, info) => if !info.has_code {
            (m1, OutcomeV::Native(NativeCallV { class_name: c, name: n, descriptor: d, args }))
        } else if is_static && info.access_flags & ACC_STATIC == 0 {
            throw(m1, static_change_text(info.class_name, n, d), m.stack.last().frame.pc)
        } else {
            (
                MachineV {
                    stack: m1.stack.push(ActivationV { frame: entry_frame(info, kinds, args), class: j, method: info }),
                    ..m1
                },
                OutcomeV::Continue,
            )
        },
    }
}

/// The frame of a class initializer, when the class declares one in
/// bytecode.
pub open spec fn clinit_of(cf: ClassFile) -> Option<MethodExecInfoV> {
    if exec_info_readable(cf, "<clinit>"@, "()V"@) {
        match exec_info_with_id(cf, "<clinit>"@, "()V"@, None) {
            Some(info) => if info.has_code {
                Some(info)
            } else {
                None
            },
            None => None,
        }
    } else {
        None
    }
}

/// Initializing the class at `k`: it is marked initialized and its
/// `<clinit>`, if it has one, starts; the running method is left as it is,
/// so that the instruction that asked runs again afterwards.
pub open spec fn init_class(m: MachineV, k: int) -> (MachineV, OutcomeV) {
    let m1 = MachineV { initialized: m.initialized.update(k, true), ..m };
    match clinit_of(m.classes[k]) {
        Some(info) => (
            MachineV {
                stack: m1.stack.push(ActivationV { frame: entry_frame(info, Seq::empty(), Seq::empty()), class: k, method: info }),
                ..m1
            },
            OutcomeV::Continue,
        ),
        None => (m1, OutcomeV::Continue),
    }
}

/// The width of an `invoke*` instruction's operand.
pub open spec fn invoke_width(op: u8) -> int {
    if op == 0xb9 {
        4
    } else {
        2
    }
}

/// An `invoke*` instruction at `opc`; `g` is the frame with the pc past the
/// opcode.
pub open spec fn invoke(m: MachineV, g: FrameV, op: u8, opc: int) -> (MachineV, OutcomeV) {
    let a = m.stack.last();
    let code = a.method.code;
    let cp = m.classes[a.class]@.constant_pool;
    if g.pc + invoke_width(op) > code.len() {
        (m, OutcomeV::Fault(fault_text()))
    } else {
        let g1 = with_pc(g, g.pc + invoke_width(op));
        match methodref_member_of(cp, be_u16(code, g.pc)) {
            None => (m, OutcomeV::Fault(fault_text())),
            Some((c, n, d)) => {
                let kinds = if op == 0xb8 {
                    arg_kinds(d)
                } else {
                    seq!['L'] + arg_kinds(d)
                };
                if kinds.len() > usize::MAX / 2 {
                    (m, OutcomeV::Fault(fault_text()))
                } else {
                    let args = args_of(g1.stack, kinds.len() as int);
                    let g2 = with_stack(g1, stack_after_args(g1.stack, kinds.len() as int));
                    if op == 0xb8 {
                        match class_position(m.classes, c) {
                            None => (
                                with_top_frame(m, g2),
                                OutcomeV::Native(NativeCallV { class_name: c, name: n, descriptor: d, args }),
                            ),
                            Some(k) => if !m.initialized[k] {
                                init_class(m, k)
                            } else {
                                call(m, g2, k, c, n, d, kinds, args, true)
                            },
                        }
                    } else {
                        let recv = args[0];
                        match recv {
                            Value::Ref(None) => throw(with_top_frame(m, g2), npe_call_text(op, c, n, d, a.method.class_name), opc),
                            Value::Ref(Some(r)) => if r >= m.heap.len() {
                                (m, OutcomeV::Fault(fault_text()))
                            } else {
                                let start = if op == 0xb7 {
                                    class_position(m.classes, c)
                                } else {
                                    class_position(m.classes, m.heap[r as int].class_name)
                                };
                                match start {
                                    None => (
                                        with_top_frame(m, g2),
                                        OutcomeV::Native(NativeCallV { class_name: c, name: n, descriptor: d, args }),
                                    ),
                                    Some(k) => call(m, g2, k, c, n, d, kinds, args, false),
                                }
                            },
                            _ => (m, OutcomeV::Fault(fault_text())),
                        }
                    }
                }
            },
        }
    }
}

/// `getfield`, `putfield`, `anewarray` and the `ldc`s, whose operand names
/// a constant of the running method's class.
pub open spec fn pool_instruction(m: MachineV, g: FrameV, op: u8, opc: int) -> (MachineV, OutcomeV) {
    let a = m.stack.last();
    let code = a.method.code;
    let cp = m.classes[a.class]@.constant_pool;
    let width: int = if op == 0x12 {
        1
    } else {
        2
    };
    if g.pc + width > code.len() {
        (m, OutcomeV::Fault(fault_text()))
    } else {
        let idx: u16 = if op == 0x12 {
            code[g.pc] as u16
        } else {
            be_u16(code, g.pc)
        };
        let g1 = with_pc(g, g.pc + width);
        if op == 0xb4 || op == 0xb5 {
            let (n, d) = match fieldref_member_of(cp, idx) {
                Some(p) => p,
                None => (Seq::empty(), Seq::empty()),
            };
            if op == 0xb4 {
                if g1.stack.len() > 0 && !(top(g1, 0) is Void || ref_ok(top(g1, 0), m.heap)) {
                    (m, OutcomeV::Fault(fault_text()))
                } else {
                    let (g2, r) = getfield_step(g1, m.heap, n, d, a.method.class_name);
                    match r {
                        Ok(_) => (with_top_frame(m, g2), OutcomeV::Continue),
                        Err(e) => throw(with_top_frame(m, g2), e, opc),
                    }
                }
            } else {
                if g1.stack.len() >= 2 && !(top(g1, 1) is Void || ref_ok(top(g1, 1), m.heap)) {
                    (m, OutcomeV::Fault(fault_text()))
                } else {
                    let (g2, h2, r) = putfield_step(g1, m.heap, n, a.method.class_name);
                    let m2 = with_top_frame(MachineV { heap: h2, ..m }, g2);
                    match r {
                        Ok(_) => (m2, OutcomeV::Continue),
                        Err(e) => throw(m2, e, opc),
                    }
                }
            }
        } else if op == 0xbd {
            match cp_class_name(cp, idx) {
                None => (m, OutcomeV::Fault(fault_text())),
                Some(elem) => if !(g1.stack.len() >= 1 && top(g1, 0) is Int && m.heap.len() < u64::MAX) {
                    (m, OutcomeV::Fault(fault_text()))
                } else {
                    let (g2, h2, r) = anewarray_step(g1, m.heap, elem);
                    let m2 = with_top_frame(MachineV { heap: h2, ..m }, g2);
                    match r {
                        Ok(_) => (m2, OutcomeV::Continue),
                        Err(e) => throw(m2, e, opc),
                    }
                },
            }
        } else {
            if !(ldc_ok(cp, idx) && m.heap.len() < u64::MAX) {
                (m, OutcomeV::Fault(fault_text()))
            } else {
                let (g2, h2, s2, st) = ldc_step(g1, m.heap, m.strings, cp, idx);
                match st {
                    Step::Continue => (with_top_frame(MachineV { heap: h2, strings: s2, ..m }, g2), OutcomeV::Continue),
                    _ => (m, OutcomeV::Delegated(op)),
                }
            }
        }
    }
}

/// Any other instruction, run on the frame and the heap.
pub open spec fn plain_instruction(m: MachineV, g: FrameV, op: u8, opc: int) -> (MachineV, OutcomeV) {
    let a = m.stack.last();
    if !heap_step_ok(g, m.heap, a.method.code, op) {
        (m, OutcomeV::Fault(fault_text()))
    } else {
        let (g2, h2, r) = heap_step(g, m.heap, a.method.code, op);
        let m2 = with_top_frame(MachineV { heap: h2, ..m }, g2);
        match r {
            Ok(Step::Continue) => (m2, OutcomeV::Continue),
            Ok(Step::Return(v)) => return_to_caller(m2, v),
            Ok(Step::Delegate(d)) => (m, OutcomeV::Delegated(d)),
            Err(e) => throw(m2, e, opc),
        }
    }
}

/// The key a static field is kept under: its class, a dot and its name.
pub open spec fn static_key(c: Seq<char>, n: Seq<char>) -> Seq<char> {
    c + "."@ + n
}

/// A class name with `/` written as `.`.
pub open spec fn dotted(s: Seq<char>) -> Seq<char> {
    s.map_values(|ch: char| if ch == '/' { '.' } else { ch })
}

pub open spec fn is_array_class(c: Seq<char>) -> bool {
    c.len() > 0 && c[0] == '['
}

/// Whether an object of class `rc` is an instance of `tc`: `tc` is
/// `java/lang/Object`, `rc` is an array and `tc` one of the two interfaces
/// every array has, or `tc` is `rc` or one of its supertypes among the
/// classes.
pub open spec fn instance_of(cs: Seq<ClassFile>, rc: Seq<char>, tc: Seq<char>) -> bool {
    ||| tc == "java/lang/Object"@
    ||| is_array_class(rc) && (tc == "java/lang/Cloneable"@ || tc == "java/io/Serializable"@)
    ||| descends(cs, rc, tc, cs.len())
}

pub open spec fn cast_text(cn: Seq<char>, target: Seq<char>) -> Seq<char> {
    "ClassCastException: "@ + dotted(cn) + " cannot be cast to "@ + dotted(target)
}

/// `getstatic` or `putstatic` of `c.n` (descriptor `d`); `g1` is the frame
/// past the operand. The class is initialized first.
pub open spec fn static_access(m: MachineV, g1: FrameV, op: u8, c: Seq<char>, n: Seq<char>, d: Seq<char>) -> (
    MachineV,
    OutcomeV,
) {
    let uninit = match class_position(m.classes, c) {
        Some(k) => !m.initialized[k],
        None => false,
    };
    if uninit {
        init_class(m, class_position(m.classes, c)->0)
    } else if op == 0xb2 {
        (with_top_frame(m, with_stack(g1, g1.stack.push(field_value(m.statics, static_key(c, n), d)))), OutcomeV::Continue)
    } else if g1.stack.len() == 0 {
        (m, OutcomeV::Fault(fault_text()))
    } else {
        (
            with_top_frame(
                MachineV { statics: fields_after_put(m.statics, static_key(c, n), top(g1, 0)), ..m },
                with_stack(g1, g1.stack.drop_last()),
            ),
            OutcomeV::Continue,
        )
    }
}

/// The object `new` makes of class `c`: a list class the machine does not
/// hold gets an empty element array, any other a plain object; no fields
/// are written yet.
pub open spec fn new_object(cs: Seq<ClassFile>, c: Seq<char>) -> ObjectV {
    let list = class_position(cs, c) is None && (c == "java/util/ArrayList"@ || c == "java/util/LinkedList"@);
    ObjectV {
        class_name: c,
        payload: if list {
            PayloadV::Array(Seq::empty())
        } else {
            PayloadV::Plain
        },
        fields: Seq::empty(),
    }
}

/// `new` of class `c`; `g1` is the frame past the operand. The class is
/// initialized first.
pub open spec fn new_step(m: MachineV, g1: FrameV, c: Seq<char>) -> (MachineV, OutcomeV) {
    let uninit = match class_position(m.classes, c) {
        Some(k) => !m.initialized[k],
        None => false,
    };
    if uninit {
        init_class(m, class_position(m.classes, c)->0)
    } else if m.heap.len() >= u64::MAX {
        (m, OutcomeV::Fault(fault_text()))
    } else {
        (
            with_top_frame(
                MachineV { heap: m.heap.push(new_object(m.classes, c)), ..m },
                with_stack(g1, g1.stack.push(Value::Ref(Some(m.heap.len() as u64)))),
            ),
            OutcomeV::Continue,
        )
    }
}

/// `checkcast` (0xc0) or `instanceof` (0xc1) against class `c`; `g1` is
/// the frame past the operand.
pub open spec fn type_check(m: MachineV, g1: FrameV, op: u8, c: Seq<char>, opc: int) -> (MachineV, OutcomeV) {
    if g1.stack.len() == 0 {
        (m, OutcomeV::Fault(fault_text()))
    } else {
        match top(g1, 0) {
            Value::Ref(None) => if op == 0xc0 {
                (with_top_frame(m, g1), OutcomeV::Continue)
            } else {
                (with_top_frame(m, with_stack(g1, g1.stack.drop_last().push(Value::Int(0)))), OutcomeV::Continue)
            },
            Value::Ref(Some(r)) => if r >= m.heap.len() {
                (m, OutcomeV::Fault(fault_text()))
            } else {
                let cn = m.heap[r as int].class_name;
                let ok = instance_of(m.classes, cn, c);
                if op == 0xc0 {
                    if ok {
                        (with_top_frame(m, g1), OutcomeV::Continue)
                    } else {
                        throw(with_top_frame(m, g1), cast_text(cn, c), opc)
                    }
                } else {
                    (
                        with_top_frame(m, with_stack(g1, g1.stack.drop_last().push(Value::Int(if ok { 1 } else { 0 })))),
                        OutcomeV::Continue,
                    )
                }
            },
            _ => (m, OutcomeV::Fault(fault_text())),
        }
    }
}

/// The detail message an exception object carries, as the text after its
/// class: `": "` and the message when its `detailMessage` field refers to
/// a non-empty string, else nothing.
pub open spec fn detail_suffix(h: Seq<ObjectV>, fs: Seq<(Seq<char>, Value)>) -> Seq<char> {
    if has_field(fs, "detailMessage"@) {
        match fs[first_field(fs, "detailMessage"@)].1 {
            Value::Ref(Some(k)) => if k < h.len() {
                match h[k as int].payload {
                    PayloadV::JavaString(t) => if t.len() > 0 {
                        ": "@ + t
                    } else {
                        Seq::empty()
                    },
                    _ => Seq::empty(),
                }
            } else {
                Seq::empty()
            },
            _ => Seq::empty(),
        }
    } else {
        Seq::empty()
    }
}

/// The text of a thrown exception object.
pub open spec fn exception_ref_text(h: Seq<ObjectV>, r: int) -> Seq<char> {
    "Exception: "@ + h[r].class_name + detail_suffix(h, h[r].fields)
}

/// `athrow` at `opc`; `g` is the frame past the opcode. An object is thrown
/// as itself; `null` throws a `NullPointerException`.
pub open spec fn athrow_step(m: MachineV, g: FrameV, opc: int) -> (MachineV, OutcomeV) {
    if g.stack.len() == 0 {
        (m, OutcomeV::Fault(fault_text()))
    } else {
        let a = m.stack.last();
        let m1 = with_top_frame(m, with_stack(g, g.stack.drop_last()));
        let at = " at "@ + a.method.class_name + ":pc"@ + nat_text(opc as nat);
        match top(g, 0) {
            Value::Ref(Some(r)) => if r >= m.heap.len() {
                (m, OutcomeV::Fault(fault_text()))
            } else {
                throw(MachineV { thrown: Some(top(g, 0)), ..m1 }, exception_ref_text(m.heap, r as int) + at, opc)
            },
            Value::Ref(None) => throw(m1, "Exception: java/lang/NullPointerException"@ + at, opc),
            _ => throw(m1, "Exception: java/lang/RuntimeException"@ + at, opc),
        }
    }
}

/// `getstatic`, `putstatic`, `new`, `checkcast`, `instanceof` and `athrow`
/// at `opc`; `g` is the frame past the opcode.
pub open spec fn object_instruction(m: MachineV, g: FrameV, op: u8, opc: int) -> (MachineV, OutcomeV) {
    let a = m.stack.last();
    let code = a.method.code;
    let cp = m.classes[a.class]@.constant_pool;
    if op == 0xbf {
        athrow_step(m, g, opc)
    } else if g.pc + 2 > code.len() {
        (m, OutcomeV::Fault(fault_text()))
    } else {
        let idx = be_u16(code, g.pc);
        let g1 = with_pc(g, g.pc + 2);
        if op == 0xb2 || op == 0xb3 {
            match (fieldref_class_of(cp, idx), fieldref_member_of(cp, idx)) {
                (Some(c), Some((n, d))) => static_access(m, g1, op, c, n, d),
                _ => (m, OutcomeV::Fault(fault_text())),
            }
        } else {
            match cp_class_name(cp, idx) {
                None => (m, OutcomeV::Fault(fault_text())),
                Some(c) => if op == 0xbb {
                    new_step(m, g1, c)
                } else {
                    type_check(m, g1, op, c, opc)
                },
            }
        }
    }
}

/// `invokedynamic` at `opc`; `g` is the frame past the opcode. A call site
/// linked by `StringConcatFactory` pops its arguments and pushes a new
/// string of its recipe; any other call site, and one whose constants or
/// arguments need what the machine leaves out (floating point, an object's
/// `toString()`, a method handle or type constant, an unpaired surrogate),
/// is left to the caller.
pub open spec fn indy_instruction(m: MachineV, g: FrameV, opc: int) -> (MachineV, OutcomeV) {
    let a = m.stack.last();
    let code = a.method.code;
    let cp = m.classes[a.class]@.constant_pool;
    let bms = a.method.bootstrap_methods;
    if g.pc + 4 > code.len() {
        (m, OutcomeV::Fault(fault_text()))
    } else {
        let idx = be_u16(code, g.pc);
        let g1 = with_pc(g, g.pc + 4);
        if !indy_readable(cp, bms, idx) {
            (m, OutcomeV::Fault(fault_text()))
        } else {
            match indy_plan(cp, bms, idx) {
                Err(_) => (m, OutcomeV::Delegated(0xba)),
                Ok(site) => if site.bootstrap_class != "java/lang/invoke/StringConcatFactory"@ {
                    (m, OutcomeV::Delegated(0xba))
                } else {
                    let kinds = arg_kinds(site.descriptor);
                    let bargs = bms[site.bootstrap_index as int].bootstrap_arguments;
                    if kinds.len() > usize::MAX / 2 {
                        (m, OutcomeV::Fault(fault_text()))
                    } else {
                        match recipe_of(cp, bargs, kinds.len()) {
                            None => (m, OutcomeV::Fault(fault_text())),
                            Some(recipe) => match constant_texts(cp, recipe_constants(bargs)) {
                                None => (m, OutcomeV::Delegated(0xba)),
                                Some(consts) => {
                                    let args = args_of(g1.stack, kinds.len() as int);
                                    let g2 = with_stack(g1, stack_after_args(g1.stack, kinds.len() as int));
                                    match concat_spec(m.heap, kinds, args, consts, recipe) {
                                        None => (m, OutcomeV::Delegated(0xba)),
                                        Some(units) => match decode_utf16(units) {
                                            None => (m, OutcomeV::Delegated(0xba)),
                                            Some(t) => if m.heap.len() >= u64::MAX {
                                                (m, OutcomeV::Fault(fault_text()))
                                            } else {
                                                (
                                                    with_top_frame(
                                                        MachineV { heap: m.heap.push(string_object(t)), ..m },
                                                        with_stack(g2, g2.stack.push(Value::Ref(Some(m.heap.len() as u64)))),
                                                    ),
                                                    OutcomeV::Continue,
                                                )
                                            },
                                        },
                                    }
                                },
                            },
                        }
                    }
                },
            }
        }
    }
}

/// `monitorenter` (0xc2) or `monitorexit` (0xc3) at `opc` by the thread
/// running the machine; `g` is the frame past the opcode. Entering a
/// monitor another thread owns would block, which is left to the caller.
pub open spec fn monitor_instruction(m: MachineV, g: FrameV, op: u8, opc: int) -> (MachineV, OutcomeV) {
    let cur = m.threads[m.current].id;
    let g1 = monitor_frame(g);
    match monitor_operand(g) {
        None => throw(
            with_top_frame(m, g1),
            if g.stack.len() == 0 {
                "Operand stack underflow in "@ + monitor_insn(op)
            } else if top(g, 0) == Value::Ref(None) {
                "java/lang/NullPointerException: "@ + monitor_insn(op) + " on null"@
            } else {
                "Internal VM error: "@ + monitor_insn(op) + " on non-reference value"@
            },
            opc,
        ),
        Some(k) => if k > usize::MAX {
            (m, OutcomeV::Fault(fault_text()))
        } else {
            let obj = k as usize;
            let t = m.monitors;
            if op == 0xc2 {
                if enter_blocks(monitor_of(t, obj), cur) {
                    (m, OutcomeV::Delegated(op))
                } else if monitor_of(t, obj).owner == Some(cur) && monitor_of(t, obj).count >= usize::MAX {
                    (m, OutcomeV::Fault(fault_text()))
                } else {
                    (with_top_frame(MachineV { monitors: enter_table(t, obj, cur), ..m }, g1), OutcomeV::Continue)
                }
            } else if t.contains_key(obj) && t[obj].owner == Some(cur) {
                (
                    with_top_frame(
                        MachineV { monitors: exit_table(t, m.threads, obj), threads: exit_threads(t, m.threads, obj), ..m },
                        g1,
                    ),
                    OutcomeV::Continue,
                )
            } else {
                throw(
                    with_top_frame(m, g1),
                    illegal_monitor_state(
                        if !t.contains_key(obj) {
                            "monitor not entered"@
                        } else {
                            "current thread is not owner"@
                        },
                    ),
                    opc,
                )
            }
        },
    }
}

pub open spec fn is_pool_op(op: u8) -> bool {
    op == 0xb4 || op == 0xb5 || op == 0xbd || op == 0x12 || op == 0x13 || op == 0x14
}

pub open spec fn is_invoke_op(op: u8) -> bool {
    op == 0xb6 || op == 0xb7 || op == 0xb8 || op == 0xb9
}

pub open spec fn is_object_op(op: u8) -> bool {
    op == 0xb2 || op == 0xb3 || op == 0xbb || op == 0xbf || op == 0xc0 || op == 0xc1
}

/// One step of the machine.
#[verifier::opaque]
pub open spec fn machine_step(m: MachineV) -> (MachineV, OutcomeV) {
    if m.stack.len() == 0 {
        (m, OutcomeV::Fault(fault_text()))
    } else {
        let a = m.stack.last();
        match m.pending {
            Some(e) => throw(MachineV { pending: None, ..m }, e, a.frame.pc - 3),
            None => if a.frame.pc >= a.method.code.len() {
                unwind(m, fell_off_text(a.method.class_name))
            } else {
                let opc = a.frame.pc;
                let op = a.method.code[opc];
                let g = with_pc(a.frame, opc + 1);
                if is_invoke_op(op) {
                    invoke(m, g, op, opc)
                } else if is_pool_op(op) {
                    pool_instruction(m, g, op, opc)
                } else if is_object_op(op) {
                    object_instruction(m, g, op, opc)
                } else if op == 0xba {
                    indy_instruction(m, g, opc)
                } else if op == 0xc2 || op == 0xc3 {
                    monitor_instruction(m, g, op, opc)
                } else {
                    plain_instruction(m, g, op, opc)
                }
            },
        }
    }
}

/// At most `budget` steps, stopping at the first outcome that is not
/// `Continue`; `Continue` when the budget ran out.
pub open spec fn run_steps(m: MachineV, budget: nat) -> (MachineV, OutcomeV)
    decreases budget,
{
    if budget == 0 {
        (m, OutcomeV::Continue)
    } else {
        let (m2, o) = machine_step(m);
        if o is Continue {
            run_steps(m2, (budget - 1) as nat)
        } else {
            (m2, o)
        }
    }
}

// ---------------------------------------------------------------------------
// Execution: classes and methods
// ---------------------------------------------------------------------------

fn owned(s: &str) -> (r: String)
    ensures
        r@ == s@,
{
    let mut r = String::new();
    r.append(s);
    r
}

/// The position of the first class that names itself `name`.
pub fn class_index(classes: &Vec<ClassFile>, name: &str) -> (r: Option<usize>)
    ensures
        match class_position(classes@, name@) {
            Some(k) => r matches Some(i) && i as int == k && i < classes@.len(),
            None => r is None,
        },
{
    proof {
        lemma_class_position_from(classes@, name@, 0);
    }
    let mut i: usize = 0;
    while i < classes.len()
        invariant
            i <= classes@.len(),
            class_position(classes@, name@) == class_position_from(classes@, name@, i as int),
        decreases classes@.len() - i,
    {
        let cf = &classes[i];
        match cf.constant_pool.class_name_entry(cf.this_class) {
            Some(n) => {
                if str_eq(n, name) {
                    return Some(i);
                }
            },
            None => {},
        }
        i = i + 1;
    }
    None
}

/// What looking up a method from a class gives.
pub enum Lookup {
    Found(usize, MethodExecInfo),
    Missing,
    Unreadable,
}

fn lookup_from(classes: &Vec<ClassFile>, k: usize, name: &str, desc: &str, fuel: usize) -> (r: Lookup)
    requires
        k < classes@.len(),
    ensures
        match lookup_method(classes@, k as int, name@, desc@, fuel as nat) {
            LookupV::Found(j, info) => r matches Lookup::Found(j2, info2) && j2 == j && info2@ == info && j2
                < classes@.len(),
            LookupV::Missing => r is Missing,
            LookupV::Unreadable => r is Unreadable,
        },
    decreases fuel,
{
    let cf = &classes[k];
    if !exec_info_ready(cf, name, desc) {
        return Lookup::Unreadable;
    }
    match gather_exec_info(cf, name, desc, None) {
        Some(info) => Lookup::Found(k, info),
        None => {
            if fuel == 0 {
                return Lookup::Missing;
            }
            let sup = match cf.constant_pool.class_name_entry(cf.super_class) {
                Some(s) => s,
                None => {
                    return Lookup::Missing;
                },
            };
            match class_index(classes, sup) {
                None => Lookup::Missing,
                Some(j) => lookup_from(classes, j, name, desc, fuel - 1),
            }
        },
    }
}

fn descends_exec(classes: &Vec<ClassFile>, a: &str, b: &str, fuel: usize) -> (r: bool)
    ensures
        r == descends(classes@, a@, b@, fuel as nat),
    decreases fuel,
{
    if str_eq(a, b) {
        return true;
    }
    if fuel == 0 {
        return false;
    }
    match class_index(classes, a) {
        None => false,
        Some(k) => {
            let cf = &classes[k];
            let ghost cp = cf@.constant_pool;
            let ghost ifs = cf.interfaces@;
            let mut i: usize = 0;
            while i < cf.interfaces.len()
                invariant
                    i <= ifs.len(),
                    k < classes@.len(),
                    class_position(classes@, a@) == Some(k as int),
                    a@ != b@,
                    cf == &classes@[k as int],
                    ifs == cf.interfaces@,
                    cp == cf@.constant_pool,
                    fuel > 0,
                    forall|j: int|
                        0 <= j < i ==> !(#[trigger] cp_class_name(cp, ifs[j]) matches Some(n) && descends(
                            classes@,
                            n,
                            b@,
                            (fuel - 1) as nat,
                        )),
                decreases ifs.len() - i,
            {
                let ix = cf.interfaces[i];
                assert(ix == ifs[i as int]);
                match cf.constant_pool.class_name_entry(ix) {
                    Some(n) => {
                        if descends_exec(classes, n, b, fuel - 1) {
                            proof {
                                assert(cp_class_name(cp, ifs[i as int]) == Some(n@));
                                assert(0 <= i < classes@[k as int].interfaces@.len() && (cp_class_name(
                                    classes@[k as int]@.constant_pool,
                                    classes@[k as int].interfaces@[i as int],
                                ) matches Some(nn) && descends(classes@, nn, b@, (fuel - 1) as nat)));
                            }
                            return true;
                        }
                    },
                    None => {},
                }
                i = i + 1;
            }
            match cf.constant_pool.class_name_entry(cf.super_class) {
                None => false,
                Some(s) => descends_exec(classes, s, b, fuel - 1),
            }
        },
    }
}

fn find_handler(
    classes: &Vec<ClassFile>,
    cf: &ClassFile,
    table: &Vec<ExceptionTableEntry>,
    pc: i128,
    exc: &str,
) -> (r: Option<usize>)
    ensures
        match handler_from(classes@, cf@.constant_pool, table@, pc as int, exc@, 0) {
            Some(j) => r matches Some(i) && i as int == j && i < table@.len(),
            None => r is None,
        },
{
    let mut i: usize = 0;
    while i < table.len()
        invariant
            i <= table@.len(),
            handler_from(classes@, cf@.constant_pool, table@, pc as int, exc@, 0) == handler_from(
                classes@,
                cf@.constant_pool,
                table@,
                pc as int,
                exc@,
                i as int,
            ),
        decreases table@.len() - i,
    {
        let e = table[i];
        if (e.start_pc as i128) <= pc && pc < (e.end_pc as i128) {
            let caught = e.catch_type == 0 || match cf.constant_pool.class_name_entry(e.catch_type) {
                Some(c) => descends_exec(classes, exc, c, classes.len()),
                None => false,
            };
            if caught {
                return Some(i);
            }
        }
        i = i + 1;
    }
    None
}

// ---------------------------------------------------------------------------
// Execution: the machine
// ---------------------------------------------------------------------------

proof fn lemma_views_push(s: Seq<Activation>, a: Activation)
    ensures
        activation_views(s.push(a)) == activation_views(s).push(a@),
{
    assert(activation_views(s.push(a)) =~= activation_views(s).push(a@));
}

proof fn lemma_views_drop_last(s: Seq<Activation>)
    requires
        s.len() > 0,
    ensures
        activation_views(s.drop_last()) == activation_views(s).drop_last(),
        activation_views(s).last() == s.last()@,
{
    assert(activation_views(s.drop_last()) =~= activation_views(s).drop_last());
}

fn kind_token_strings(kinds: &Vec<char>) -> (r: Vec<String>)
    ensures
        r@.map_values(|t: String| t@) == kind_tokens(kinds@),
        r@.len() == kinds@.len(),
{
    let mut r: Vec<String> = Vec::new();
    let mut i: usize = 0;
    while i < kinds.len()
        invariant
            i <= kinds@.len(),
            r@.len() == i,
            r@.map_values(|t: String| t@) =~= kind_tokens(kinds@.take(i as int)),
        decreases kinds@.len() - i,
    {
        let mut t = String::new();
        push_char(&mut t, kinds[i]);
        let ghost before = r@;
        r.push(t);
        assert(r@.map_values(|t: String| t@) =~= before.map_values(|t: String| t@).push(t@));
        assert(kind_tokens(kinds@.take(i + 1)) =~= kind_tokens(kinds@.take(i as int)).push(seq![kinds@[i as int]]));
        i = i + 1;
    }
    assert(kinds@.take(i as int) =~= kinds@);
    r
}

impl Machine {
    /// A machine over these classes, none of them initialized, with nothing
    /// running.
    pub fn new(classes: Vec<ClassFile>) -> (m: Machine)
        ensures
            machine_wf(m@),
            m@.classes == classes@,
            m@.initialized == Seq::new(classes@.len(), |i: int| false),
            m@.heap == Seq::<ObjectV>::empty(),
            m@.stack == Seq::<ActivationV>::empty(),
            m@.pending is None,
            m@.statics == Seq::<(Seq<char>, Value)>::empty(),
            m@.thrown is None,
    {
        let mut initialized: Vec<bool> = Vec::new();
        let mut i: usize = 0;
        while i < classes.len()
            invariant
                i <= classes@.len(),
                initialized@ =~= Seq::new(i as nat, |j: int| false),
            decreases classes@.len() - i,
        {
            initialized.push(false);
            i = i + 1;
        }
        let m = Machine {
            classes,
            initialized,
            heap: Heap::new(),
            strings: StringPool::new(),
            stack: Vec::new(),
            pending: None,
            statics: Vec::new(),
            thrown: None,
            monitors: MonitorTable::new(),
            threads: Scheduler::new(),
        };
        proof {
            reveal(sync_ok);
        }
        assert(activation_views(m.stack@) =~= Seq::<ActivationV>::empty());
        assert(field_views(m.statics@) =~= Seq::<(Seq<char>, Value)>::empty());
        m
    }

    /// Start the method `info` of the class at `class` with these
    /// arguments (a static method's, in order).
    pub fn push_call(&mut self, class: usize, info: MethodExecInfo, args: Vec<Value>)
        requires
            machine_wf(old(self)@),
            class < old(self)@.classes.len(),
        ensures
            machine_wf(final(self)@),
            arg_kinds(info@.descriptor).len() <= usize::MAX / 2 ==> final(self)@ == (MachineV {
                stack: old(self)@.stack.push(
                    ActivationV { frame: entry_frame(info@, arg_kinds(info@.descriptor), args@), class: class as int, method: info@ },
                ),
                ..old(self)@
            }),
            arg_kinds(info@.descriptor).len() > usize::MAX / 2 ==> final(self)@ == old(self)@,
    {
        let kinds = arg_type_chars(info.descriptor.as_str());
        if kinds.len() > usize::MAX / 2 {
            return;
        }
        let toks = kind_token_strings(&kinds);
        let frame = new_call_frame(info.max_locals, &toks, args);
        let ghost before = self.stack@;
        let a = Activation { frame, class, method: info };
        self.stack.push(a);
        proof {
            lemma_views_push(before, a);
        }
    }

    /// The heap's objects, for reading results.
    pub fn heap(&self) -> (h: &Heap)
        ensures
            h@ == self@.heap,
    {
        &self.heap
    }

    /// Hand back the result of a native call the machine asked for: the
    /// value is pushed for the caller (unless it is `Void`), or the
    /// exception is thrown at the call.
    pub fn complete_native(&mut self, result: Result<Value, String>)
        requires
            machine_wf(old(self)@),
            old(self)@.stack.len() > 0,
            old(self)@.pending is None,
        ensures
            machine_wf(final(self)@),
            final(self)@ == match result {
                Ok(v) => if v is Void {
                    old(self)@
                } else {
                    with_top_frame(old(self)@, with_stack(old(self)@.stack.last().frame, old(self)@.stack.last().frame.stack.push(v)))
                },
                Err(e) => MachineV { pending: Some(e@), ..old(self)@ },
            },
    {
        match result {
            Ok(v) => {
                if let Value::Void = v {
                    return;
                }
                let ghost s0 = self.stack@;
                let mut a = match self.stack.pop() {
                    Some(a) => a,
                    None => vstd::pervasive::unreached(),
                };
                a.frame.stack.push(v);
                let ghost mid = self.stack@;
                self.stack.push(a);
                proof {
                    lemma_views_drop_last(s0);
                    lemma_views_push(mid, a);
                }
            },
            Err(e) => {
                self.pending = Some(e);
            },
        }
    }

    /// The exception `e` leaves the running method.
    fn unwind_exec(&mut self, e: String) -> (r: Outcome)
        requires
            machine_wf(old(self)@),
            old(self)@.stack.len() > 0,
        ensures
            machine_wf(final(self)@),
            (final(self)@, r@) == unwind(old(self)@, e@),
    {
        let ghost s0 = self.stack@;
        self.stack.pop();
        proof {
            lemma_views_drop_last(s0);
        }
        if self.stack.len() == 0 {
            self.pending = None;
            self.thrown = None;
            Outcome::Thrown(e)
        } else {
            self.pending = Some(e);
            Outcome::Continue
        }
    }

    /// The exception `e` thrown at `pc` in the running method.
    fn throw_exec(&mut self, e: String, pc: i128) -> (r: Outcome)
        requires
            machine_wf(old(self)@),
            old(self)@.stack.len() > 0,
        ensures
            machine_wf(final(self)@),
            (final(self)@, r@) == throw(old(self)@, e@, pc as int),
    {
        let n = self.stack.len();
        proof {
            lemma_views_drop_last(self.stack@);
        }
        let exc = exception_class_from_err_msg(e.as_str());
        let found = {
            let a = &self.stack[n - 1];
            assert(a@ == self@.stack.last());
            find_handler(&self.classes, &self.classes[a.class], &a.method.exception_table, pc, exc.as_str())
        };
        match found {
            Some(j) => {
                if self.heap.len() as u64 >= 0xffff_ffff_ffff_fffd {
                    return Outcome::Fault(owned("the instruction cannot run on this frame"));
                }
                let ghost s0 = self.stack@;
                let mut a = match self.stack.pop() {
                    Some(a) => a,
                    None => vstd::pervasive::unreached(),
                };
                let hpc = a.method.exception_table[j].handler_pc as usize;
                let thrown = self.thrown;
                self.thrown = None;
                enter_exception_handler(&mut a.frame, &mut self.heap, hpc, thrown, e.as_str());
                let ghost mid = self.stack@;
                self.stack.push(a);
                proof {
                    lemma_views_push(mid, a);
                }
                Outcome::Continue
            },
            None => self.unwind_exec(e),
        }
    }

    /// The running method returns `v`.
    fn return_exec(&mut self, v: Value) -> (r: Outcome)
        requires
            machine_wf(old(self)@),
            old(self)@.stack.len() > 0,
        ensures
            machine_wf(final(self)@),
            (final(self)@, r@) == return_to_caller(old(self)@, v),
    {
        let ghost s0 = self.stack@;
        self.stack.pop();
        proof {
            lemma_views_drop_last(s0);
        }
        if self.stack.len() == 0 {
            return Outcome::Finished(v);
        }
        if let Value::Void = v {
            let ghost rest = self@.stack;
            assert(rest.drop_last().push(rest.last()) =~= rest);
            return Outcome::Continue;
        }
        let ghost s1 = self.stack@;
        let mut c = match self.stack.pop() {
            Some(c) => c,
            None => vstd::pervasive::unreached(),
        };
        c.frame.stack.push(v);
        let ghost mid = self.stack@;
        self.stack.push(c);
        proof {
            lemma_views_drop_last(s1);
            lemma_views_push(mid, c);
        }
        Outcome::Continue
    }
}

fn with_receiver(base: &Vec<char>) -> (r: Vec<char>)
    ensures
        r@ == seq!['L'] + base@,
{
    let mut r: Vec<char> = Vec::new();
    r.push('L');
    let mut i: usize = 0;
    while i < base.len()
        invariant
            i <= base@.len(),
            r@ =~= seq!['L'] + base@.take(i as int),
        decreases base@.len() - i,
    {
        r.push(base[i]);
        i = i + 1;
    }
    assert(base@.take(i as int) =~= base@);
    r
}

fn clinit_exec(cf: &ClassFile) -> (r: Option<MethodExecInfo>)
    ensures
        match clinit_of(*cf) {
            Some(info) => r matches Some(x) && x@ == info,
            None => r is None,
        },
{
    if !exec_info_ready(cf, "<clinit>", "()V") {
        return None;
    }
    match gather_exec_info(cf, "<clinit>", "()V", None) {
        Some(info) => if info.has_code {
            Some(info)
        } else {
            None
        },
        None => None,
    }
}

impl Machine {
    /// Initialize the class at `k`, as `init_class` says.
    fn init_class_exec(&mut self, k: usize) -> (r: Outcome)
        requires
            machine_wf(old(self)@),
            k < old(self)@.classes.len(),
        ensures
            machine_wf(final(self)@),
            (final(self)@, r@) == init_class(old(self)@, k as int),
    {
        self.initialized.set(k, true);
        match clinit_exec(&self.classes[k]) {
            Some(info) => {
                let empty: Vec<char> = Vec::new();
                let toks = kind_token_strings(&empty);
                assert(empty@ =~= Seq::<char>::empty());
                let frame = new_call_frame(info.max_locals, &toks, Vec::new());
                let ghost before = self.stack@;
                let a = Activation { frame, class: k, method: info };
                self.stack.push(a);
                proof {
                    lemma_views_push(before, a);
                }
                Outcome::Continue
            },
            None => Outcome::Continue,
        }
    }
}

fn npe_call_message(op: u8, c: &str, n: &str, d: &str, in_class: &str) -> (r: String)
    ensures
        r@ == npe_call_text(op, c@, n@, d@, in_class@),
{
    if op == 0xb9 {
        let mut r = owned("NullPointerException: invokeinterface ");
        r.append(c);
        r.append(".");
        r.append(n);
        r.append(d);
        return r;
    }
    let mut r = owned("NullPointerException: ");
    if op == 0xb7 {
        r.append("invokespecial ");
    } else {
        r.append("invokevirtual ");
    }
    r.append(c);
    r.append(".");
    r.append(n);
    r.append(d);
    r.append(" in ");
    r.append(in_class);
    r
}

impl Machine {
    /// Move the running method's pc to `new_pc` and take `k` call
    /// arguments from its stack.
    fn advance_and_take_args(&mut self, new_pc: usize, k: usize) -> (args: Vec<Value>)
        requires
            machine_wf(old(self)@),
            old(self)@.stack.len() > 0,
        ensures
            machine_wf(final(self)@),
            args@ == args_of(old(self)@.stack.last().frame.stack, k as int),
            final(self)@ == with_top_frame(
                old(self)@,
                with_stack(
                    with_pc(old(self)@.stack.last().frame, new_pc as int),
                    stack_after_args(old(self)@.stack.last().frame.stack, k as int),
                ),
            ),
    {
        let ghost s0 = self.stack@;
        let mut a = match self.stack.pop() {
            Some(a) => a,
            None => vstd::pervasive::unreached(),
        };
        proof {
            lemma_views_drop_last(s0);
        }
        a.frame.pc = new_pc;
        let args = pop_args(&mut a.frame, k);
        let ghost mid = self.stack@;
        self.stack.push(a);
        proof {
            lemma_views_push(mid, a);
        }
        args
    }

    /// The call of `n`/`d` looked up from the class at `k`, made by the
    /// instruction at `opc` with `kinds` of arguments.
    fn call_exec(
        &mut self,
        opc: usize,
        next: usize,
        k: usize,
        c: String,
        n: String,
        d: String,
        kinds: &Vec<char>,
        is_static: bool,
    ) -> (r: Outcome)
        requires
            machine_wf(old(self)@),
            old(self)@.stack.len() > 0,
            k < old(self)@.classes.len(),
            old(self)@.stack.last().frame.pc == opc,
            kinds@.len() <= usize::MAX / 2,
        ensures
            machine_wf(final(self)@),
            ({
                let f = old(self)@.stack.last().frame;
                let g2 = with_stack(with_pc(f, next as int), stack_after_args(f.stack, kinds@.len() as int));
                (final(self)@, r@) == call(
                    old(self)@,
                    g2,
                    k as int,
                    c@,
                    n@,
                    d@,
                    kinds@,
                    args_of(f.stack, kinds@.len() as int),
                    is_static,
                )
            }),
    {
        let found = lookup_from(&self.classes, k, n.as_str(), d.as_str(), self.classes.len());
        if let Lookup::Unreadable = found {
            return Outcome::Fault(owned("the instruction cannot run on this frame"));
        }
        let args = self.advance_and_take_args(next, kinds.len());
        match found {
            Lookup::Found(j, info) => {
                if !info.has_code {
                    return Outcome::Native(NativeCall { class_name: c, name: n, descriptor: d, args });
                }
                if is_static && info.access_flags & ACC_STATIC == 0 {
                    let mut e = owned("java/lang/IncompatibleClassChangeError: ");
                    e.append(info.class_name.as_str());
                    e.append(".");
                    e.append(n.as_str());
                    e.append(d.as_str());
                    return self.throw_exec(e, opc as i128);
                }
                let toks = kind_token_strings(kinds);
                let frame = new_call_frame(info.max_locals, &toks, args);
                let ghost before = self.stack@;
                let a = Activation { frame, class: j, method: info };
                self.stack.push(a);
                proof {
                    lemma_views_push(before, a);
                }
                Outcome::Continue
            },
            _ => Outcome::Native(NativeCall { class_name: c, name: n, descriptor: d, args }),
        }
    }
}

impl Machine {
    /// An `invoke*` instruction at `opc`.
    fn invoke_exec(&mut self, op: u8, opc: usize) -> (r: Outcome)
        requires
            machine_wf(old(self)@),
            old(self)@.stack.len() > 0,
            is_invoke_op(op),
            old(self)@.stack.last().frame.pc == opc,
            opc < old(self)@.stack.last().method.code.len(),
        ensures
            machine_wf(final(self)@),
            (final(self)@, r@) == invoke(old(self)@, with_pc(old(self)@.stack.last().frame, opc + 1), op, opc as int),
    {
        let n = self.stack.len();
        proof {
            lemma_views_drop_last(self.stack@);
        }
        let ghost m = self@;
        let width: usize = if op == 0xb9 {
            4
        } else {
            2
        };
        let member = {
            let a = &self.stack[n - 1];
            assert(a@ == m.stack.last());
            let code = &a.method.code;
            if code.len() - (opc + 1) < width {
                return Outcome::Fault(owned("the instruction cannot run on this frame"));
            }
            let mut p = opc + 1;
            let idx = read_u16(code.as_slice(), &mut p);
            methodref_member(&self.classes[a.class].constant_pool, idx)
        };
        let (c, nm, d) = match member {
            Some(t) => t,
            None => {
                return Outcome::Fault(owned("the instruction cannot run on this frame"));
            },
        };
        let base = arg_type_chars(d.as_str());
        let kinds = if op == 0xb8 {
            base
        } else {
            with_receiver(&base)
        };
        if kinds.len() > usize::MAX / 2 {
            return Outcome::Fault(owned("the instruction cannot run on this frame"));
        }
        let k = kinds.len();
        if op == 0xb8 {
            match class_index(&self.classes, c.as_str()) {
                None => {
                    let args = self.advance_and_take_args(opc + 1 + width, k);
                    Outcome::Native(NativeCall { class_name: c, name: nm, descriptor: d, args })
                },
                Some(ci) => {
                    if !self.initialized[ci] {
                        self.init_class_exec(ci)
                    } else {
                        self.call_exec(opc, opc + 1 + width, ci, c, nm, d, &kinds, true)
                    }
                },
            }
        } else {
            let recv = {
                let st = &self.stack[n - 1].frame.stack;
                if k <= st.len() {
                    st[st.len() - k]
                } else {
                    Value::Void
                }
            };
            proof {
                let fs = m.stack.last().frame.stack;
                if (k as int) <= fs.len() {
                    assert(args_of(fs, k as int)[0] == fs[fs.len() - k]);
                } else {
                    assert(args_of(fs, k as int)[0] == Value::Void);
                }
            }
            match recv {
                Value::Ref(None) => {
                    let msg = npe_call_message(op, c.as_str(), nm.as_str(), d.as_str(), self.stack[n - 1].method.class_name.as_str());
                    self.advance_and_take_args(opc + 1 + width, k);
                    self.throw_exec(msg, opc as i128)
                },
                Value::Ref(Some(r)) => {
                    if r >= self.heap.objects.len() as u64 {
                        return Outcome::Fault(owned("the instruction cannot run on this frame"));
                    }
                    let start = if op == 0xb7 {
                        class_index(&self.classes, c.as_str())
                    } else {
                        assert(self.heap.objects@[r as int]@ == m.heap[r as int]);
                        class_index(&self.classes, self.heap.objects[r as usize].class_name.as_str())
                    };
                    match start {
                        None => {
                            let args = self.advance_and_take_args(opc + 1 + width, k);
                            Outcome::Native(NativeCall { class_name: c, name: nm, descriptor: d, args })
                        },
                        Some(ci) => self.call_exec(opc, opc + 1 + width, ci, c, nm, d, &kinds, false),
                    }
                },
                _ => Outcome::Fault(owned("the instruction cannot run on this frame")),
            }
        }
    }
}

impl Machine {
    /// Take the running method out of the stack, its pc moved to `pc`.
    fn take_top(&mut self, pc: usize) -> (a: Activation)
        requires
            machine_wf(old(self)@),
            old(self)@.stack.len() > 0,
        ensures
            final(self)@ == (MachineV { stack: old(self)@.stack.drop_last(), ..old(self)@ }),
            a@ == (ActivationV { frame: with_pc(old(self)@.stack.last().frame, pc as int), ..old(self)@.stack.last() }),
            a.class < old(self)@.classes.len(),
    {
        let ghost s0 = self.stack@;
        let mut a = match self.stack.pop() {
            Some(a) => a,
            None => vstd::pervasive::unreached(),
        };
        proof {
            lemma_views_drop_last(s0);
        }
        a.frame.pc = pc;
        a
    }

    /// Put the running method back on the stack.
    fn put_top(&mut self, a: Activation)
        requires
            a.class < old(self)@.classes.len(),
            machine_wf(MachineV { stack: old(self)@.stack.push(a@), ..old(self)@ }),
        ensures
            final(self)@ == (MachineV { stack: old(self)@.stack.push(a@), ..old(self)@ }),
    {
        let ghost before = self.stack@;
        self.stack.push(a);
        proof {
            lemma_views_push(before, a);
        }
    }

    /// `getfield`, `putfield`, `anewarray` and the `ldc`s at `opc`.
    fn pool_exec(&mut self, op: u8, opc: usize) -> (r: Outcome)
        requires
            machine_wf(old(self)@),
            old(self)@.stack.len() > 0,
            is_pool_op(op),
            old(self)@.stack.last().frame.pc == opc,
            opc < old(self)@.stack.last().method.code.len(),
        ensures
            machine_wf(final(self)@),
            (final(self)@, r@) == pool_instruction(old(self)@, with_pc(old(self)@.stack.last().frame, opc + 1), op, opc as int),
    {
        let n = self.stack.len();
        proof {
            lemma_views_drop_last(self.stack@);
        }
        let ghost m = self@;
        let width: usize = if op == 0x12 {
            1
        } else {
            2
        };
        let idx: u16 = {
            let a = &self.stack[n - 1];
            let code = &a.method.code;
            if code.len() - (opc + 1) < width {
                return Outcome::Fault(owned("the instruction cannot run on this frame"));
            }
            if op == 0x12 {
                code[opc + 1] as u16
            } else {
                let mut p = opc + 1;
                read_u16(code.as_slice(), &mut p)
            }
        };
        let cls = self.stack[n - 1].class;
        assert(m.stack.last().class == cls);
        if op == 0xb4 || op == 0xb5 {
            let (name, desc) = match fieldref_member(&self.classes[cls].constant_pool, idx) {
                Some(p) => p,
                None => {
                    proof {
                        reveal_strlit("");
                    }
                    (String::new(), String::new())
                },
            };
            let ready = object_operand_ready(&self.stack[n - 1].frame, &self.heap, if op == 0xb4 { 0 } else { 1 });
            if !ready {
                return Outcome::Fault(owned("the instruction cannot run on this frame"));
            }
            let mut a = self.take_top(opc + 1 + width);
            let res = if op == 0xb4 {
                execute_getfield(&mut a.frame, &self.heap, name.as_str(), desc.as_str(), a.method.class_name.as_str())
            } else {
                execute_putfield(&mut a.frame, &mut self.heap, name.as_str(), a.method.class_name.as_str())
            };
            self.put_top(a);
            match res {
                Ok(_) => Outcome::Continue,
                Err(e) => self.throw_exec(e, opc as i128),
            }
        } else if op == 0xbd {
            let elem = match self.classes[cls].constant_pool.class_name_entry(idx) {
                Some(e) => owned(e),
                None => {
                    return Outcome::Fault(owned("the instruction cannot run on this frame"));
                },
            };
            let ok = {
                let st = &self.stack[n - 1].frame.stack;
                st.len() >= 1 && match st[st.len() - 1] {
                    Value::Int(_) => true,
                    _ => false,
                }
            };
            if !(ok && (self.heap.objects.len() as u64) < 0xffff_ffff_ffff_ffff) {
                return Outcome::Fault(owned("the instruction cannot run on this frame"));
            }
            let mut a = self.take_top(opc + 3);
            let res = execute_anewarray(&mut a.frame, &mut self.heap, elem.as_str());
            self.put_top(a);
            match res {
                Ok(_) => Outcome::Continue,
                Err(e) => self.throw_exec(e, opc as i128),
            }
        } else {
            let pool = &self.classes[cls].constant_pool;
            let readable = match pool.entry(idx) {
                None => false,
                Some(crate::class_file::ConstantPoolEntry::String { string_index }) => pool.entry(*string_index).is_some(),
                Some(_) => true,
            };
            if !(readable && (self.heap.objects.len() as u64) < 0xffff_ffff_ffff_ffff) {
                return Outcome::Fault(owned("the instruction cannot run on this frame"));
            }
            if let Some(crate::class_file::ConstantPoolEntry::Class { .. }) = pool.entry(idx) {
                return Outcome::Delegated(op);
            }
            let mut a = self.take_top(opc + 1 + width);
            let st = execute_ldc(&mut a.frame, &mut self.heap, &mut self.strings, &self.classes[cls].constant_pool, idx);
            self.put_top(a);
            match st {
                Step::Continue => Outcome::Continue,
                _ => Outcome::Delegated(op),
            }
        }
    }
}

pub(crate) fn dotted_string(s: &str) -> (r: String)
    ensures
        r@ == dotted(s@),
{
    let cs = chars_of(s);
    let mut r = String::new();
    let mut i: usize = 0;
    proof {
        reveal_strlit("");
    }
    while i < cs.len()
        invariant
            i <= cs@.len(),
            cs@ == s@,
            r@ =~= dotted(cs@.take(i as int)),
        decreases cs@.len() - i,
    {
        let ch = if cs[i] == '/' {
            '.'
        } else {
            cs[i]
        };
        push_char(&mut r, ch);
        assert(dotted(cs@.take(i + 1)) =~= dotted(cs@.take(i as int)).push(ch));
        i = i + 1;
    }
    assert(cs@.take(i as int) =~= cs@);
    r
}

pub(crate) fn instance_of_exec(classes: &Vec<ClassFile>, rc: &str, tc: &str) -> (r: bool)
    ensures
        r == instance_of(classes@, rc@, tc@),
{
    if str_eq(tc, "java/lang/Object") {
        return true;
    }
    let rcs = chars_of(rc);
    if rcs.len() > 0 && rcs[0] == '[' && (str_eq(tc, "java/lang/Cloneable") || str_eq(tc, "java/io/Serializable")) {
        return true;
    }
    descends_exec(classes, rc, tc, classes.len())
}

fn cast_message(cn: &str, target: &str) -> (r: String)
    ensures
        r@ == cast_text(cn@, target@),
{
    let mut r = owned("ClassCastException: ");
    r.append(dotted_string(cn).as_str());
    r.append(" cannot be cast to ");
    r.append(dotted_string(target).as_str());
    r
}

#[verifier::rlimit(40)]
#[verifier::spinoff_prover]
fn exception_ref_message(heap: &Heap, r: usize) -> (t: String)
    requires
        r < heap@.len(),
    ensures
        t@ == exception_ref_text(heap@, r as int),
{
    let obj = &heap.objects[r];
    assert(obj@ == heap@[r as int]);
    let mut t = owned("Exception: ");
    t.append(obj.class_name.as_str());
    let ghost fs = field_views(obj.fields@);
    let ghost head = t@;
    assert(head == "Exception: "@ + heap@[r as int].class_name);
    assert(fs == heap@[r as int].fields);
    match find_field(&obj.fields, "detailMessage") {
        Some(j) => {
            assert(fs[j as int] == (obj.fields@[j as int].name@, obj.fields@[j as int].value));
            assert(fs[first_field(fs, "detailMessage"@)].1 == obj.fields@[j as int].value);
            match obj.fields[j].value {
                Value::Ref(Some(k)) => {
                    if k < heap.objects.len() as u64 {
                        let o2 = &heap.objects[k as usize];
                        assert(o2@ == heap@[k as int]);
                        match &o2.payload {
                            Payload::JavaString(msg) => {
                                assert(heap@[k as int].payload == PayloadV::JavaString(msg@));
                                if chars_of(msg.as_str()).len() > 0 {
                                    assert((k as int) < heap@.len());
                                    t.append(": ");
                                    t.append(msg.as_str());
                                    assert(detail_suffix(heap@, fs) == ": "@ + msg@);
                                    assert(t@ =~= head + (": "@ + msg@));
                                } else {
                                    assert(detail_suffix(heap@, fs) =~= Seq::<char>::empty());
                                    assert(t@ =~= head + Seq::<char>::empty());
                                }
                            },
                            _ => {
                                assert(detail_suffix(heap@, fs) =~= Seq::<char>::empty());
                                assert(t@ =~= head + Seq::<char>::empty());
                            },
                        }
                    } else {
                        assert(detail_suffix(heap@, fs) =~= Seq::<char>::empty());
                        assert(t@ =~= head + Seq::<char>::empty());
                    }
                },
                _ => {
                    assert(detail_suffix(heap@, fs) =~= Seq::<char>::empty());
                    assert(t@ =~= head + Seq::<char>::empty());
                },
            }
        },
        None => {
            assert(detail_suffix(heap@, fs) =~= Seq::<char>::empty());
            assert(t@ =~= head + Seq::<char>::empty());
        },
    }
    t
}

impl Machine {
    /// `getstatic` or `putstatic` of `c.nm` (descriptor `d`) at `opc`.
    fn static_exec(&mut self, op: u8, opc: usize, c: String, nm: String, d: String) -> (r: Outcome)
        requires
            machine_wf(old(self)@),
            old(self)@.stack.len() > 0,
            old(self)@.stack.last().frame.pc == opc,
            opc + 3 <= usize::MAX,
        ensures
            machine_wf(final(self)@),
            (final(self)@, r@) == static_access(old(self)@, with_pc(old(self)@.stack.last().frame, opc + 3), op, c@, nm@, d@),
    {
        let n = self.stack.len();
        proof {
            lemma_views_drop_last(self.stack@);
        }
        let ghost m = self@;
        match class_index(&self.classes, c.as_str()) {
            Some(k) => {
                if !self.initialized[k] {
                    return self.init_class_exec(k);
                }
            },
            None => {},
        }
        let mut key = owned(c.as_str());
        key.append(".");
        key.append(nm.as_str());
        if op == 0xb2 {
            let v = match find_field(&self.statics, key.as_str()) {
                Some(j) => self.statics[j].value,
                None => default_for(d.as_str()),
            };
            let mut a = self.take_top(opc + 3);
            a.frame.stack.push(v);
            self.put_top(a);
            Outcome::Continue
        } else {
            if self.stack[n - 1].frame.stack.len() == 0 {
                return Outcome::Fault(owned("the instruction cannot run on this frame"));
            }
            let mut a = self.take_top(opc + 3);
            let v = match a.frame.stack.pop() {
                Some(v) => v,
                None => vstd::pervasive::unreached(),
            };
            put_field(&mut self.statics, key.as_str(), v);
            self.put_top(a);
            Outcome::Continue
        }
    }

    /// `new` of class `c` at `opc`.
    fn new_exec(&mut self, opc: usize, c: String) -> (r: Outcome)
        requires
            machine_wf(old(self)@),
            old(self)@.stack.len() > 0,
            old(self)@.stack.last().frame.pc == opc,
            opc + 3 <= usize::MAX,
        ensures
            machine_wf(final(self)@),
            (final(self)@, r@) == new_step(old(self)@, with_pc(old(self)@.stack.last().frame, opc + 3), c@),
    {
        proof {
            lemma_views_drop_last(self.stack@);
        }
        let ghost m = self@;
        let pos = class_index(&self.classes, c.as_str());
        match pos {
            Some(k) => {
                if !self.initialized[k] {
                    return self.init_class_exec(k);
                }
            },
            None => {},
        }
        if self.heap.objects.len() as u64 >= 0xffff_ffff_ffff_ffff {
            return Outcome::Fault(owned("the instruction cannot run on this frame"));
        }
        let list = pos.is_none() && (str_eq(c.as_str(), "java/util/ArrayList") || str_eq(c.as_str(), "java/util/LinkedList"));
        let payload = if list {
            let empty: Vec<Value> = Vec::new();
            assert(empty@ =~= Seq::<Value>::empty());
            Payload::Array(empty)
        } else {
            Payload::Plain
        };
        let fields: Vec<Field> = Vec::new();
        assert(field_views(fields@) =~= Seq::<(Seq<char>, Value)>::empty());
        let obj = HeapObject { class_name: c, payload, fields };
        assert(obj@ == new_object(m.classes, obj.class_name@));
        let v = self.heap.allocate(obj);
        let mut a = self.take_top(opc + 3);
        a.frame.stack.push(v);
        self.put_top(a);
        Outcome::Continue
    }

    /// `checkcast` or `instanceof` against class `c` at `opc`.
    fn type_check_exec(&mut self, op: u8, opc: usize, c: String) -> (r: Outcome)
        requires
            machine_wf(old(self)@),
            old(self)@.stack.len() > 0,
            old(self)@.stack.last().frame.pc == opc,
            opc + 3 <= usize::MAX,
        ensures
            machine_wf(final(self)@),
            (final(self)@, r@) == type_check(old(self)@, with_pc(old(self)@.stack.last().frame, opc + 3), op, c@, opc as int),
    {
        let n = self.stack.len();
        proof {
            lemma_views_drop_last(self.stack@);
        }
        let ghost m = self@;
        let v = {
            let st = &self.stack[n - 1].frame.stack;
            if st.len() == 0 {
                return Outcome::Fault(owned("the instruction cannot run on this frame"));
            }
            st[st.len() - 1]
        };
        match v {
            Value::Ref(None) => {
                let mut a = self.take_top(opc + 3);
                if op != 0xc0 {
                    a.frame.stack.pop();
                    a.frame.stack.push(Value::Int(0));
                }
                self.put_top(a);
                Outcome::Continue
            },
            Value::Ref(Some(r)) => {
                if r >= self.heap.objects.len() as u64 {
                    return Outcome::Fault(owned("the instruction cannot run on this frame"));
                }
                assert(self.heap.objects@[r as int]@ == m.heap[r as int]);
                let cn = owned(self.heap.objects[r as usize].class_name.as_str());
                let ok = instance_of_exec(&self.classes, cn.as_str(), c.as_str());
                if op == 0xc0 {
                    let a = self.take_top(opc + 3);
                    self.put_top(a);
                    if ok {
                        Outcome::Continue
                    } else {
                        let msg = cast_message(cn.as_str(), c.as_str());
                        self.throw_exec(msg, opc as i128)
                    }
                } else {
                    let mut a = self.take_top(opc + 3);
                    a.frame.stack.pop();
                    a.frame.stack.push(Value::Int(if ok { 1 } else { 0 }));
                    self.put_top(a);
                    Outcome::Continue
                }
            },
            _ => Outcome::Fault(owned("the instruction cannot run on this frame")),
        }
    }

    /// `athrow` at `opc`.
    fn athrow_exec(&mut self, opc: usize) -> (r: Outcome)
        requires
            machine_wf(old(self)@),
            old(self)@.stack.len() > 0,
            old(self)@.stack.last().frame.pc == opc,
            opc + 1 <= usize::MAX,
        ensures
            machine_wf(final(self)@),
            (final(self)@, r@) == athrow_step(old(self)@, with_pc(old(self)@.stack.last().frame, opc + 1), opc as int),
    {
        let n = self.stack.len();
        proof {
            lemma_views_drop_last(self.stack@);
        }
        let ghost m = self@;
        let v = {
            let st = &self.stack[n - 1].frame.stack;
            if st.len() == 0 {
                return Outcome::Fault(owned("the instruction cannot run on this frame"));
            }
            st[st.len() - 1]
        };
        let mut at = owned(" at ");
        at.append(self.stack[n - 1].method.class_name.as_str());
        at.append(":pc");
        push_nat_text(&mut at, opc as u64);
        let mut msg = match v {
            Value::Ref(Some(r)) => {
                if r >= self.heap.objects.len() as u64 {
                    return Outcome::Fault(owned("the instruction cannot run on this frame"));
                }
                exception_ref_message(&self.heap, r as usize)
            },
            Value::Ref(None) => owned("Exception: java/lang/NullPointerException"),
            _ => owned("Exception: java/lang/RuntimeException"),
        };
        msg.append(at.as_str());
        let mut a = self.take_top(opc + 1);
        a.frame.stack.pop();
        self.put_top(a);
        if let Value::Ref(Some(_)) = v {
            self.thrown = Some(v);
        }
        self.throw_exec(msg, opc as i128)
    }

    /// `getstatic`, `putstatic`, `new`, `checkcast`, `instanceof` and
    /// `athrow` at `opc`.
    fn object_exec(&mut self, op: u8, opc: usize) -> (r: Outcome)
        requires
            machine_wf(old(self)@),
            old(self)@.stack.len() > 0,
            is_object_op(op),
            old(self)@.stack.last().frame.pc == opc,
            opc < old(self)@.stack.last().method.code.len(),
        ensures
            machine_wf(final(self)@),
            (final(self)@, r@) == object_instruction(old(self)@, with_pc(old(self)@.stack.last().frame, opc + 1), op, opc as int),
    {
        let n = self.stack.len();
        proof {
            lemma_views_drop_last(self.stack@);
        }
        let ghost m = self@;
        if op == 0xbf {
            let clen = self.stack[n - 1].method.code.len();
            assert(opc + 1 <= clen);
            return self.athrow_exec(opc);
        }
        let idx: u16 = {
            let a = &self.stack[n - 1];
            let code = &a.method.code;
            if code.len() - (opc + 1) < 2 {
                return Outcome::Fault(owned("the instruction cannot run on this frame"));
            }
            let mut p = opc + 1;
            read_u16(code.as_slice(), &mut p)
        };
        let cls = self.stack[n - 1].class;
        assert(m.stack.last().class == cls);
        if op == 0xb2 || op == 0xb3 {
            let c = fieldref_class(&self.classes[cls].constant_pool, idx);
            let nd = fieldref_member(&self.classes[cls].constant_pool, idx);
            match (c, nd) {
                (Some(c), Some((nm, d))) => self.static_exec(op, opc, c, nm, d),
                _ => Outcome::Fault(owned("the instruction cannot run on this frame")),
            }
        } else {
            let c = match self.classes[cls].constant_pool.class_name_entry(idx) {
                Some(e) => owned(e),
                None => {
                    return Outcome::Fault(owned("the instruction cannot run on this frame"));
                },
            };
            if op == 0xbb {
                self.new_exec(opc, c)
            } else {
                self.type_check_exec(op, opc, c)
            }
        }
    }
}

fn peek_args(stack: &Vec<Value>, k: usize) -> (r: Vec<Value>)
    ensures
        r@ == args_of(stack@, k as int),
{
    let n = stack.len();
    let mut r: Vec<Value> = Vec::new();
    if k <= n {
        let mut i = n - k;
        while i < n
            invariant
                n == stack@.len(),
                k <= n,
                n - k <= i <= n,
                r@ =~= stack@.subrange(n - k, i as int),
            decreases n - i,
        {
            r.push(stack[i]);
            i = i + 1;
        }
    } else {
        let mut j: usize = 0;
        while j < k - n
            invariant
                n == stack@.len(),
                k > n,
                j <= k - n,
                r@ =~= Seq::new(j as nat, |x: int| Value::Void),
            decreases k - n - j,
        {
            r.push(Value::Void);
            j = j + 1;
        }
        let mut i: usize = 0;
        while i < n
            invariant
                n == stack@.len(),
                k > n,
                i <= n,
                r@ =~= Seq::new((k - n) as nat, |x: int| Value::Void) + stack@.subrange(0, i as int),
            decreases n - i,
        {
            r.push(stack[i]);
            i = i + 1;
        }
        assert(stack@.subrange(0, n as int) =~= stack@);
    }
    r
}

impl Machine {
    /// `invokedynamic` at `opc`, as `indy_instruction` says.
    fn indy_exec(&mut self, opc: usize) -> (r: Outcome)
        requires
            machine_wf(old(self)@),
            old(self)@.stack.len() > 0,
            old(self)@.stack.last().frame.pc == opc,
            opc < old(self)@.stack.last().method.code.len(),
        ensures
            machine_wf(final(self)@),
            (final(self)@, r@) == indy_instruction(old(self)@, with_pc(old(self)@.stack.last().frame, opc + 1), opc as int),
    {
        let n = self.stack.len();
        proof {
            lemma_views_drop_last(self.stack@);
        }
        let ghost m = self@;
        let idx: u16 = {
            let a = &self.stack[n - 1];
            let code = &a.method.code;
            if code.len() - (opc + 1) < 4 {
                return Outcome::Fault(owned("the instruction cannot run on this frame"));
            }
            let mut p = opc + 1;
            read_u16(code.as_slice(), &mut p)
        };
        let cls = self.stack[n - 1].class;
        assert(m.stack.last().class == cls);
        let ready = indy_ready(&self.classes[cls].constant_pool, &self.stack[n - 1].method.bootstrap_methods, idx);
        if !ready {
            return Outcome::Fault(owned("the instruction cannot run on this frame"));
        }
        let site = match resolve_invokedynamic(&self.classes[cls].constant_pool, &self.stack[n - 1].method.bootstrap_methods, idx) {
            Ok(s) => s,
            Err(_) => {
                return Outcome::Delegated(0xba);
            },
        };
        if !str_eq(site.bootstrap_class.as_str(), "java/lang/invoke/StringConcatFactory") {
            return Outcome::Delegated(0xba);
        }
        let kinds = arg_type_chars(site.descriptor.as_str());
        if kinds.len() > usize::MAX / 2 {
            return Outcome::Fault(owned("the instruction cannot run on this frame"));
        }
        let k = kinds.len();
        let b = site.bootstrap_index as usize;
        let text = {
            let bms = &self.stack[n - 1].method.bootstrap_methods;
            assert(m.stack.last().method.bootstrap_methods[b as int] == bms@[b as int]@);
            let bargs = &bms[b].bootstrap_arguments;
            let pool = &self.classes[cls].constant_pool;
            let recipe = match concat_recipe(pool, bargs, k) {
                Some(r) => r,
                None => {
                    return Outcome::Fault(owned("the instruction cannot run on this frame"));
                },
            };
            let consts = match concat_constant_texts(pool, bargs) {
                Some(c) => c,
                None => {
                    return Outcome::Delegated(0xba);
                },
            };
            let args = peek_args(&self.stack[n - 1].frame.stack, k);
            let units = match string_concat(&self.heap, recipe.as_str(), &kinds, &args, &consts) {
                Some(u) => u,
                None => {
                    return Outcome::Delegated(0xba);
                },
            };
            match text_of_units(&units) {
                Some(t) => t,
                None => {
                    return Outcome::Delegated(0xba);
                },
            }
        };
        if self.heap.objects.len() as u64 >= 0xffff_ffff_ffff_ffff {
            return Outcome::Fault(owned("the instruction cannot run on this frame"));
        }
        let fields: Vec<Field> = Vec::new();
        assert(field_views(fields@) =~= Seq::<(Seq<char>, Value)>::empty());
        let obj = HeapObject { class_name: owned("java/lang/String"), payload: Payload::JavaString(text), fields };
        let v = self.heap.allocate(obj);
        let mut a = self.take_top(opc + 5);
        pop_args(&mut a.frame, k);
        a.frame.stack.push(v);
        self.put_top(a);
        Outcome::Continue
    }
}

impl Machine {
    /// `monitorenter` or `monitorexit` at `opc`, as `monitor_instruction`
    /// says.
    fn monitor_exec(&mut self, op: u8, opc: usize) -> (r: Outcome)
        requires
            machine_wf(old(self)@),
            old(self)@.stack.len() > 0,
            op == 0xc2 || op == 0xc3,
            old(self)@.stack.last().frame.pc == opc,
            opc < old(self)@.stack.last().method.code.len(),
        ensures
            machine_wf(final(self)@),
            (final(self)@, r@) == monitor_instruction(old(self)@, with_pc(old(self)@.stack.last().frame, opc + 1), op, opc as int),
    {
        let n = self.stack.len();
        proof {
            lemma_views_drop_last(self.stack@);
        }
        let ghost m = self@;
        proof {
            reveal(sync_ok);
        }
        let clen = self.stack[n - 1].method.code.len();
        assert(opc + 1 <= clen);
        let v = {
            let st = &self.stack[n - 1].frame.stack;
            if st.len() > 0 {
                Some(st[st.len() - 1])
            } else {
                None
            }
        };
        if let Some(Value::Ref(Some(k))) = v {
            if k > usize::MAX as u64 {
                return Outcome::Fault(owned("the instruction cannot run on this frame"));
            }
            if op == 0xc2 {
                let cur = self.threads.current_thread().id;
                let (blocks, full) = match self.monitors.monitor(k as usize) {
                    Some(mon) => (
                        match mon.owner {
                            Some(o) => o != cur,
                            None => false,
                        },
                        match mon.owner {
                            Some(o) => o == cur && mon.count >= usize::MAX,
                            None => false,
                        },
                    ),
                    None => (false, false),
                };
                if blocks {
                    return Outcome::Delegated(op);
                }
                if full {
                    return Outcome::Fault(owned("the instruction cannot run on this frame"));
                }
            }
        }
        let mut a = self.take_top(opc + 1);
        let res = execute_monitor_opcode(&mut a.frame, &mut self.monitors, &mut self.threads, op);
        self.put_top(a);
        match res {
            Ok(_) => Outcome::Continue,
            Err(e) => self.throw_exec(e, opc as i128),
        }
    }
}

impl Machine {
    /// Any other instruction at `opc`, run on the frame and the heap.
    fn plain_exec(&mut self, op: u8, opc: usize) -> (r: Outcome)
        requires
            machine_wf(old(self)@),
            old(self)@.stack.len() > 0,
            old(self)@.stack.last().frame.pc == opc,
            opc < old(self)@.stack.last().method.code.len(),
            opc < usize::MAX,
        ensures
            machine_wf(final(self)@),
            (final(self)@, r@) == plain_instruction(old(self)@, with_pc(old(self)@.stack.last().frame, opc + 1), op, opc as int),
    {
        let ghost m = self@;
        proof {
            lemma_views_drop_last(self.stack@);
        }
        let mut a = self.take_top(opc + 1);
        if !heap_step_ready(&a.frame, &self.heap, a.method.code.as_slice(), op) {
            a.frame.pc = opc;
            self.put_top(a);
            assert(self@.stack =~= m.stack);
            return Outcome::Fault(owned("the instruction cannot run on this frame"));
        }
        let res = execute_heap_opcode(&mut a.frame, &mut self.heap, a.method.code.as_slice(), op);
        match res {
            Ok(Step::Continue) => {
                self.put_top(a);
                Outcome::Continue
            },
            Ok(Step::Return(v)) => {
                self.put_top(a);
                self.return_exec(v)
            },
            Ok(Step::Delegate(d)) => {
                a.frame.pc = opc;
                self.put_top(a);
                assert(self@.stack =~= m.stack);
                Outcome::Delegated(d)
            },
            Err(e) => {
                self.put_top(a);
                self.throw_exec(e, opc as i128)
            },
        }
    }

    /// One step, as `machine_step` says.
    pub fn step(&mut self) -> (r: Outcome)
        requires
            machine_wf(old(self)@),
        ensures
            machine_wf(final(self)@),
            (final(self)@, r@) == machine_step(old(self)@),
    {
        proof {
            reveal(machine_step);
        }
        let n = self.stack.len();
        if n == 0 {
            return Outcome::Fault(owned("the instruction cannot run on this frame"));
        }
        proof {
            lemma_views_drop_last(self.stack@);
        }
        let ghost m = self@;
        let pending = match &self.pending {
            Some(e) => Some(e.clone()),
            None => None,
        };
        if let Some(e) = pending {
            let pc = self.stack[n - 1].frame.pc as i128 - 3;
            self.pending = None;
            return self.throw_exec(e, pc);
        }
        let pc = self.stack[n - 1].frame.pc;
        if pc >= self.stack[n - 1].method.code.len() {
            let mut msg = owned("Execution fell off end of method in ");
            msg.append(self.stack[n - 1].method.class_name.as_str());
            return self.unwind_exec(msg);
        }
        let op = self.stack[n - 1].method.code[pc];
        if op == 0xb6 || op == 0xb7 || op == 0xb8 || op == 0xb9 {
            self.invoke_exec(op, pc)
        } else if op == 0xb4 || op == 0xb5 || op == 0xbd || op == 0x12 || op == 0x13 || op == 0x14 {
            self.pool_exec(op, pc)
        } else if op == 0xb2 || op == 0xb3 || op == 0xbb || op == 0xbf || op == 0xc0 || op == 0xc1 {
            self.object_exec(op, pc)
        } else if op == 0xba {
            self.indy_exec(pc)
        } else if op == 0xc2 || op == 0xc3 {
            self.monitor_exec(op, pc)
        } else {
            self.plain_exec(op, pc)
        }
    }

    /// At most `budget` steps, as `run_steps` says: it stops at the first
    /// step that does not end in `Continue`, and gives `Continue` when the
    /// budget runs out.
    pub fn run_slice(&mut self, budget: usize) -> (r: Outcome)
        requires
            machine_wf(old(self)@),
        ensures
            machine_wf(final(self)@),
            (final(self)@, r@) == run_steps(old(self)@, budget as nat),
    {
        let mut i: usize = 0;
        while i < budget
            invariant
                i <= budget,
                machine_wf(self@),
                run_steps(old(self)@, budget as nat) == run_steps(self@, (budget - i) as nat),
            decreases budget - i,
        {
            let o = self.step();
            if let Outcome::Continue = o {
            } else {
                return o;
            }
            i = i + 1;
        }
        Outcome::Continue
    }
}

/// The machine with the method `name`/`desc`, looked up from the class at
/// `k` and its superclasses, started with these arguments of these kinds;
/// `None` when it is not there in bytecode.
pub open spec fn begun(m: MachineV, k: int, name: Seq<char>, desc: Seq<char>, args: Seq<Value>, kinds: Seq<char>) -> Option<
    MachineV,
> {
    match lookup_method(m.classes, k, name, desc, m.classes.len() as nat) {
        LookupV::Found(j, info) => if info.has_code && kinds.len() <= usize::MAX / 2 {
            Some(
                MachineV {
                    stack: m.stack.push(ActivationV { frame: entry_frame(info, kinds, args), class: j, method: info }),
                    ..m
                },
            )
        } else {
            None
        },
        _ => None,
    }
}

/// A call run from outside the machine: the method started on `m` from the
/// class at `k` (for a static one, with its class initialized first when
/// it was not), then at most `budget` steps; `None` when the method is not
/// there in bytecode.
pub open spec fn outside_call(
    m: MachineV,
    k: int,
    name: Seq<char>,
    desc: Seq<char>,
    args: Seq<Value>,
    kinds: Seq<char>,
    init: bool,
    budget: nat,
) -> Option<(MachineV, OutcomeV)> {
    match begun(m, k, name, desc, args, kinds) {
        None => None,
        Some(m1) => {
            let m2 = if init && !m.initialized[k] {
                init_class(m1, k).0
            } else {
                m1
            };
            Some(run_steps(m2, budget))
        },
    }
}

impl Machine {
    fn begin_call(&mut self, k: usize, name: &str, desc: &str, args: Vec<Value>, kinds: &Vec<char>) -> (r: bool)
        requires
            machine_wf(old(self)@),
            k < old(self)@.classes.len(),
        ensures
            machine_wf(final(self)@),
            match begun(old(self)@, k as int, name@, desc@, args@, kinds@) {
                Some(m2) => r && final(self)@ == m2,
                None => !r && final(self)@ == old(self)@,
            },
    {
        match lookup_from(&self.classes, k, name, desc, self.classes.len()) {
            Lookup::Found(j, info) => {
                if !info.has_code || kinds.len() > usize::MAX / 2 {
                    return false;
                }
                let toks = kind_token_strings(kinds);
                let frame = new_call_frame(info.max_locals, &toks, args);
                let a = Activation { frame, class: j, method: info };
                self.put_top(a);
                true
            },
            _ => false,
        }
    }

    /// Run `name`/`desc` of the class it is looked up from, with these
    /// arguments of these kinds, as `outside_call` says.
    fn run_call(
        &mut self,
        k: usize,
        name: &str,
        desc: &str,
        args: Vec<Value>,
        kinds: &Vec<char>,
        init: bool,
        budget: usize,
    ) -> (r: Option<Outcome>)
        requires
            machine_wf(old(self)@),
            k < old(self)@.classes.len(),
        ensures
            machine_wf(final(self)@),
            match outside_call(old(self)@, k as int, name@, desc@, args@, kinds@, init, budget as nat) {
                Some((m2, o)) => r matches Some(x) && x@ == o && final(self)@ == m2,
                None => r is None && final(self)@ == old(self)@,
            },
    {
        if !self.begin_call(k, name, desc, args, kinds) {
            return None;
        }
        if init && !self.initialized[k] {
            self.init_class_exec(k);
        }
        Some(self.run_slice(budget))
    }

    /// Run the static method `name`/`desc` of the class `class_name` (or
    /// one of its superclasses) with these arguments, for at most `budget`
    /// steps, its class initialized first when it was not. `None`, with
    /// nothing changed, when the class or the method is not there in
    /// bytecode.
    pub fn invoke_static(&mut self, class_name: &str, name: &str, desc: &str, args: Vec<Value>, budget: usize) -> (r: Option<
        Outcome,
    >)
        requires
            machine_wf(old(self)@),
        ensures
            machine_wf(final(self)@),
            match class_position(old(self)@.classes, class_name@) {
                Some(k) => match outside_call(old(self)@, k, name@, desc@, args@, arg_kinds(desc@), true, budget as nat) {
                    Some((m2, o)) => r matches Some(x) && x@ == o && final(self)@ == m2,
                    None => r is None && final(self)@ == old(self)@,
                },
                None => r is None && final(self)@ == old(self)@,
            },
    {
        match class_index(&self.classes, class_name) {
            Some(k) => {
                let kinds = arg_type_chars(desc);
                self.run_call(k, name, desc, args, &kinds, true, budget)
            },
            None => None,
        }
    }

    /// Run the instance method `name`/`desc` of the class `class_name` (or
    /// one of its superclasses), not chosen by the receiver's class, on
    /// `receiver` with these further arguments, for at most `budget` steps.
    /// `None`, with nothing changed, when the class or the method is not
    /// there in bytecode.
    pub fn invoke_special(
        &mut self,
        class_name: &str,
        receiver: Value,
        name: &str,
        desc: &str,
        args: Vec<Value>,
        budget: usize,
    ) -> (r: Option<Outcome>)
        requires
            machine_wf(old(self)@),
        ensures
            machine_wf(final(self)@),
            match class_position(old(self)@.classes, class_name@) {
                Some(k) => match outside_call(
                    old(self)@,
                    k,
                    name@,
                    desc@,
                    seq![receiver] + args@,
                    seq!['L'] + arg_kinds(desc@),
                    false,
                    budget as nat,
                ) {
                    Some((m2, o)) => r matches Some(x) && x@ == o && final(self)@ == m2,
                    None => r is None && final(self)@ == old(self)@,
                },
                None => r is None && final(self)@ == old(self)@,
            },
    {
        match class_index(&self.classes, class_name) {
            Some(k) => {
                let kinds = with_receiver(&arg_type_chars(desc));
                let mut all: Vec<Value> = vec![receiver];
                let mut rest = args;
                let ghost tail = rest@;
                all.append(&mut rest);
                assert(all@ =~= seq![receiver] + tail);
                self.run_call(k, name, desc, all, &kinds, false, budget)
            },
            None => None,
        }
    }

    /// Run the instance method `name`/`desc` chosen by the class of the
    /// object `receiver` refers to (looked up from that class and its
    /// superclasses) with these further arguments, for at most `budget`
    /// steps. `None`, with nothing changed, when the receiver is no object
    /// of the heap, or its class or the method is not there in bytecode.
    pub fn invoke_virtual(&mut self, receiver: Value, name: &str, desc: &str, args: Vec<Value>, budget: usize) -> (r: Option<
        Outcome,
    >)
        requires
            machine_wf(old(self)@),
        ensures
            machine_wf(final(self)@),
            match receiver {
                Value::Ref(Some(o)) => if o < old(self)@.heap.len() {
                    match class_position(old(self)@.classes, old(self)@.heap[o as int].class_name) {
                        Some(k) => match outside_call(
                            old(self)@,
                            k,
                            name@,
                            desc@,
                            seq![receiver] + args@,
                            seq!['L'] + arg_kinds(desc@),
                            false,
                            budget as nat,
                        ) {
                            Some((m2, out)) => r matches Some(x) && x@ == out && final(self)@ == m2,
                            None => r is None && final(self)@ == old(self)@,
                        },
                        None => r is None && final(self)@ == old(self)@,
                    }
                } else {
                    r is None && final(self)@ == old(self)@
                },
                _ => r is None && final(self)@ == old(self)@,
            },
    {
        let ghost m = self@;
        let o = match receiver {
            Value::Ref(Some(o)) => o,
            _ => {
                return None;
            },
        };
        if o >= self.heap.objects.len() as u64 {
            return None;
        }
        assert(self.heap.objects@[o as int]@ == m.heap[o as int]);
        let cn = owned(self.heap.objects[o as usize].class_name.as_str());
        match class_index(&self.classes, cn.as_str()) {
            Some(k) => {
                let kinds = with_receiver(&arg_type_chars(desc));
                let mut all: Vec<Value> = vec![receiver];
                let mut rest = args;
                let ghost tail = rest@;
                all.append(&mut rest);
                assert(all@ =~= seq![receiver] + tail);
                self.run_call(k, name, desc, all, &kinds, false, budget)
            },
            None => None,
        }
    }
}

impl Machine {
    /// Start the static method `name`/`desc` looked up from the class at
    /// `class` (and its superclasses) with these arguments, when it is
    /// there in bytecode; `false`, with nothing changed, otherwise.
    pub fn call_method(&mut self, class: usize, name: &str, desc: &str, args: Vec<Value>) -> (r: bool)
        requires
            machine_wf(old(self)@),
            class < old(self)@.classes.len(),
        ensures
            machine_wf(final(self)@),
            match lookup_method(old(self)@.classes, class as int, name@, desc@, old(self)@.classes.len() as nat) {
                LookupV::Found(j, info) => if info.has_code && arg_kinds(desc@).len() <= usize::MAX / 2 {
                    &&& r
                    &&& final(self)@ == (MachineV {
                        stack: old(self)@.stack.push(
                            ActivationV { frame: entry_frame(info, arg_kinds(desc@), args@), class: j, method: info },
                        ),
                        ..old(self)@
                    })
                } else {
                    !r && final(self)@ == old(self)@
                },
                _ => !r && final(self)@ == old(self)@,
            },
    {
        match lookup_from(&self.classes, class, name, desc, self.classes.len()) {
            Lookup::Found(j, info) => {
                let kinds = arg_type_chars(desc);
                if !info.has_code || kinds.len() > usize::MAX / 2 {
                    return false;
                }
                let toks = kind_token_strings(&kinds);
                let frame = new_call_frame(info.max_locals, &toks, args);
                let a = Activation { frame, class: j, method: info };
                self.put_top(a);
                true
            },
            _ => false,
        }
    }
}

// ---------------------------------------------------------------------------
// Laws
// ---------------------------------------------------------------------------

/// What `putstatic` writes to a static field of an initialized class (or
/// one the machine does not hold) is what `getstatic` of that field reads
/// next, whatever descriptor it is read with.
pub proof fn law_putstatic_then_getstatic(m: MachineV, g: FrameV, g2: FrameV, c: Seq<char>, n: Seq<char>, d: Seq<char>, d2: Seq<char>)
    requires
        machine_wf(m),
        m.stack.len() > 0,
        g.stack.len() > 0,
        class_position(m.classes, c) matches Some(k) ==> m.initialized[k],
    ensures
        ({
            let (m2, o) = static_access(m, g, 0xb3, c, n, d);
            &&& o is Continue
            &&& m2.initialized == m.initialized
            &&& static_access(m2, g2, 0xb2, c, n, d2) == (
                with_top_frame(m2, with_stack(g2, g2.stack.push(top(g, 0)))),
                OutcomeV::Continue,
            )
        }),
{
    let (m2, o) = static_access(m, g, 0xb3, c, n, d);
    crate::heap::lemma_first_field_after_put(m.statics, static_key(c, n), top(g, 0));
    assert(m2.statics == fields_after_put(m.statics, static_key(c, n), top(g, 0)));
}

/// An exception the running method has no handler for leaves it: the
/// method is taken off the stack and the exception goes on to its caller,
/// which the next step throws it in, at the call it made.
pub proof fn law_uncaught_exception_goes_to_the_caller(m: MachineV, e: Seq<char>, pc: int)
    requires
        machine_wf(m),
        m.stack.len() >= 2,
        handler_from(
            m.classes,
            m.classes[m.stack.last().class]@.constant_pool,
            m.stack.last().method.exception_table,
            pc,
            exception_class_text(e),
            0,
        ) is None,
    ensures
        ({
            let (m2, o) = throw(m, e, pc);
            &&& o is Continue
            &&& m2.stack == m.stack.drop_last()
            &&& m2.pending == Some(e)
            &&& machine_step(m2) == throw(MachineV { pending: None, ..m2 }, e, m2.stack.last().frame.pc - 3)
        }),
{
    reveal(machine_step);
}

/// A handler that catches a thrown object gets that object itself: the
/// handler's frame holds it alone on its stack, and nothing is made.
pub proof fn law_thrown_object_reaches_its_handler(m: MachineV, e: Seq<char>, pc: int, v: Value, j: int)
    requires
        machine_wf(m),
        m.stack.len() > 0,
        m.thrown == Some(v),
        m.heap.len() + 2 < u64::MAX,
        handler_from(
            m.classes,
            m.classes[m.stack.last().class]@.constant_pool,
            m.stack.last().method.exception_table,
            pc,
            exception_class_text(e),
            0,
        ) == Some(j),
    ensures
        ({
            let (m2, o) = throw(m, e, pc);
            &&& o is Continue
            &&& m2.heap == m.heap
            &&& m2.thrown is None
            &&& m2.stack.len() == m.stack.len()
            &&& m2.stack.last().frame.stack == seq![v]
            &&& m2.stack.last().frame.pc == m.stack.last().method.exception_table[j].handler_pc as int
        }),
{
}

/// A method that returns a value hands it to its caller: the caller's
/// operand stack gets it on top, and the stack of methods is one shorter.
pub proof fn law_return_hands_the_value_to_the_caller(m: MachineV, v: Value)
    requires
        machine_wf(m),
        m.stack.len() >= 2,
        !(v is Void),
    ensures
        ({
            let (m2, o) = return_to_caller(m, v);
            &&& o is Continue
            &&& m2.stack.len() == m.stack.len() - 1
            &&& m2.stack.last().frame.stack == m.stack[m.stack.len() - 2].frame.stack.push(v)
            &&& m2.stack.last().frame.pc == m.stack[m.stack.len() - 2].frame.pc
        }),
{
}

/// Being a supertype follows the superclass link at every depth: when the
/// superclass of `a` is `s` and `s` descends from `b` within `fuel`
/// levels, `a` descends from `b` within one level more.
pub proof fn law_descends_through_superclass(cs: Seq<ClassFile>, a: Seq<char>, s: Seq<char>, b: Seq<char>, fuel: nat)
    requires
        class_position(cs, a) matches Some(k) && super_class_name(cs[k]) == Some(s),
        descends(cs, s, b, fuel),
    ensures
        descends(cs, a, b, fuel + 1),
{
    assert(((fuel + 1) - 1) as nat == fuel);
}

/// More levels of fuel never lose a supertype.
pub proof fn law_descends_more_fuel(cs: Seq<ClassFile>, a: Seq<char>, b: Seq<char>, fuel: nat, more: nat)
    requires
        descends(cs, a, b, fuel),
        fuel <= more,
    ensures
        descends(cs, a, b, more),
    decreases fuel,
{
    if a != b {
        let k = class_position(cs, a)->0;
        if exists|i: int|
            0 <= i < cs[k].interfaces@.len() && (#[trigger] cp_class_name(cs[k]@.constant_pool, cs[k].interfaces@[i])
                matches Some(n) && descends(cs, n, b, (fuel - 1) as nat)) {
            let i = choose|i: int|
                0 <= i < cs[k].interfaces@.len() && (#[trigger] cp_class_name(cs[k]@.constant_pool, cs[k].interfaces@[i])
                    matches Some(n) && descends(cs, n, b, (fuel - 1) as nat));
            let n = cp_class_name(cs[k]@.constant_pool, cs[k].interfaces@[i])->0;
            law_descends_more_fuel(cs, n, b, (fuel - 1) as nat, (more - 1) as nat);
            assert(cp_class_name(cs[k]@.constant_pool, cs[k].interfaces@[i]) matches Some(n2) && descends(
                cs,
                n2,
                b,
                (more - 1) as nat,
            ));
        } else {
            let s = super_class_name(cs[k])->0;
            law_descends_more_fuel(cs, s, b, (fuel - 1) as nat, (more - 1) as nat);
        }
    }
}

/// Being a supertype is transitive: if `a` descends from `c` and `c` from
/// `b`, then `a` descends from `b`, within the levels of both together.
pub proof fn law_descends_transitive(cs: Seq<ClassFile>, a: Seq<char>, c: Seq<char>, b: Seq<char>, f1: nat, f2: nat)
    requires
        descends(cs, a, c, f1),
        descends(cs, c, b, f2),
    ensures
        descends(cs, a, b, f1 + f2),
    decreases f1,
{
    if a == c {
        law_descends_more_fuel(cs, c, b, f2, f1 + f2);
    } else if a != b {
        let k = class_position(cs, a)->0;
        assert(((f1 + f2) - 1) as nat == ((f1 - 1) as nat + f2) as nat);
        if exists|i: int|
            0 <= i < cs[k].interfaces@.len() && (#[trigger] cp_class_name(cs[k]@.constant_pool, cs[k].interfaces@[i])
                matches Some(n) && descends(cs, n, c, (f1 - 1) as nat)) {
            let i = choose|i: int|
                0 <= i < cs[k].interfaces@.len() && (#[trigger] cp_class_name(cs[k]@.constant_pool, cs[k].interfaces@[i])
                    matches Some(n) && descends(cs, n, c, (f1 - 1) as nat));
            let n = cp_class_name(cs[k]@.constant_pool, cs[k].interfaces@[i])->0;
            law_descends_transitive(cs, n, c, b, (f1 - 1) as nat, f2);
            assert(cp_class_name(cs[k]@.constant_pool, cs[k].interfaces@[i]) matches Some(n2) && descends(
                cs,
                n2,
                b,
                ((f1 + f2) - 1) as nat,
            ));
        } else {
            let s = super_class_name(cs[k])->0;
            law_descends_transitive(cs, s, c, b, (f1 - 1) as nat, f2);
        }
    }
}

/// A method the class at `k` does not declare is looked up in its loaded
/// superclass: the lookup from `k` gives what the lookup from the
/// superclass at `j` gives, so a method declared only there is found
/// there.
pub proof fn law_inherited_method_is_looked_up_in_the_superclass(
    cs: Seq<ClassFile>,
    k: int,
    j: int,
    name: Seq<char>,
    desc: Seq<char>,
    fuel: nat,
)
    requires
        0 <= k < cs.len(),
        exec_info_readable(cs[k], name, desc),
        member_position(cs[k]@.constant_pool, cs[k]@.methods, name, desc) is None,
        super_class_name(cs[k]) matches Some(s) && class_position(cs, s) == Some(j),
    ensures
        lookup_method(cs, k, name, desc, fuel + 1) == lookup_method(cs, j, name, desc, fuel),
{
    assert(((fuel + 1) - 1) as nat == fuel);
}

/// Being a supertype follows the interfaces a class names at every depth:
/// when the class `a` names the interface `n` and `n` descends from `b`
/// within `fuel` levels, `a` descends from `b` within one level more.
pub proof fn law_descends_through_interface(cs: Seq<ClassFile>, a: Seq<char>, i: int, b: Seq<char>, fuel: nat)
    requires
        class_position(cs, a) matches Some(k) && 0 <= i < cs[k].interfaces@.len() && (cp_class_name(
            cs[k]@.constant_pool,
            cs[k].interfaces@[i],
        ) matches Some(n) && descends(cs, n, b, fuel)),
    ensures
        descends(cs, a, b, fuel + 1),
{
    let k = class_position(cs, a)->0;
    assert(((fuel + 1) - 1) as nat == fuel);
    assert(cp_class_name(cs[k]@.constant_pool, cs[k].interfaces@[i]) matches Some(n) && descends(
        cs,
        n,
        b,
        ((fuel + 1) - 1) as nat,
    ));
}

/// Every object is an instance of `java/lang/Object`, and of its own class;
/// an instance of a class is an instance of each supertype the class
/// descends from within the classes.
pub proof fn law_instance_of_object_own_class_and_supertypes(cs: Seq<ClassFile>, rc: Seq<char>, tc: Seq<char>)
    requires
        descends(cs, rc, tc, cs.len()),
    ensures
        instance_of(cs, rc, "java/lang/Object"@),
        instance_of(cs, rc, rc),
        instance_of(cs, rc, tc),
{
}

} // verus!
