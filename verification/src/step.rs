//! One step of one branch.
//!
//! [`step_spec`] is the mathematical transition function: given the model of
//! a branch, the decoded method map, the DEX symbol view, the conservative
//! flag and the revisit log as it stands, it yields the branch after one
//! instruction together with the forks, taint requests and revisit-log
//! entries the step produces.  The executable [`step_branch`] is proved to
//! implement it exactly.

use vstd::prelude::*;
use std::collections::HashMap;
use crate::branch::{ABranch, AState, Branch};
use crate::dex::{AClass, ADexSymbols, Class, DexSymbols, spec_find_class, spec_find_last_method,
    spec_implementations};
use crate::instr::{Instruction, InvokeKind, SwitchData, TestFunction, spec_is_function_call,
    spec_is_move_result, is_function_call, is_move_result};
use crate::value::{ALastInstruction, AValue, LastInstruction, Value, spec_binop, spec_num,
    vals_dv, lemma_vals_dv};

verus! {

broadcast use {
    crate::value::lemma_vals_dv_is_deep_view,
    crate::value::lemma_add_empty,
    crate::value::lemma_push_is_add_one,
};

/// Everything one step of one branch produces: the branch afterwards, the
/// queued forks as `(fork-site offset, clone)` pairs, the queued taint
/// requests, and the entries appended to the revisit log.
pub struct StepOut {
    pub post: ABranch,
    pub adds: Seq<(i64, ABranch)>,
    pub taints: Seq<u64>,
    pub log_app: Seq<(u64, i64)>,
}

/// The decoded method map is well formed when every offset fits in 32 bits;
/// program counters derived from it then stay far from the ends of `i64`.
pub open spec fn map_wf(m: Map<i64, (u32, Instruction)>) -> bool {
    forall|k: i64| #[trigger] m.dom().contains(k) ==> 0 <= k <= u32::MAX
}

/// Every register that the instruction touches lies below `n`.
pub open spec fn spec_regs_ok(i: Instruction, n: int) -> bool {
    match i {
        Instruction::Test(_, l, r, _) => l < n && r < n,
        Instruction::TestZero(_, l, _) => l < n,
        Instruction::Binary(_, l, r) => l < n && r < n,
        Instruction::BinaryDst(_, d, l, r) => d < n && l < n && r < n,
        Instruction::BinaryLit8(_, d, l, _) => d < n && l < n,
        Instruction::BinaryLit16(_, d, l, _) => d < n && l < n,
        Instruction::Invoke(_, _, regs) => forall|j: int| 0 <= j < regs@.len() ==> regs@[j] < n,
        Instruction::ConstLit4(r, _) => r < n,
        Instruction::ConstLit16(r, _) => r < n,
        Instruction::ConstLit32(r, _) => r < n,
        Instruction::ConstString(r, _) => r < n,
        Instruction::ConstStringJumbo(r, _) => r < n,
        Instruction::ConstClass(r, _) => r < n,
        Instruction::IntToByte(d, s) => d < n && s < n,
        Instruction::IntToChar(d, s) => d < n && s < n,
        Instruction::ArrayLength(d, a) => d < n && a < n,
        Instruction::NewInstance(r, _) => r < n,
        Instruction::ArrayGetByte(d, a, ix) => d < n && a < n && ix < n,
        Instruction::ArrayPutByte(s, a, ix) => s < n && a < n && ix < n,
        Instruction::ArrayGetChar(d, a, ix) => d < n && a < n && ix < n,
        Instruction::ArrayPutChar(s, a, ix) => s < n && a < n && ix < n,
        Instruction::StaticGet(d, _) => d < n,
        Instruction::StaticGetWide(d, _) => d + 1 < n,
        Instruction::InstanceGet(d, _, _) => d < n,
        Instruction::InstanceGetWide(d, _, _) => d + 1 < n,
        Instruction::Move(d, s) => d < n && s < n,
        Instruction::MoveObject(d, s) => d < n && s < n,
        Instruction::Move16(d, s) => d < n && s < n,
        Instruction::MoveObject16(d, s) => d < n && s < n,
        Instruction::MoveResult(r) => r < n,
        Instruction::MoveResultWide(r) => r < n,
        Instruction::MoveResultObject(r) => r < n,
        Instruction::MoveFrom16(d, _) => d < n,
        Instruction::MoveWideFrom16(d, _) => d < n,
        Instruction::MoveObjectFrom16(d, _) => d < n,
        Instruction::MoveWide(d, _) => d < n,
        Instruction::MoveWide16(d, _) => d < n,
        _ => true,
    }
}

/// The branch with one register replaced.
pub open spec fn with_reg(b: ABranch, r: int, v: AValue) -> ABranch {
    ABranch {
        state: AState { registers: b.state.registers.update(r, v), ..b.state },
        ..b
    }
}

/// The branch with its pending event replaced.
pub open spec fn with_li(b: ABranch, li: Option<ALastInstruction>) -> ABranch {
    ABranch { state: AState { last_instruction: li, ..b.state }, ..b }
}

/// A step that only changes the branch itself.
pub open spec fn only_post(post: ABranch) -> StepOut {
    StepOut { post, adds: Seq::empty(), taints: Seq::empty(), log_app: Seq::empty() }
}

/// The common end of a fall-through step: a pending `FunctionCall` not
/// consumed by this instruction is discarded, and the program counter
/// advances by the instruction size in code words.
pub open spec fn spec_tail(mid: ABranch, i: Instruction, w: i64) -> ABranch {
    let li = if !spec_is_function_call(i) && !spec_is_move_result(i)
        && mid.state.last_instruction matches Some(ALastInstruction::FunctionCall { .. }) {
        None
    } else {
        mid.state.last_instruction
    };
    ABranch {
        pc: (mid.pc + w) as i64,
        state: AState { last_instruction: li, ..mid.state },
        ..mid
    }
}

/// The visit counter at `pc` incremented, saturating at the counter width.
pub open spec fn spec_count_visit(lc: Map<i64, u32>, pc: i64) -> Map<i64, u32> {
    let prev = if lc.dom().contains(pc) {
        lc[pc]
    } else {
        0u32
    };
    let next = if prev < u32::MAX {
        (prev + 1) as u32
    } else {
        prev
    };
    lc.insert(pc, next)
}

/// Whether the revisit log already holds an entry for this branch at `pc`.
pub open spec fn spec_logged(log: Seq<(u64, i64)>, id: u64, pc: i64) -> bool {
    exists|j: int| 0 <= j < log.len() && log[j].0 == id && log[j].1 == pc
}

/// Whether the revisit log holds an entry at `pc` from any branch.
pub open spec fn spec_logged_site(log: Seq<(u64, i64)>, pc: i64) -> bool {
    exists|j: int| 0 <= j < log.len() && log[j].1 == pc
}

/// The six comparators.
pub open spec fn spec_test(t: TestFunction, l: i128, r: i128) -> bool {
    match t {
        TestFunction::Equal => l == r,
        TestFunction::NotEqual => l != r,
        TestFunction::LessThan => l < r,
        TestFunction::LessEqual => l <= r,
        TestFunction::GreaterThan => l > r,
        TestFunction::GreaterEqual => l >= r,
    }
}

/// The type descriptor at `idx`, or the empty string when absent, as the
/// invoke and field arms resolve class names.
pub open spec fn spec_type_name_or_empty(dexv: ADexSymbols, idx: u32) -> Seq<char> {
    if idx < dexv.types.len() {
        dexv.types[idx as int]
    } else {
        Seq::empty()
    }
}

/// The class record for `idx`, or a synthesized empty one carrying only the
/// resolved name and the index.
pub open spec fn spec_class_or_default(dexv: ADexSymbols, idx: u32) -> AClass {
    match spec_find_class(dexv.classes, idx) {
        Some(c) => c,
        None => AClass {
            class_name: spec_type_name_or_empty(dexv, idx),
            class_idx: idx,
            methods: Seq::empty(),
        },
    }
}

/// The canonical `Class->name(proto)` signature text.
pub open spec fn spec_signature(class_name: Seq<char>, name: Seq<char>, proto: Seq<char>) -> Seq<
    char,
> {
    class_name + "->"@ + name + proto
}

/// The call event an invoke instruction records, before interface
/// refinement: all names from the method record, the result prefilled as an
/// opaque object of the return type unless the method returns void.
pub open spec fn spec_plain_call(dexv: ADexSymbols, midx: u32, args: Seq<AValue>) -> ALastInstruction {
    let m = dexv.methods[midx as int];
    let proto = dexv.protos[m.proto_idx as int];
    let class_name = spec_type_name_or_empty(dexv, m.class_idx);
    ALastInstruction::FunctionCall {
        name: m.method_name,
        signature: spec_signature(class_name, m.method_name, proto.signature),
        class_name: class_name,
        class: spec_class_or_default(dexv, m.class_idx),
        method: m,
        args: args,
        result: if proto.return_type == "V"@ {
            None
        } else {
            Some(AValue::Object { ty: proto.return_type })
        },
    }
}

/// The call event of an `invoke-interface` whose declared interface has
/// exactly one implementor: the receiver is rewritten to an object of the
/// implementing class, and, when that class carries a method of the same
/// name, the call is retargeted to it.
pub open spec fn spec_interface_call(dexv: ADexSymbols, midx: u32, args: Seq<AValue>) -> ALastInstruction {
    let m = dexv.methods[midx as int];
    let proto = dexv.protos[m.proto_idx as int];
    let class = spec_class_or_default(dexv, m.class_idx);
    let impls = spec_implementations(dexv.implementors, class.class_idx);
    if impls.len() == 1 && args.len() > 0 {
        let ic = impls[0];
        let args2 = args.update(0, AValue::Object { ty: ic.class_name });
        match spec_find_last_method(ic.methods, m.method_name) {
            Some(v) => ALastInstruction::FunctionCall {
                name: v.method_name,
                signature: spec_signature(ic.class_name, m.method_name, proto.signature),
                class_name: ic.class_name,
                class: ic,
                method: v,
                args: args2,
                result: if proto.return_type == "V"@ {
                    None
                } else {
                    Some(AValue::Object { ty: proto.return_type })
                },
            },
            None => spec_plain_call(dexv, midx, args2),
        }
    } else {
        spec_plain_call(dexv, midx, args)
    }
}

/// Whether the invoke indices resolve inside the symbol tables.
pub open spec fn spec_invoke_ok(dexv: ADexSymbols, midx: u32) -> bool {
    midx < dexv.methods.len() && dexv.methods[midx as int].proto_idx < dexv.protos.len()
}

/// The values of the argument registers, in list order.
pub open spec fn spec_gather(regs: Seq<u8>, registers: Seq<AValue>) -> Seq<AValue> {
    regs.map_values(|r: u8| registers[r as int])
}

/// The transition of one branch for one instruction, covering the stuck
/// guard, the missing-instruction guard and the register-bounds guard; the
/// instruction dispatch follows the symbolic semantics of the engine.
pub open spec fn step_spec(
    pre: ABranch,
    m: Map<i64, (u32, Instruction)>,
    dexv: ADexSymbols,
    conservative: bool,
    log: Seq<(u64, i64)>,
) -> StepOut {
    if pre.pc != 0 && pre.previous_pc == pre.pc {
        only_post(ABranch { finished: true, ..pre })
    } else {
        let mid = ABranch { previous_pc: pre.pc, ..pre };
        if !m.dom().contains(pre.pc) {
            only_post(ABranch { finished: true, ..mid })
        } else {
            let size = m[pre.pc].0;
            let i = m[pre.pc].1;
            let w = (size / 2) as i64;
            if !spec_regs_ok(i, mid.state.registers.len() as int) {
                only_post(ABranch { finished: true, ..mid })
            } else {
                step_dispatch(mid, i, w, m, dexv, conservative, log)
            }
        }
    }
}

/// The per-instruction dispatch of [`step_spec`]; `mid` is the branch with
/// `previous_pc` already set, `w` the advance width in code words.
pub open spec fn step_dispatch(
    mid: ABranch,
    i: Instruction,
    w: i64,
    m: Map<i64, (u32, Instruction)>,
    dexv: ADexSymbols,
    conservative: bool,
    log: Seq<(u64, i64)>,
) -> StepOut {
    let regs = mid.state.registers;
    match i {
        Instruction::Goto8(off) => only_post(ABranch { pc: (mid.pc + off) as i64, ..mid }),
        Instruction::Goto16(off) => only_post(ABranch { pc: (mid.pc + off) as i64, ..mid }),
        Instruction::Goto32(off) => only_post(ABranch { pc: (mid.pc + off) as i64, ..mid }),
        Instruction::Test(t, l, r, off) => step_test(
            mid,
            i,
            w,
            t,
            regs[l as int],
            regs[r as int],
            off,
            conservative,
            log,
        ),
        Instruction::TestZero(t, l, off) => step_test(
            mid,
            i,
            w,
            t,
            regs[l as int],
            AValue::Number(0),
            off,
            conservative,
            log,
        ),
        Instruction::Switch(_, table_off) => step_switch(mid, m, table_off, log),
        Instruction::ReturnVoid => only_post(ABranch { finished: true, ..mid }),
        Instruction::Return(_) => only_post(ABranch { finished: true, ..mid }),
        Instruction::Throw(_) => only_post(ABranch { finished: true, ..mid }),
        Instruction::NotImpl(_, _) => StepOut {
            post: spec_tail(
                ABranch {
                    state: AState {
                        registers: Seq::new(regs.len(), |j: int| AValue::Empty),
                        ..mid.state
                    },
                    ..mid
                },
                i,
                w,
            ),
            adds: Seq::empty(),
            taints: seq![mid.id],
            log_app: Seq::empty(),
        },
        _ => only_post(flat_step(mid, i, w, dexv)),
    }
}

/// The fall-through instructions: everything that neither jumps, forks,
/// taints nor terminates.  The result is the branch after the arm's register
/// and event updates, with the common tail applied; a failed invoke lookup
/// finishes the branch instead.
pub open spec fn flat_step(mid: ABranch, i: Instruction, w: i64, dexv: ADexSymbols) -> ABranch {
    let regs = mid.state.registers;
    match i {
        Instruction::Binary(op, l, r) => spec_tail(
            with_reg(mid, l as int, spec_binop(op, regs[l as int], regs[r as int])),
            i,
            w,
        ),
        Instruction::BinaryDst(op, d, l, r) => 
            spec_tail(with_reg(mid, d as int, spec_binop(op, regs[l as int], regs[r as int])), i, w),
        Instruction::BinaryLit8(op, d, l, lit) => 
            spec_tail(
                with_reg(mid, d as int, spec_binop(op, regs[l as int], AValue::Number(lit as i128))),
                i,
                w,
            ),
        Instruction::BinaryLit16(op, d, l, lit) => 
            spec_tail(
                with_reg(mid, d as int, spec_binop(op, regs[l as int], AValue::Number(lit as i128))),
                i,
                w,
            ),
        Instruction::Invoke(kind, midx, iregs) => {
            if !spec_invoke_ok(dexv, midx) {
                ABranch { finished: true, ..mid }
            } else {
                let args = spec_gather(iregs@, regs);
                let call = if kind is Interface {
                    spec_interface_call(dexv, midx, args)
                } else {
                    spec_plain_call(dexv, midx, args)
                };
                spec_tail(with_li(mid, Some(call)), i, w)
            }
        },
        Instruction::InvokeRange(_, midx) => {
            if !spec_invoke_ok(dexv, midx) {
                ABranch { finished: true, ..mid }
            } else {
                let call = spec_plain_call(dexv, midx, Seq::empty());
                spec_tail(with_li(mid, Some(call)), i, w)
            }
        },
        Instruction::ConstLit4(r, val) => 
            spec_tail(with_reg(mid, r as int, AValue::Number(val as i128)), i, w),
        Instruction::ConstLit16(r, val) => 
            spec_tail(with_reg(mid, r as int, AValue::Number(val as i128)), i, w),
        Instruction::ConstLit32(r, val) => 
            spec_tail(with_reg(mid, r as int, AValue::Number(val as i128)), i, w),
        Instruction::ConstString(r, idx) => 
            spec_tail(with_reg(mid, r as int, spec_const_string(dexv, idx)), i, w),
        Instruction::ConstStringJumbo(r, idx) => 
            spec_tail(with_reg(mid, r as int, spec_const_string(dexv, idx)), i, w),
        Instruction::ConstClass(r, c) => 
            spec_tail(
                with_reg(
                    mid,
                    r as int,
                    if c < dexv.types.len() {
                        AValue::Unknown { ty: dexv.types[c as int] }
                    } else {
                        AValue::Unknown { ty: "TYPE NOT FOUND"@ }
                    },
                ),
                i,
                w,
            ),
        Instruction::IntToByte(d, s) => 
            spec_tail(
                match regs[s as int] {
                    AValue::Number(numb) => with_reg(mid, d as int, AValue::Byte(numb as u8)),
                    _ => mid,
                },
                i,
                w,
            ),
        Instruction::IntToChar(d, s) => 
            spec_tail(
                match regs[s as int] {
                    AValue::Number(numb) => with_reg(
                        mid,
                        d as int,
                        AValue::Char(((numb as u8) as char)),
                    ),
                    _ => mid,
                },
                i,
                w,
            ),
        Instruction::ArrayLength(d, a) => 
            spec_tail(
                match regs[a as int] {
                    AValue::Bytes(v) => with_reg(mid, d as int, AValue::Number(v.len() as i128)),
                    _ => with_reg(mid, d as int, AValue::Invalid),
                },
                i,
                w,
            ),
        Instruction::NewInstance(r, ty) => 
            spec_tail(
                with_reg(
                    mid,
                    r as int,
                    if ty < dexv.types.len() {
                        AValue::Object { ty: dexv.types[ty as int] }
                    } else {
                        AValue::Unknown { ty: "UNKNOWN"@ }
                    },
                ),
                i,
                w,
            ),
        Instruction::ArrayGetByte(d, a, ix) => 
            spec_tail(
                match (regs[a as int], regs[ix as int]) {
                    (AValue::Bytes(arr), AValue::Number(n)) => if 0 <= n < arr.len() {
                        with_reg(mid, d as int, AValue::Byte(arr[n as int]))
                    } else {
                        with_reg(mid, d as int, AValue::Empty)
                    },
                    _ => with_reg(mid, d as int, AValue::Empty),
                },
                i,
                w,
            ),
        Instruction::ArrayGetChar(d, a, ix) => 
            spec_tail(
                match (regs[a as int], regs[ix as int]) {
                    (AValue::Bytes(arr), AValue::Number(n)) => if 0 <= n < arr.len() {
                        with_reg(mid, d as int, AValue::Char((arr[n as int] as char)))
                    } else {
                        with_reg(mid, d as int, AValue::Empty)
                    },
                    _ => with_reg(mid, d as int, AValue::Empty),
                },
                i,
                w,
            ),
        Instruction::ArrayPutByte(s, a, ix) => 
            spec_tail(
                match (regs[a as int], regs[ix as int], regs[s as int]) {
                    (AValue::Bytes(arr), AValue::Number(n), AValue::Byte(bb)) => if 0 <= n
                        < arr.len() {
                        with_reg(mid, a as int, AValue::Bytes(arr.update(n as int, bb)))
                    } else {
                        mid
                    },
                    _ => mid,
                },
                i,
                w,
            ),
        Instruction::ArrayPutChar(s, a, ix) => 
            spec_tail(
                match (regs[a as int], regs[ix as int], regs[s as int]) {
                    (AValue::Bytes(arr), AValue::Number(n), AValue::Char(cc)) => if 0 <= n
                        < arr.len() {
                        with_reg(mid, a as int, AValue::Bytes(arr.update(n as int, cc as u8)))
                    } else {
                        mid
                    },
                    _ => mid,
                },
                i,
                w,
            ),
        Instruction::StaticGet(d, field) => 
            spec_tail(spec_static_get(mid, dexv, d as int, field, false), i, w),
        Instruction::StaticGetWide(d, field) => 
            spec_tail(spec_static_get(mid, dexv, d as int, field, true), i, w),
        Instruction::InstanceGet(d, _, _) => 
            spec_tail(with_reg(mid, d as int, AValue::Empty), i, w),
        Instruction::InstanceGetWide(d, _, _) => 
            spec_tail(with_reg(with_reg(mid, d as int, AValue::Empty), d + 1, AValue::Empty), i, w),
        Instruction::Move(d, s) => spec_tail(with_reg(mid, d as int, regs[s as int]), i, w),
        Instruction::MoveObject(d, s) => 
            spec_tail(with_reg(mid, d as int, regs[s as int]), i, w),
        Instruction::Move16(d, s) => 
            spec_tail(with_reg(mid, d as int, regs[s as int]), i, w),
        Instruction::MoveObject16(d, s) => 
            spec_tail(with_reg(mid, d as int, regs[s as int]), i, w),
        Instruction::MoveResult(r) => spec_tail(spec_move_result(mid, r as int), i, w),
        Instruction::MoveResultWide(r) => 
            spec_tail(spec_move_result(mid, r as int), i, w),
        Instruction::MoveResultObject(r) => 
            spec_tail(spec_move_result(mid, r as int), i, w),
        Instruction::MoveFrom16(d, _) => 
            spec_tail(with_reg(mid, d as int, AValue::Empty), i, w),
        Instruction::MoveWideFrom16(d, _) => 
            spec_tail(with_reg(mid, d as int, AValue::Empty), i, w),
        Instruction::MoveObjectFrom16(d, _) => 
            spec_tail(with_reg(mid, d as int, AValue::Empty), i, w),
        Instruction::MoveWide(d, _) => 
            spec_tail(with_reg(mid, d as int, AValue::Empty), i, w),
        Instruction::MoveWide16(d, _) => 
            spec_tail(with_reg(mid, d as int, AValue::Empty), i, w),
        _ => spec_tail(mid, i, w),
    }
}

/// The string-pool load: the string at `idx`, or an unknown value of the
/// Java string type when the index does not resolve.
pub open spec fn spec_const_string(dexv: ADexSymbols, idx: u32) -> AValue {
    if idx < dexv.strings.len() {
        AValue::String(dexv.strings[idx as int])
    } else {
        AValue::Unknown { ty: "Ljava/lang/String;"@ }
    }
}

/// A static read: the destination (and its pair for the wide form) is
/// cleared, and when the field record resolves, the read becomes the
/// branch's pending event.
pub open spec fn spec_static_get(
    mid: ABranch,
    dexv: ADexSymbols,
    d: int,
    field: u32,
    wide: bool,
) -> ABranch {
    let cleared = if wide {
        with_reg(with_reg(mid, d, AValue::Empty), d + 1, AValue::Empty)
    } else {
        with_reg(mid, d, AValue::Empty)
    };
    if field < dexv.fields.len() {
        let fd = dexv.fields[field as int];
        let class_name = spec_type_name_or_empty(dexv, fd.class_idx);
        with_li(
            cleared,
            Some(
                ALastInstruction::ReadStaticField {
                    class_name: class_name,
                    class: spec_class_or_default(dexv, fd.class_idx),
                    field: fd,
                    name: fd.name,
                },
            ),
        )
    } else {
        cleared
    }
}

/// A `move-result`: when the pending event is a call, the destination
/// register becomes a deferred value carrying it.
pub open spec fn spec_move_result(mid: ABranch, r: int) -> ABranch {
    match mid.state.last_instruction {
        Some(li) => if li is FunctionCall {
            with_reg(mid, r, AValue::Variable(Box::new(li)))
        } else {
            mid
        },
        None => mid,
    }
}

/// A conditional test.  A revisited site taints the branch and every branch
/// in the revisit log and falls through; a first visit is counted and
/// logged; numeric operands decide the successor deterministically; a
/// symbolic condition forks the taken path and falls through, tainting when
/// the engine is conservative or an operand is `Empty`.
pub open spec fn step_test(
    mid: ABranch,
    i: Instruction,
    w: i64,
    t: TestFunction,
    left: AValue,
    right: AValue,
    off: i16,
    conservative: bool,
    log: Seq<(u64, i64)>,
) -> StepOut {
    if spec_logged(log, mid.id, mid.pc) {
        StepOut {
            post: ABranch { pc: (mid.pc + w) as i64, ..mid },
            adds: Seq::empty(),
            taints: seq![mid.id] + log.map_values(|e: (u64, i64)| e.0),
            log_app: Seq::empty(),
        }
    } else {
        let counted = ABranch {
            state: AState {
                loop_count: spec_count_visit(mid.state.loop_count, mid.pc),
                ..mid.state
            },
            ..mid
        };
        let log_app = seq![(mid.id, mid.pc)];
        if spec_num(left) is Some && spec_num(right) is Some {
            if spec_test(t, spec_num(left).unwrap(), spec_num(right).unwrap()) {
                StepOut {
                    post: ABranch { pc: (counted.pc + off) as i64, ..counted },
                    adds: Seq::empty(),
                    taints: Seq::empty(),
                    log_app: log_app,
                }
            } else {
                StepOut {
                    post: spec_tail(counted, i, w),
                    adds: Seq::empty(),
                    taints: Seq::empty(),
                    log_app: log_app,
                }
            }
        } else {
            let tainted = conservative || left is Empty || right is Empty
                || counted.state.tainted;
            let parent = ABranch {
                state: AState { tainted: tainted, ..counted.state },
                ..counted
            };
            let child = ABranch {
                parent_id: Some(mid.id),
                pc: (mid.pc + off) as i64,
                state: AState { loop_count: Map::empty(), ..parent.state },
                ..parent
            };
            StepOut {
                post: spec_tail(parent, i, w),
                adds: seq![(mid.pc, child)],
                taints: Seq::empty(),
                log_app: log_app,
            }
        }
    }
}

/// A switch: when the payload resolves, every target forks a child at the
/// target offset unless the revisit log already holds the switch site; the
/// branch itself is finished.
pub open spec fn step_switch(
    mid: ABranch,
    m: Map<i64, (u32, Instruction)>,
    table_off: i32,
    log: Seq<(u64, i64)>,
) -> StepOut {
    let finished = ABranch { finished: true, ..mid };
    let payload = (mid.pc + table_off) as i64;
    if m.dom().contains(payload) {
        match m[payload].1 {
            Instruction::SwitchData(sd) => if spec_logged_site(log, mid.pc) {
                only_post(finished)
            } else {
                StepOut {
                    post: finished,
                    adds: sd.targets@.map_values(
                        |kv: (i32, i32)|
                            (
                                mid.pc,
                                ABranch {
                                    parent_id: Some(mid.id),
                                    pc: (mid.pc + kv.1) as i64,
                                    ..mid
                                },
                            ),
                    ),
                    taints: Seq::empty(),
                    log_app: Seq::empty(),
                }
            },
            _ => only_post(finished),
        }
    } else {
        only_post(finished)
    }
}

/// Whether every register in the list lies below `n`.
fn all_regs_below(regs: &Vec<u8>, n: usize) -> (res: bool)
    ensures
        res == (forall|j: int| 0 <= j < regs@.len() ==> regs@[j] < n),
{
    let len = regs.len();
    let mut j: usize = 0;
    while j < len
        invariant
            len == regs@.len(),
            j <= len,
            forall|k: int| 0 <= k < j ==> regs@[k] < n,
        decreases len - j,
    {
        if (regs[j] as usize) >= n {
            return false;
        }
        j += 1;
    }
    true
}

/// Executable register-bounds check; see [`spec_regs_ok`].
pub fn regs_ok(i: &Instruction, n: usize) -> (res: bool)
    ensures
        res == spec_regs_ok(*i, n as int),
{
    match i {
        Instruction::Test(_, l, r, _) => (*l as usize) < n && (*r as usize) < n,
        Instruction::TestZero(_, l, _) => (*l as usize) < n,
        Instruction::Binary(_, l, r) => (*l as usize) < n && (*r as usize) < n,
        Instruction::BinaryDst(_, d, l, r) => (*d as usize) < n && (*l as usize) < n && (*r
            as usize) < n,
        Instruction::BinaryLit8(_, d, l, _) => (*d as usize) < n && (*l as usize) < n,
        Instruction::BinaryLit16(_, d, l, _) => (*d as usize) < n && (*l as usize) < n,
        Instruction::Invoke(_, _, regs) => all_regs_below(regs, n),
        Instruction::ConstLit4(r, _) => (*r as usize) < n,
        Instruction::ConstLit16(r, _) => (*r as usize) < n,
        Instruction::ConstLit32(r, _) => (*r as usize) < n,
        Instruction::ConstString(r, _) => (*r as usize) < n,
        Instruction::ConstStringJumbo(r, _) => (*r as usize) < n,
        Instruction::ConstClass(r, _) => (*r as usize) < n,
        Instruction::IntToByte(d, s) => (*d as usize) < n && (*s as usize) < n,
        Instruction::IntToChar(d, s) => (*d as usize) < n && (*s as usize) < n,
        Instruction::ArrayLength(d, a) => (*d as usize) < n && (*a as usize) < n,
        Instruction::NewInstance(r, _) => (*r as usize) < n,
        Instruction::ArrayGetByte(d, a, ix) => (*d as usize) < n && (*a as usize) < n && (*ix
            as usize) < n,
        Instruction::ArrayPutByte(s, a, ix) => (*s as usize) < n && (*a as usize) < n && (*ix
            as usize) < n,
        Instruction::ArrayGetChar(d, a, ix) => (*d as usize) < n && (*a as usize) < n && (*ix
            as usize) < n,
        Instruction::ArrayPutChar(s, a, ix) => (*s as usize) < n && (*a as usize) < n && (*ix
            as usize) < n,
        Instruction::StaticGet(d, _) => (*d as usize) < n,
        Instruction::StaticGetWide(d, _) => (*d as usize) + 1 < n,
        Instruction::InstanceGet(d, _, _) => (*d as usize) < n,
        Instruction::InstanceGetWide(d, _, _) => (*d as usize) + 1 < n,
        Instruction::Move(d, s) => (*d as usize) < n && (*s as usize) < n,
        Instruction::MoveObject(d, s) => (*d as usize) < n && (*s as usize) < n,
        Instruction::Move16(d, s) => (*d as usize) < n && (*s as usize) < n,
        Instruction::MoveObject16(d, s) => (*d as usize) < n && (*s as usize) < n,
        Instruction::MoveResult(r) => (*r as usize) < n,
        Instruction::MoveResultWide(r) => (*r as usize) < n,
        Instruction::MoveResultObject(r) => (*r as usize) < n,
        Instruction::MoveFrom16(d, _) => (*d as usize) < n,
        Instruction::MoveWideFrom16(d, _) => (*d as usize) < n,
        Instruction::MoveObjectFrom16(d, _) => (*d as usize) < n,
        Instruction::MoveWide(d, _) => (*d as usize) < n,
        Instruction::MoveWide16(d, _) => (*d as usize) < n,
        _ => true,
    }
}

/// Replace one register.
fn write_reg(b: &mut Branch, d: usize, val: Value)
    requires
        d < old(b).state.registers@.len(),
    ensures
        final(b).deep_view() == with_reg(old(b).deep_view(), d as int, val.deep_view()),
        final(b).state.registers@.len() == old(b).state.registers@.len(),
{
    b.state.registers.set(d, val);
    proof {
        assert(b.state.registers.deep_view() =~= old(b).state.registers.deep_view().update(
            d as int,
            b.state.registers@[d as int].deep_view(),
        ));
    }
}

/// The common end of a fall-through step; see [`spec_tail`].
fn apply_tail(b: &mut Branch, i: &Instruction, w: i64)
    requires
        0 <= old(b).pc <= u32::MAX,
        0 <= w <= u32::MAX,
    ensures
        final(b).deep_view() == spec_tail(old(b).deep_view(), *i, w),
{
    if !is_function_call(i) && !is_move_result(i) && matches!(
        b.state.last_instruction,
        Some(LastInstruction::FunctionCall { .. }),
    ) {
        b.state.last_instruction = None;
    }
    b.pc = b.pc + w;
}

/// Whether the revisit log holds an entry for this branch at `pc`.
fn logged(log: &Vec<(u64, i64)>, id: u64, pc: i64) -> (res: bool)
    ensures
        res == spec_logged(log@, id, pc),
{
    let len = log.len();
    let mut j: usize = 0;
    while j < len
        invariant
            len == log@.len(),
            j <= len,
            forall|k: int| 0 <= k < j ==> !(log@[k].0 == id && log@[k].1 == pc),
        decreases len - j,
    {
        if log[j].0 == id && log[j].1 == pc {
            return true;
        }
        j += 1;
    }
    false
}

/// Whether the revisit log holds an entry at `pc` from any branch.
fn logged_site(log: &Vec<(u64, i64)>, pc: i64) -> (res: bool)
    ensures
        res == spec_logged_site(log@, pc),
{
    let len = log.len();
    let mut j: usize = 0;
    while j < len
        invariant
            len == log@.len(),
            j <= len,
            forall|k: int| 0 <= k < j ==> log@[k].1 != pc,
        decreases len - j,
    {
        if log[j].1 == pc {
            return true;
        }
        j += 1;
    }
    false
}

/// The six comparators, executably.
fn eval_test(t: &TestFunction, l: i128, r: i128) -> (res: bool)
    ensures
        res == spec_test(*t, l, r),
{
    match t {
        TestFunction::Equal => l == r,
        TestFunction::NotEqual => l != r,
        TestFunction::LessThan => l < r,
        TestFunction::LessEqual => l <= r,
        TestFunction::GreaterThan => l > r,
        TestFunction::GreaterEqual => l >= r,
    }
}

/// Clone the values of the argument registers, in list order.
fn gather_args(regs_list: &Vec<u8>, registers: &Vec<Value>) -> (res: Vec<Value>)
    requires
        forall|j: int| 0 <= j < regs_list@.len() ==> regs_list@[j] < registers@.len(),
    ensures
        res.deep_view() == spec_gather(regs_list@, registers.deep_view()),
{
    let len = regs_list.len();
    let mut res: Vec<Value> = Vec::new();
    let mut j: usize = 0;
    while j < len
        invariant
            len == regs_list@.len(),
            forall|k: int| 0 <= k < len ==> regs_list@[k] < registers@.len(),
            j <= len,
            res.deep_view().len() == j,
            forall|k: int|
                0 <= k < j ==> res.deep_view()[k] == registers.deep_view()[regs_list@[k] as int],
        decreases len - j,
    {
        let ghost prev = res.deep_view();
        let r = regs_list[j];
        res.push(registers[r as usize].clone());
        proof {
            assert(res.deep_view() =~= prev.push(res@[j as int].deep_view()));
        }
        j += 1;
    }
    proof {
        assert(res.deep_view() =~= spec_gather(regs_list@, registers.deep_view()));
    }
    res
}

/// The type name for `idx`, or the empty string; see
/// [`spec_type_name_or_empty`].
fn type_name_or_empty(dex: &DexSymbols, idx: u32) -> (res: String)
    ensures
        res@ == spec_type_name_or_empty(dex.deep_view(), idx),
{
    match dex.get_type_name(idx) {
        Some(s) => s.clone(),
        None => String::new(),
    }
}

/// The class record for `idx`, or a synthesized empty one; see
/// [`spec_class_or_default`].
fn class_or_default(dex: &DexSymbols, idx: u32) -> (res: Class)
    ensures
        res.deep_view() == spec_class_or_default(dex.deep_view(), idx),
{
    match dex.get_class_by_type_name_idx(idx) {
        Some(c) => c.clone(),
        None => {
            let res = Class {
                class_name: type_name_or_empty(dex, idx),
                class_idx: idx,
                methods: Vec::new(),
            };
            proof {
                assert(res.methods.deep_view() =~= Seq::<crate::dex::AMethod>::empty());
            }
            res
        },
    }
}

/// Render the canonical `Class->name(proto)` signature text.
fn render_signature(class_name: &String, name: &String, proto: &String) -> (res: String)
    ensures
        res@ == spec_signature(class_name@, name@, proto@),
{
    let mut s = class_name.clone();
    s.append("->");
    s.append(name.as_str());
    s.append(proto.as_str());
    s
}

/// The prefilled call result: an opaque object of the return type, or
/// nothing for a method returning void.
fn prefill_result(return_type: &String) -> (res: Option<Value>)
    ensures
        res.deep_view() == (if return_type@ == "V"@ {
            None::<AValue>
        } else {
            Some(AValue::Object { ty: return_type@ })
        }),
{
    let void_name: String = "V".to_owned();
    if *return_type == void_name {
        None
    } else {
        Some(Value::Object { ty: return_type.clone() })
    }
}

/// Build the call event of a non-interface invoke; see [`spec_plain_call`].
fn build_plain_call(dex: &DexSymbols, midx: u32, args: Vec<Value>) -> (res: LastInstruction)
    requires
        spec_invoke_ok(dex.deep_view(), midx),
    ensures
        res.deep_view() == spec_plain_call(dex.deep_view(), midx, args.deep_view()),
{
    let m = dex.methods[midx as usize].clone();
    let proto = dex.protos[m.proto_idx as usize].clone();
    let class_name = type_name_or_empty(dex, m.class_idx);
    let class = class_or_default(dex, m.class_idx);
    let signature = render_signature(&class_name, &m.method_name, &proto.signature);
    let result = prefill_result(&proto.return_type);
    let name = m.method_name.clone();
    let ghost adv = args.deep_view();
    let ghost aseq = args@;
    let res = LastInstruction::FunctionCall {
        name,
        signature,
        class_name,
        class,
        method: m,
        args,
        result,
    };
    proof {
        lemma_vals_dv(aseq);
        assert(vals_dv(aseq) =~= adv);
        assert(res.deep_view() == spec_plain_call(dex.deep_view(), midx, adv));
    }
    res
}

/// Build the call event of an `invoke-interface`; see
/// [`spec_interface_call`].
fn build_interface_call(dex: &DexSymbols, midx: u32, args: Vec<Value>) -> (res: LastInstruction)
    requires
        spec_invoke_ok(dex.deep_view(), midx),
    ensures
        res.deep_view() == spec_interface_call(dex.deep_view(), midx, args.deep_view()),
{
    let m = dex.methods[midx as usize].clone();
    let class = class_or_default(dex, m.class_idx);
    let impls = dex.get_implementations_for(&class);
    if impls.len() == 1 && args.len() > 0 {
        let ic = &impls[0];
        let ghost args_dv = args.deep_view();
        let mut args2 = args;
        args2.set(0, Value::Object { ty: ic.class_name.clone() });
        proof {
            assert(args2.deep_view() =~= args_dv.update(
                0,
                AValue::Object { ty: ic.class_name@ },
            ));
        }
        match ic.find_method_by_name(&m.method_name) {
            Some(v) => {
                let proto = dex.protos[m.proto_idx as usize].clone();
                let signature = render_signature(&ic.class_name, &m.method_name, &proto.signature);
                let result = prefill_result(&proto.return_type);
                let name = v.method_name.clone();
                let class_name = ic.class_name.clone();
                let class2 = ic.clone();
                let ghost adv2 = args2.deep_view();
                let ghost aseq2 = args2@;
                let res = LastInstruction::FunctionCall {
                    name,
                    signature,
                    class_name,
                    class: class2,
                    method: v,
                    args: args2,
                    result,
                };
                proof {
                    lemma_vals_dv(aseq2);
                    assert(vals_dv(aseq2) =~= adv2);
                }
                res
            },
            None => build_plain_call(dex, midx, args2),
        }
    } else {
        build_plain_call(dex, midx, args)
    }
}

/// Advance one branch by one instruction, implementing [`step_spec`]
/// exactly: the branch is updated in place, queued forks are appended to
/// `to_add`, taint requests to `to_taint`, and revisit-log entries to
/// `already_branched`.
#[verifier::rlimit(100)]
#[verifier::spinoff_prover]
pub fn step_branch(
    b: &mut Branch,
    method: &HashMap<i64, (u32, Instruction)>,
    dex: &DexSymbols,
    conservative: bool,
    already_branched: &mut Vec<(u64, i64)>,
    to_add: &mut Vec<(i64, Branch)>,
    to_taint: &mut Vec<u64>,
)
    requires
        map_wf(method@),
    ensures
        ({
            let out = step_spec(
                old(b).deep_view(),
                method@,
                dex.deep_view(),
                conservative,
                old(already_branched)@,
            );
            &&& final(b).deep_view() == out.post
            &&& final(already_branched)@ == old(already_branched)@ + out.log_app
            &&& final(to_add).deep_view() == old(to_add).deep_view() + out.adds
            &&& final(to_taint)@ == old(to_taint)@ + out.taints
        }),
{
    if b.pc != 0 && b.previous_pc == b.pc {
        b.finished = true;
        return;
    }
    let pc = b.pc;
    b.previous_pc = pc;
    let inst = match method.get(&pc) {
        Some(x) => x,
        None => {
            b.finished = true;
            return;
        },
    };
    proof {
        assert(method@.dom().contains(pc));
    }
    let w: i64 = (inst.0 / 2) as i64;
    let nregs = b.state.registers.len();
    if !regs_ok(&inst.1, nregs) {
        b.finished = true;
        return;
    }
    match &inst.1 {
        Instruction::Goto8(off) => {
            b.pc = b.pc + (*off as i64);
        },
        Instruction::Goto16(off) => {
            b.pc = b.pc + (*off as i64);
        },
        Instruction::Goto32(off) => {
            b.pc = b.pc + (*off as i64);
        },
        Instruction::Test(t, l, r, off) => {
            if logged(already_branched, b.id, pc) {
                to_taint.push(b.id);
                push_log_ids(to_taint, already_branched);
                b.pc = b.pc + w;
                return;
            }
            count_visit(&mut b.state.loop_count, pc);
            already_branched.push((b.id, pc));
            let li_idx = *l as usize;
            let ri_idx = *r as usize;
            let ln = b.state.registers[li_idx].try_get_number();
            let rn = b.state.registers[ri_idx].try_get_number();
            if let (Some(lv), Some(rv)) = (ln, rn) {
                if eval_test(t, lv, rv) {
                    b.pc = b.pc + (*off as i64);
                    return;
                }
                apply_tail(b, &inst.1, w);
                return;
            }
            if conservative || matches!(b.state.registers[li_idx], Value::Empty) || matches!(
                b.state.registers[ri_idx],
                Value::Empty,
            ) {
                b.state.tainted = true;
            }
            let mut child = b.clone();
            child.parent_id = Some(b.id);
            child.pc = child.pc + (*off as i64);
            child.state.loop_count = HashMap::new();
            let ghost a0 = to_add.deep_view();
            let ghost cdv = child.deep_view();
            to_add.push((pc, child));
            proof {
                assert(to_add.deep_view() =~= a0.push((pc, cdv)));
            }
            apply_tail(b, &inst.1, w);
        },
        Instruction::TestZero(t, l, off) => {
            if logged(already_branched, b.id, pc) {
                to_taint.push(b.id);
                push_log_ids(to_taint, already_branched);
                b.pc = b.pc + w;
                return;
            }
            count_visit(&mut b.state.loop_count, pc);
            already_branched.push((b.id, pc));
            let li_idx = *l as usize;
            let ln = b.state.registers[li_idx].try_get_number();
            if let Some(lv) = ln {
                if eval_test(t, lv, 0) {
                    b.pc = b.pc + (*off as i64);
                    return;
                }
                apply_tail(b, &inst.1, w);
                return;
            }
            if conservative || matches!(b.state.registers[li_idx], Value::Empty) {
                b.state.tainted = true;
            }
            let mut child = b.clone();
            child.parent_id = Some(b.id);
            child.pc = child.pc + (*off as i64);
            child.state.loop_count = HashMap::new();
            let ghost a0 = to_add.deep_view();
            let ghost cdv = child.deep_view();
            to_add.push((pc, child));
            proof {
                assert(to_add.deep_view() =~= a0.push((pc, cdv)));
            }
            apply_tail(b, &inst.1, w);
        },
        Instruction::Switch(_, table_off) => {
            let table_pc: i64 = pc + (*table_off as i64);
            match method.get(&table_pc) {
                Some((_, Instruction::SwitchData(sd))) => {
                    if !logged_site(already_branched, pc) {
                        let ghost a0 = to_add.deep_view();
                        let ghost bdv = b.deep_view();
                        let n = sd.targets.len();
                        let mut j: usize = 0;
                        while j < n
                            invariant
                                n == sd.targets@.len(),
                                j <= n,
                                b.deep_view() == bdv,
                                0 <= b.pc <= u32::MAX,
                                pc == b.pc,
                                to_add.deep_view() == a0 + sd.targets@.take(j as int).map_values(
                                    |kv: (i32, i32)|
                                        (
                                            bdv.pc,
                                            ABranch {
                                                parent_id: Some(bdv.id),
                                                pc: (bdv.pc + kv.1) as i64,
                                                ..bdv
                                            },
                                        ),
                                ),
                            decreases n - j,
                        {
                            let off = sd.targets[j].1;
                            let mut child = b.clone();
                            child.parent_id = Some(b.id);
                            child.pc = child.pc + (off as i64);
                            let ghost cdv = child.deep_view();
                            let ghost before = to_add.deep_view();
                            to_add.push((pc, child));
                            proof {
                                assert(to_add.deep_view() =~= before.push((pc, cdv)));
                                assert(sd.targets@.take(j + 1).map_values(
                                    |kv: (i32, i32)|
                                        (
                                            bdv.pc,
                                            ABranch {
                                                parent_id: Some(bdv.id),
                                                pc: (bdv.pc + kv.1) as i64,
                                                ..bdv
                                            },
                                        ),
                                ) =~= sd.targets@.take(j as int).map_values(
                                    |kv: (i32, i32)|
                                        (
                                            bdv.pc,
                                            ABranch {
                                                parent_id: Some(bdv.id),
                                                pc: (bdv.pc + kv.1) as i64,
                                                ..bdv
                                            },
                                        ),
                                ).push((pc, cdv)));
                            }
                            j += 1;
                        }
                        proof {
                            assert(sd.targets@.take(n as int) =~= sd.targets@);
                        }
                    }
                    b.finished = true;
                    return;
                },
                _ => {
                    b.finished = true;
                    return;
                },
            }
        },
        Instruction::ReturnVoid => {
            b.finished = true;
        },
        Instruction::Return(_) => {
            b.finished = true;
        },
        Instruction::Throw(_) => {
            b.finished = true;
        },
        Instruction::NotImpl(_, _) => {
            to_taint.push(b.id);
            let n = b.state.registers.len();
            let empties: Vec<Value> = vec![Value::Empty; n];
            b.state.registers = empties;
            proof {
                assert(Value::Empty.deep_view() == AValue::Empty);
                assert(b.state.registers.deep_view() =~= Seq::new(
                    old(b).state.registers.deep_view().len(),
                    |j: int| AValue::Empty,
                ));
            }
            apply_tail(b, &inst.1, w);
        },
        _ => {
            flat_exec(b, &inst.1, w, dex);
        },
    }
}


/// The fall-through instructions, executably; see [`flat_step`].
#[verifier::rlimit(100)]
#[verifier::spinoff_prover]
fn flat_exec(b: &mut Branch, i: &Instruction, w: i64, dex: &DexSymbols)
    requires
        spec_regs_ok(*i, old(b).state.registers@.len() as int),
        0 <= old(b).pc <= u32::MAX,
        0 <= w <= u32::MAX,
    ensures
        final(b).deep_view() == flat_step(old(b).deep_view(), *i, w, dex.deep_view()),
{
    match i {
        Instruction::Binary(op, l, r) => {
            let v = Value::apply_binop(
                *op,
                &b.state.registers[*l as usize],
                &b.state.registers[*r as usize],
            );
            write_reg(b, *l as usize, v);
            apply_tail(b, i, w);
        },
        Instruction::BinaryDst(op, d, l, r) => {
            let v = Value::apply_binop(
                *op,
                &b.state.registers[*l as usize],
                &b.state.registers[*r as usize],
            );
            write_reg(b, *d as usize, v);
            apply_tail(b, i, w);
        },
        Instruction::BinaryLit8(op, d, l, lit) => {
            let v = Value::apply_binop_lit(*op, &b.state.registers[*l as usize], *lit as i128);
            write_reg(b, *d as usize, v);
            apply_tail(b, i, w);
        },
        Instruction::BinaryLit16(op, d, l, lit) => {
            let v = Value::apply_binop_lit(*op, &b.state.registers[*l as usize], *lit as i128);
            write_reg(b, *d as usize, v);
            apply_tail(b, i, w);
        },
        Instruction::Invoke(kind, midx, iregs) => {
            if (*midx as usize) >= dex.methods.len() {
                b.finished = true;
                return;
            }
            if (dex.methods[*midx as usize].proto_idx as usize) >= dex.protos.len() {
                b.finished = true;
                return;
            }
            let args = gather_args(iregs, &b.state.registers);
            let call = if matches!(kind, InvokeKind::Interface) {
                build_interface_call(dex, *midx, args)
            } else {
                build_plain_call(dex, *midx, args)
            };
            b.state.last_instruction = Some(call);
            apply_tail(b, i, w);
        },
        Instruction::InvokeRange(_, midx) => {
            if (*midx as usize) >= dex.methods.len() {
                b.finished = true;
                return;
            }
            if (dex.methods[*midx as usize].proto_idx as usize) >= dex.protos.len() {
                b.finished = true;
                return;
            }
            let args: Vec<Value> = Vec::new();
            proof {
                assert(args.deep_view() =~= Seq::<AValue>::empty());
            }
            let call = build_plain_call(dex, *midx, args);
            b.state.last_instruction = Some(call);
            apply_tail(b, i, w);
        },
        Instruction::ConstLit4(r, val) => {
            write_reg(b, *r as usize, Value::Number(*val as i128));
            apply_tail(b, i, w);
        },
        Instruction::ConstLit16(r, val) => {
            write_reg(b, *r as usize, Value::Number(*val as i128));
            apply_tail(b, i, w);
        },
        Instruction::ConstLit32(r, val) => {
            write_reg(b, *r as usize, Value::Number(*val as i128));
            apply_tail(b, i, w);
        },
        Instruction::ConstString(r, idx) => {
            let v = const_string_value(dex, *idx);
            write_reg(b, *r as usize, v);
            apply_tail(b, i, w);
        },
        Instruction::ConstStringJumbo(r, idx) => {
            let v = const_string_value(dex, *idx);
            write_reg(b, *r as usize, v);
            apply_tail(b, i, w);
        },
        Instruction::ConstClass(r, c) => {
            let v = match dex.get_type_name(*c) {
                Some(s) => Value::Unknown { ty: s.clone() },
                None => Value::Unknown { ty: "TYPE NOT FOUND".to_owned() },
            };
            write_reg(b, *r as usize, v);
            apply_tail(b, i, w);
        },
        Instruction::IntToByte(d, s) => {
            let nv = match &b.state.registers[*s as usize] {
                Value::Number(numb) => Some(*numb),
                _ => None,
            };
            if let Some(numb) = nv {
                let byte: u8 = #[verifier::truncate] (numb as u8);
                write_reg(b, *d as usize, Value::Byte(byte));
            }
            apply_tail(b, i, w);
        },
        Instruction::IntToChar(d, s) => {
            let nv = match &b.state.registers[*s as usize] {
                Value::Number(numb) => Some(*numb),
                _ => None,
            };
            if let Some(numb) = nv {
                let byte: u8 = #[verifier::truncate] (numb as u8);
                write_reg(b, *d as usize, Value::Char(byte as char));
            }
            apply_tail(b, i, w);
        },
        Instruction::ArrayLength(d, a) => {
            let v = match &b.state.registers[*a as usize] {
                Value::Bytes(bs) => Value::Number(bs.len() as i128),
                _ => Value::Invalid,
            };
            write_reg(b, *d as usize, v);
            apply_tail(b, i, w);
        },
        Instruction::NewInstance(r, ty) => {
            let v = match dex.get_type_name(*ty) {
                Some(s) => Value::Object { ty: s.clone() },
                None => Value::Unknown { ty: "UNKNOWN".to_owned() },
            };
            write_reg(b, *r as usize, v);
            apply_tail(b, i, w);
        },
        Instruction::ArrayGetByte(d, a, ix) => {
            let v = match (&b.state.registers[*a as usize], &b.state.registers[*ix as usize]) {
                (Value::Bytes(arr), Value::Number(n)) => {
                    let nn = *n;
                    if 0 <= nn && nn < arr.len() as i128 {
                        Value::Byte(arr[nn as usize])
                    } else {
                        Value::Empty
                    }
                },
                _ => Value::Empty,
            };
            write_reg(b, *d as usize, v);
            apply_tail(b, i, w);
        },
        Instruction::ArrayGetChar(d, a, ix) => {
            let v = match (&b.state.registers[*a as usize], &b.state.registers[*ix as usize]) {
                (Value::Bytes(arr), Value::Number(n)) => {
                    let nn = *n;
                    if 0 <= nn && nn < arr.len() as i128 {
                        Value::Char(arr[nn as usize] as char)
                    } else {
                        Value::Empty
                    }
                },
                _ => Value::Empty,
            };
            write_reg(b, *d as usize, v);
            apply_tail(b, i, w);
        },
        Instruction::ArrayPutByte(s, a, ix) => {
            let idx_opt = match &b.state.registers[*ix as usize] {
                Value::Number(n) => Some(*n),
                _ => None,
            };
            let byte_opt = match &b.state.registers[*s as usize] {
                Value::Byte(bb) => Some(*bb),
                _ => None,
            };
            if let (Some(nn), Some(bb)) = (idx_opt, byte_opt) {
                let newv = match &b.state.registers[*a as usize] {
                    Value::Bytes(arr) => {
                        if 0 <= nn && nn < arr.len() as i128 {
                            let mut arr2 = arr.clone();
                            arr2.set(nn as usize, bb);
                            proof {
                                assert(arr2@ =~= arr@.update(nn as int, bb));
                            }
                            Some(Value::Bytes(arr2))
                        } else {
                            None
                        }
                    },
                    _ => None,
                };
                if let Some(v) = newv {
                    write_reg(b, *a as usize, v);
                }
            }
            apply_tail(b, i, w);
        },
        Instruction::ArrayPutChar(s, a, ix) => {
            let idx_opt = match &b.state.registers[*ix as usize] {
                Value::Number(n) => Some(*n),
                _ => None,
            };
            let char_opt = match &b.state.registers[*s as usize] {
                Value::Char(cc) => Some(*cc),
                _ => None,
            };
            if let (Some(nn), Some(cc)) = (idx_opt, char_opt) {
                let newv = match &b.state.registers[*a as usize] {
                    Value::Bytes(arr) => {
                        if 0 <= nn && nn < arr.len() as i128 {
                            let mut arr2 = arr.clone();
                            let byte: u8 = #[verifier::truncate] (cc as u8);
                            arr2.set(nn as usize, byte);
                            proof {
                                assert(arr2@ =~= arr@.update(nn as int, (cc as u8)));
                            }
                            Some(Value::Bytes(arr2))
                        } else {
                            None
                        }
                    },
                    _ => None,
                };
                if let Some(v) = newv {
                    write_reg(b, *a as usize, v);
                }
            }
            apply_tail(b, i, w);
        },
        Instruction::StaticGet(d, field) => {
            write_reg(b, *d as usize, Value::Empty);
            set_static_read(b, dex, *field);
            apply_tail(b, i, w);
        },
        Instruction::StaticGetWide(d, field) => {
            write_reg(b, *d as usize, Value::Empty);
            write_reg(b, (*d as usize) + 1, Value::Empty);
            set_static_read(b, dex, *field);
            apply_tail(b, i, w);
        },
        Instruction::InstanceGet(d, _, _) => {
            write_reg(b, *d as usize, Value::Empty);
            apply_tail(b, i, w);
        },
        Instruction::InstanceGetWide(d, _, _) => {
            write_reg(b, *d as usize, Value::Empty);
            write_reg(b, (*d as usize) + 1, Value::Empty);
            apply_tail(b, i, w);
        },
        Instruction::Move(d, s) => {
            let v = b.state.registers[*s as usize].clone();
            write_reg(b, *d as usize, v);
            apply_tail(b, i, w);
        },
        Instruction::MoveObject(d, s) => {
            let v = b.state.registers[*s as usize].clone();
            write_reg(b, *d as usize, v);
            apply_tail(b, i, w);
        },
        Instruction::Move16(d, s) => {
            let v = b.state.registers[*s as usize].clone();
            write_reg(b, *d as usize, v);
            apply_tail(b, i, w);
        },
        Instruction::MoveObject16(d, s) => {
            let v = b.state.registers[*s as usize].clone();
            write_reg(b, *d as usize, v);
            apply_tail(b, i, w);
        },
        Instruction::MoveResult(r) => {
            bind_move_result(b, *r as usize);
            apply_tail(b, i, w);
        },
        Instruction::MoveResultWide(r) => {
            bind_move_result(b, *r as usize);
            apply_tail(b, i, w);
        },
        Instruction::MoveResultObject(r) => {
            bind_move_result(b, *r as usize);
            apply_tail(b, i, w);
        },
        Instruction::MoveFrom16(d, _) => {
            write_reg(b, *d as usize, Value::Empty);
            apply_tail(b, i, w);
        },
        Instruction::MoveWideFrom16(d, _) => {
            write_reg(b, *d as usize, Value::Empty);
            apply_tail(b, i, w);
        },
        Instruction::MoveObjectFrom16(d, _) => {
            write_reg(b, *d as usize, Value::Empty);
            apply_tail(b, i, w);
        },
        Instruction::MoveWide(d, _) => {
            write_reg(b, *d as usize, Value::Empty);
            apply_tail(b, i, w);
        },
        Instruction::MoveWide16(d, _) => {
            write_reg(b, *d as usize, Value::Empty);
            apply_tail(b, i, w);
        },
        _ => {
            apply_tail(b, i, w);
        },
    }
}

/// A step never changes the branch's identity or parent link, keeps the
/// register count of the branch and of every queued fork, and only ever
/// turns the taint flag on.
#[verifier::rlimit(100)]
#[verifier::spinoff_prover]
pub proof fn lemma_step_out_wf(
    pre: ABranch,
    m: Map<i64, (u32, Instruction)>,
    dexv: ADexSymbols,
    conservative: bool,
    log: Seq<(u64, i64)>,
    n: int,
)
    requires
        pre.state.registers.len() == n,
    ensures
        ({
            let out = step_spec(pre, m, dexv, conservative, log);
            &&& out.post.state.registers.len() == n
            &&& out.post.id == pre.id
            &&& out.post.parent_id == pre.parent_id
            &&& (pre.state.tainted ==> out.post.state.tainted)
            &&& forall|k: int|
                0 <= k < out.adds.len() ==> (#[trigger] out.adds[k]).1.state.registers.len() == n
        }),
{
    let out = step_spec(pre, m, dexv, conservative, log);
    if !(pre.pc != 0 && pre.previous_pc == pre.pc) && m.dom().contains(pre.pc) {
        let i = m[pre.pc].1;
        let mid = ABranch { previous_pc: pre.pc, ..pre };
        if spec_regs_ok(i, n) {
            match i {
                Instruction::Switch(_, table_off) => {
                    let payload = (mid.pc + table_off) as i64;
                    if m.dom().contains(payload) {
                        match m[payload].1 {
                            Instruction::SwitchData(sd) => {
                                assert(forall|k: int|
                                    0 <= k < out.adds.len() ==> (
                                    #[trigger] out.adds[k]).1.state.registers.len() == n);
                            },
                            _ => {},
                        }
                    }
                },
                _ => {},
            }
        }
    }
}

/// Whether the instruction can move the program counter somewhere other
/// than the fall-through successor.
pub open spec fn spec_is_jump(i: Instruction) -> bool {
    ||| i matches Instruction::Goto8(_)
    ||| i matches Instruction::Goto16(_)
    ||| i matches Instruction::Goto32(_)
    ||| i matches Instruction::Test(_, _, _, _)
    ||| i matches Instruction::TestZero(_, _, _)
}

/// The program counter advances monotonically along straight-line code:
/// unless the instruction at the branch's offset is a goto or a conditional
/// test, one step never moves the program counter backwards; and a
/// conditional test either falls through forwards or jumps exactly by its
/// displacement.
#[verifier::rlimit(100)]
#[verifier::spinoff_prover]
pub proof fn lemma_pc_monotone(
    pre: ABranch,
    m: Map<i64, (u32, Instruction)>,
    dexv: ADexSymbols,
    conservative: bool,
    log: Seq<(u64, i64)>,
)
    requires
        map_wf(m),
        pre.pc >= 0,
    ensures
        ({
            let out = step_spec(pre, m, dexv, conservative, log);
            &&& !(m.dom().contains(pre.pc) && spec_is_jump(m[pre.pc].1)) ==> out.post.pc >= pre.pc
            &&& m.dom().contains(pre.pc) ==> (m[pre.pc].1 matches Instruction::Test(_, _, _, off)
                ==> (out.post.pc >= pre.pc || out.post.pc == pre.pc + off))
            &&& m.dom().contains(pre.pc) ==> (m[pre.pc].1 matches Instruction::TestZero(_, _, off)
                ==> (out.post.pc >= pre.pc || out.post.pc == pre.pc + off))
        }),
{
}

/// Move-result binding: an invoke instruction makes the call the branch's
/// pending event, and when the following instruction is a `move-result`
/// into register `r`, the step after the invoke leaves exactly that call in
/// `r` as a deferred value.
#[verifier::rlimit(100)]
#[verifier::spinoff_prover]
pub proof fn lemma_move_result_binding(
    pre: ABranch,
    m: Map<i64, (u32, Instruction)>,
    dexv: ADexSymbols,
    conservative: bool,
    log: Seq<(u64, i64)>,
    log2: Seq<(u64, i64)>,
    r: u8,
)
    requires
        map_wf(m),
        !(pre.pc != 0 && pre.previous_pc == pre.pc),
        m.dom().contains(pre.pc),
        m[pre.pc].1 matches Instruction::Invoke(kind, midx, iregs) && spec_invoke_ok(dexv, midx),
        spec_regs_ok(m[pre.pc].1, pre.state.registers.len() as int),
        m[pre.pc].0 >= 2,
        ({
            let mid = step_spec(pre, m, dexv, conservative, log).post;
            &&& m.dom().contains(mid.pc)
            &&& m[mid.pc].1 == Instruction::MoveResult(r)
            &&& (r as int) < pre.state.registers.len()
        }),
    ensures
        ({
            let mid = step_spec(pre, m, dexv, conservative, log).post;
            let fin = step_spec(mid, m, dexv, conservative, log2).post;
            &&& mid.state.last_instruction is Some
            &&& mid.state.last_instruction.unwrap() is FunctionCall
            &&& fin.state.registers[r as int] == AValue::Variable(
                Box::new(mid.state.last_instruction.unwrap()),
            )
        }),
{
    let mid = step_spec(pre, m, dexv, conservative, log).post;
    assert(mid.pc == pre.pc + ((m[pre.pc].0 / 2) as i64));
    assert(mid.previous_pc == pre.pc);
    assert(!(mid.pc != 0 && mid.previous_pc == mid.pc));
}

/// The string-pool load, executably; see [`spec_const_string`].
fn const_string_value(dex: &DexSymbols, idx: u32) -> (res: Value)
    ensures
        res.deep_view() == spec_const_string(dex.deep_view(), idx),
{
    match dex.get_string(idx) {
        Some(s) => Value::String(s.clone()),
        None => Value::Unknown { ty: "Ljava/lang/String;".to_owned() },
    }
}

/// Record a static read as the branch's pending event when the field
/// record resolves; see [`spec_static_get`] for the whole arm.
fn set_static_read(b: &mut Branch, dex: &DexSymbols, field: u32)
    ensures
        final(b).deep_view() == (if field < dex.deep_view().fields.len() {
            ({
                let fd = dex.deep_view().fields[field as int];
                with_li(
                    old(b).deep_view(),
                    Some(
                        ALastInstruction::ReadStaticField {
                            class_name: spec_type_name_or_empty(dex.deep_view(), fd.class_idx),
                            class: spec_class_or_default(dex.deep_view(), fd.class_idx),
                            field: fd,
                            name: fd.name,
                        },
                    ),
                )
            })
        } else {
            old(b).deep_view()
        }),
{
    if (field as usize) < dex.fields.len() {
        let fd = dex.fields[field as usize].clone();
        let class_name = type_name_or_empty(dex, fd.class_idx);
        let class = class_or_default(dex, fd.class_idx);
        let name = fd.name.clone();
        b.state.last_instruction = Some(
            LastInstruction::ReadStaticField { class_name, class, field: fd, name },
        );
    }
}

/// Bind the pending call into the destination register; see
/// [`spec_move_result`].
fn bind_move_result(b: &mut Branch, r: usize)
    requires
        r < old(b).state.registers@.len(),
    ensures
        final(b).deep_view() == spec_move_result(old(b).deep_view(), r as int),
{
    let newv = match &b.state.last_instruction {
        Some(li) => {
            if matches!(li, LastInstruction::FunctionCall { .. }) {
                Some(Value::Variable(Box::new(li.clone())))
            } else {
                None
            }
        },
        None => None,
    };
    if let Some(v) = newv {
        write_reg(b, r, v);
    }
}

/// Increment the visit counter at `pc`, saturating; see
/// [`spec_count_visit`].
fn count_visit(lc: &mut HashMap<i64, u32>, pc: i64)
    ensures
        final(lc)@ == spec_count_visit(old(lc)@, pc),
{
    let prev: u32 = match lc.get(&pc) {
        Some(v) => *v,
        None => 0,
    };
    let next: u32 = if prev < u32::MAX {
        prev + 1
    } else {
        prev
    };
    lc.insert(pc, next);
}

/// Append the id of every revisit-log entry to the taint requests.
fn push_log_ids(to_taint: &mut Vec<u64>, log: &Vec<(u64, i64)>)
    ensures
        final(to_taint)@ == old(to_taint)@ + log@.map_values(|e: (u64, i64)| e.0),
{
    let ghost t0 = to_taint@;
    let len = log.len();
    let mut j: usize = 0;
    while j < len
        invariant
            len == log@.len(),
            j <= len,
            to_taint@ == t0 + log@.take(j as int).map_values(|e: (u64, i64)| e.0),
        decreases len - j,
    {
        proof {
            assert(log@.take(j + 1).map_values(|e: (u64, i64)| e.0) =~= log@.take(
                j as int,
            ).map_values(|e: (u64, i64)| e.0).push(log@[j as int].0));
        }
        let idv = log[j].0;
        to_taint.push(idv);
        j += 1;
    }
    proof {
        assert(log@.take(len as int) =~= log@);
    }
}

} // verus!
