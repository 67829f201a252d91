//! End-to-end runs of the flow engine on small hand-assembled methods.

use dexflow::dex::{CodeItem, Class, DexSymbols, Method, Proto};
use dexflow::flow::InstructionFlow;
use dexflow::instr::{Instruction, InvokeKind, SwitchData, TestFunction};
use dexflow::value::BinaryOp;
use dexflow::{LastInstruction, Value};

fn empty_dex() -> DexSymbols {
    DexSymbols {
        methods: vec![],
        protos: vec![],
        fields: vec![],
        types: vec![],
        strings: vec![],
        classes: vec![],
        implementors: vec![],
    }
}

fn run_to_quiescence(flow: &mut InstructionFlow) {
    let mut guard = 0;
    while !flow.is_done() && guard < 50 {
        flow.next_instruction();
        guard += 1;
    }
    assert!(flow.is_done());
}

#[test]
fn xor_obfuscation_folds_to_a_constant() {
    let code = CodeItem {
        register_size: 2,
        insns: vec![
            (4, 0, Instruction::ConstLit16(0, 0x2A)),
            (4, 2, Instruction::ConstLit16(1, 0x15)),
            (2, 4, Instruction::Binary(BinaryOp::Xor, 0, 1)),
            (2, 5, Instruction::Return(0)),
        ],
    };
    let mut flow = InstructionFlow::new(code, empty_dex(), false);
    flow.reset(0);
    run_to_quiescence(&mut flow);
    let branches = flow.get_all_branches();
    assert_eq!(branches.len(), 1);
    let b = &branches[0];
    assert!(b.finished);
    assert!(!b.state.tainted);
    assert!(matches!(b.state.registers[0], Value::Number(63)));
}

#[test]
fn symbolic_test_forks_and_taints_both_paths() {
    let code = CodeItem {
        register_size: 3,
        insns: vec![
            (2, 0, Instruction::ConstLit4(0, 0)),
            (4, 1, Instruction::TestZero(TestFunction::NotEqual, 1, 5)),
            (2, 3, Instruction::ConstLit4(2, 1)),
            (2, 4, Instruction::Return(2)),
            (2, 6, Instruction::ConstLit4(2, 2)),
            (2, 7, Instruction::Return(2)),
        ],
    };
    let mut flow = InstructionFlow::new(code, empty_dex(), false);
    flow.reset(0);
    run_to_quiescence(&mut flow);
    let branches = flow.get_all_branches();
    assert_eq!(branches.len(), 2);
    let mut saw_one = false;
    let mut saw_two = false;
    for b in branches.iter() {
        assert!(b.finished);
        assert!(b.state.tainted);
        match b.state.registers[2] {
            Value::Number(1) => saw_one = true,
            Value::Number(2) => saw_two = true,
            _ => panic!("unexpected register contents"),
        }
    }
    assert!(saw_one && saw_two);
    let parent = branches
        .iter()
        .find(|b| matches!(b.state.registers[2], Value::Number(1)))
        .unwrap();
    let child = branches
        .iter()
        .find(|b| matches!(b.state.registers[2], Value::Number(2)))
        .unwrap();
    assert_eq!(child.parent_id, Some(parent.id));
}

#[test]
fn known_condition_never_forks_and_takes_the_true_path() {
    let code = CodeItem {
        register_size: 2,
        insns: vec![
            (4, 0, Instruction::ConstLit16(0, 7)),
            (4, 2, Instruction::TestZero(TestFunction::GreaterThan, 0, 5)),
            (2, 4, Instruction::ConstLit4(1, 1)),
            (2, 5, Instruction::Return(1)),
            (2, 7, Instruction::ConstLit4(1, 2)),
            (2, 8, Instruction::Return(1)),
        ],
    };
    let mut flow = InstructionFlow::new(code, empty_dex(), false);
    flow.reset(0);
    run_to_quiescence(&mut flow);
    let branches = flow.get_all_branches();
    assert_eq!(branches.len(), 1);
    assert!(!branches[0].state.tainted);
    assert!(matches!(branches[0].state.registers[1], Value::Number(2)));
}

#[test]
fn loop_back_edge_taints_and_stops_forking() {
    let code = CodeItem {
        register_size: 2,
        insns: vec![
            (2, 0, Instruction::ConstLit4(0, 0)),
            (4, 1, Instruction::TestZero(TestFunction::Equal, 1, 4)),
            (2, 3, Instruction::Goto8(-2)),
            (2, 5, Instruction::ReturnVoid),
        ],
    };
    let mut flow = InstructionFlow::new(code, empty_dex(), false);
    flow.reset(0);
    for _ in 0..10 {
        flow.next_instruction();
    }
    let branches = flow.get_all_branches();
    assert_eq!(branches.len(), 2);
    let mut looping_tainted = false;
    let mut fork_seen = false;
    for b in branches.iter() {
        if b.finished {
            fork_seen = true;
        } else {
            looping_tainted = b.state.tainted;
            let visits = b.state.loop_count.get(&1).copied().unwrap_or(0);
            assert!(visits >= 1);
        }
    }
    assert!(looping_tainted);
    assert!(fork_seen);
}

#[test]
fn switch_fans_out_one_child_per_target() {
    let code = CodeItem {
        register_size: 1,
        insns: vec![
            (6, 0, Instruction::Switch(0, 4)),
            (2, 3, Instruction::ReturnVoid),
            (
                2,
                4,
                Instruction::SwitchData(SwitchData {
                    targets: vec![(0, 8), (1, 10), (2, 12), (3, 14)],
                }),
            ),
            (2, 8, Instruction::ReturnVoid),
            (2, 10, Instruction::ReturnVoid),
            (2, 12, Instruction::ReturnVoid),
            (2, 14, Instruction::ReturnVoid),
        ],
    };
    let mut flow = InstructionFlow::new(code, empty_dex(), false);
    flow.reset(0);
    flow.next_instruction();
    let branches = flow.get_all_branches();
    assert_eq!(branches.len(), 5);
    assert!(branches[0].finished);
    let mut pcs: Vec<i64> = branches.iter().skip(1).map(|b| b.pc).collect();
    pcs.sort();
    assert_eq!(pcs, vec![8, 10, 12, 14]);
}

#[test]
fn interface_call_with_single_implementor_is_retargeted() {
    let dex = DexSymbols {
        methods: vec![Method {
            method_idx: 0,
            class_idx: 1,
            proto_idx: 0,
            method_name: String::from("doIt"),
        }],
        protos: vec![Proto {
            signature: String::from("()Ljava/lang/Object;"),
            return_type: String::from("Ljava/lang/Object;"),
        }],
        fields: vec![],
        types: vec![String::from("V"), String::from("LIface;")],
        strings: vec![],
        classes: vec![Class {
            class_name: String::from("LIface;"),
            class_idx: 1,
            methods: vec![],
        }],
        implementors: vec![(
            1,
            Class {
                class_name: String::from("LImpl;"),
                class_idx: 7,
                methods: vec![Method {
                    method_idx: 9,
                    class_idx: 7,
                    proto_idx: 0,
                    method_name: String::from("doIt"),
                }],
            },
        )],
    };
    let code = CodeItem {
        register_size: 1,
        insns: vec![
            (6, 0, Instruction::Invoke(InvokeKind::Interface, 0, vec![0])),
            (2, 3, Instruction::ReturnVoid),
        ],
    };
    let mut flow = InstructionFlow::new(code, dex, false);
    flow.reset(0);
    flow.next_instruction();
    let branches = flow.get_all_branches();
    assert_eq!(branches.len(), 1);
    match &branches[0].state.last_instruction {
        Some(LastInstruction::FunctionCall { name, class_name, signature, args, method, .. }) => {
            assert_eq!(class_name, "LImpl;");
            assert_eq!(name, "doIt");
            assert_eq!(signature, "LImpl;->doIt()Ljava/lang/Object;");
            assert_eq!(method.method_idx, 9);
            assert!(matches!(&args[0], Value::Object { ty } if ty == "LImpl;"));
        },
        _ => panic!("expected a call event"),
    }
}

#[test]
fn move_result_binds_the_preceding_call() {
    let dex = DexSymbols {
        methods: vec![Method {
            method_idx: 0,
            class_idx: 0,
            proto_idx: 0,
            method_name: String::from("length"),
        }],
        protos: vec![Proto { signature: String::from("()I"), return_type: String::from("I") }],
        fields: vec![],
        types: vec![String::from("Ljava/lang/String;")],
        strings: vec![],
        classes: vec![],
        implementors: vec![],
    };
    let code = CodeItem {
        register_size: 1,
        insns: vec![
            (6, 0, Instruction::Invoke(InvokeKind::Virtual, 0, vec![0])),
            (2, 3, Instruction::MoveResult(0)),
            (2, 4, Instruction::ReturnVoid),
        ],
    };
    let mut flow = InstructionFlow::new(code, dex, false);
    flow.reset(0);
    run_to_quiescence(&mut flow);
    let branches = flow.get_all_branches();
    assert_eq!(branches.len(), 1);
    match &branches[0].state.registers[0] {
        Value::Variable(b) => match &**b {
            LastInstruction::FunctionCall { signature, result, .. } => {
                assert_eq!(signature, "Ljava/lang/String;->length()I");
                assert!(matches!(result, Some(Value::Object { ty }) if ty == "I"));
            },
            _ => panic!("expected the bound value to carry the call"),
        },
        _ => panic!("expected a deferred value in the destination register"),
    }
}

#[test]
fn const_loads_resolve_through_the_symbol_view() {
    let dex = DexSymbols {
        methods: vec![],
        protos: vec![],
        fields: vec![],
        types: vec![String::from("LFoo;")],
        strings: vec![String::from("hello")],
        classes: vec![],
        implementors: vec![],
    };
    let code = CodeItem {
        register_size: 3,
        insns: vec![
            (4, 0, Instruction::ConstString(0, 0)),
            (4, 2, Instruction::ConstString(1, 9)),
            (4, 4, Instruction::NewInstance(2, 0)),
            (2, 6, Instruction::ReturnVoid),
        ],
    };
    let mut flow = InstructionFlow::new(code, dex, false);
    flow.reset(0);
    run_to_quiescence(&mut flow);
    let b = &flow.get_all_branches()[0];
    assert!(matches!(&b.state.registers[0], Value::String(s) if s == "hello"));
    assert!(matches!(&b.state.registers[1], Value::Unknown { ty } if ty == "Ljava/lang/String;"));
    assert!(matches!(&b.state.registers[2], Value::Object { ty } if ty == "LFoo;"));
}

#[test]
fn register_count_is_kept_through_forking() {
    let code = CodeItem {
        register_size: 4,
        insns: vec![
            (4, 0, Instruction::TestZero(TestFunction::Equal, 1, 4)),
            (2, 2, Instruction::ReturnVoid),
            (2, 4, Instruction::ReturnVoid),
        ],
    };
    let mut flow = InstructionFlow::new(code, empty_dex(), false);
    flow.reset(0);
    run_to_quiescence(&mut flow);
    for b in flow.get_all_branches().iter() {
        assert_eq!(b.state.registers.len(), 4);
    }
}

#[test]
fn finished_branches_are_not_stepped_again() {
    let code = CodeItem {
        register_size: 1,
        insns: vec![(2, 0, Instruction::ConstLit4(0, 3)), (2, 1, Instruction::Return(0))],
    };
    let mut flow = InstructionFlow::new(code, empty_dex(), false);
    flow.reset(0);
    run_to_quiescence(&mut flow);
    let pc_before = flow.get_all_branches()[0].pc;
    flow.next_instruction();
    flow.next_instruction();
    let b = &flow.get_all_branches()[0];
    assert_eq!(b.pc, pc_before);
    assert!(matches!(b.state.registers[0], Value::Number(3)));
}

#[test]
fn a_branch_on_a_missing_offset_is_finished() {
    let code = CodeItem {
        register_size: 1,
        insns: vec![(2, 0, Instruction::Goto8(5))],
    };
    let mut flow = InstructionFlow::new(code, empty_dex(), false);
    flow.reset(0);
    run_to_quiescence(&mut flow);
    let b = &flow.get_all_branches()[0];
    assert!(b.finished);
    assert_eq!(b.pc, 5);
}

#[test]
fn not_impl_taints_and_clears_every_register() {
    let code = CodeItem {
        register_size: 2,
        insns: vec![
            (4, 0, Instruction::ConstLit16(0, 5)),
            (2, 2, Instruction::NotImpl(0, 0)),
            (2, 3, Instruction::ReturnVoid),
        ],
    };
    let mut flow = InstructionFlow::new(code, empty_dex(), false);
    flow.reset(0);
    run_to_quiescence(&mut flow);
    let b = &flow.get_all_branches()[0];
    assert!(b.state.tainted);
    assert!(matches!(b.state.registers[0], Value::Empty));
    assert!(matches!(b.state.registers[1], Value::Empty));
}

#[test]
fn conservative_mode_taints_a_symbolic_fork() {
    let insns = || vec![
        (4i32 as u32, 0i64, Instruction::ConstString(0, 5)),
        (4, 2, Instruction::TestZero(TestFunction::Equal, 0, 5)),
        (2, 4, Instruction::ReturnVoid),
        (2, 7, Instruction::ReturnVoid),
    ];
    let code = CodeItem { register_size: 1, insns: insns() };
    let mut flow = InstructionFlow::new(code, empty_dex(), true);
    flow.reset(0);
    run_to_quiescence(&mut flow);
    for b in flow.get_all_branches().iter() {
        assert!(b.state.tainted);
    }
    let code2 = CodeItem { register_size: 1, insns: insns() };
    let mut flow2 = InstructionFlow::new(code2, empty_dex(), false);
    flow2.reset(0);
    run_to_quiescence(&mut flow2);
    for b in flow2.get_all_branches().iter() {
        assert!(!b.state.tainted);
    }
}

#[test]
fn move_result_without_a_pending_call_changes_nothing() {
    let dex = DexSymbols {
        methods: vec![],
        protos: vec![],
        fields: vec![dexflow::dex::FieldDef { class_idx: 0, name: String::from("f") }],
        types: vec![String::from("LHolder;")],
        strings: vec![],
        classes: vec![],
        implementors: vec![],
    };
    let code = CodeItem {
        register_size: 2,
        insns: vec![
            (4, 0, Instruction::ConstLit16(1, 9)),
            (4, 2, Instruction::StaticGet(0, 0)),
            (2, 4, Instruction::MoveResult(1)),
            (2, 5, Instruction::ReturnVoid),
        ],
    };
    let mut flow = InstructionFlow::new(code, dex, false);
    flow.reset(0);
    run_to_quiescence(&mut flow);
    let b = &flow.get_all_branches()[0];
    assert!(matches!(b.state.registers[1], Value::Number(9)));
    assert!(matches!(b.state.registers[0], Value::Empty));
}

#[test]
fn array_reads_writes_and_casts_track_concrete_bytes() {
    let code = CodeItem {
        register_size: 5,
        insns: vec![
            (4, 0, Instruction::ConstLit16(1, 1)),
            (4, 2, Instruction::ConstLit16(2, 300)),
            (2, 4, Instruction::IntToByte(2, 2)),
            (2, 5, Instruction::ArrayPutByte(2, 0, 1)),
            (2, 6, Instruction::ArrayGetByte(3, 0, 1)),
            (2, 7, Instruction::ArrayLength(4, 0)),
            (2, 8, Instruction::ReturnVoid),
        ],
    };
    let mut flow = InstructionFlow::new(code, empty_dex(), false);
    flow.reset(0);
    run_to_quiescence(&mut flow);
    let b = &flow.get_all_branches()[0];
    // The narrowing cast keeps only the low byte of 300.
    assert!(matches!(b.state.registers[2], Value::Byte(44)));
    // The array register never held concrete bytes, so the put is skipped,
    // the read clears its destination and the length is unmodellable.
    assert!(matches!(b.state.registers[3], Value::Empty));
    assert!(matches!(b.state.registers[4], Value::Invalid));
}

#[test]
fn moves_copy_and_wide_moves_clear() {
    let code = CodeItem {
        register_size: 4,
        insns: vec![
            (4, 0, Instruction::ConstLit16(0, 5)),
            (2, 2, Instruction::Move(1, 0)),
            (4, 3, Instruction::MoveWideFrom16(2, 0)),
            (4, 5, Instruction::ConstLit16(3, 9)),
            (2, 7, Instruction::IntToChar(3, 3)),
            (2, 8, Instruction::ReturnVoid),
        ],
    };
    let mut flow = InstructionFlow::new(code, empty_dex(), false);
    flow.reset(0);
    run_to_quiescence(&mut flow);
    let b = &flow.get_all_branches()[0];
    assert!(matches!(b.state.registers[1], Value::Number(5)));
    assert!(matches!(b.state.registers[2], Value::Empty));
    assert!(matches!(b.state.registers[3], Value::Char('\t')));
}
