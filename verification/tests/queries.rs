//! The query surface: decision enumeration and call/field-event filtering.

use dexflow::dex::{CodeItem, DexSymbols, FieldDef, Method, Proto};
use dexflow::flow::InstructionFlow;
use dexflow::instr::{Instruction, InvokeKind, TestFunction};
use dexflow::{InstructionType, LastInstruction, Value};
use regex::Regex;

fn empty_dex() -> DexSymbols {
    DexSymbols {
        methods: vec![],
        protos: vec![],
        fields: vec![],
        types: vec![],
        strings: vec![],
        classes: vec![],
        implementors: vec![],
    }
}

fn string_length_dex() -> DexSymbols {
    DexSymbols {
        methods: vec![Method {
            method_idx: 0,
            class_idx: 0,
            proto_idx: 0,
            method_name: String::from("length"),
        }],
        protos: vec![Proto { signature: String::from("()I"), return_type: String::from("I") }],
        fields: vec![],
        types: vec![String::from("Ljava/lang/String;")],
        strings: vec![],
        classes: vec![],
        implementors: vec![],
    }
}

fn two_length_calls() -> CodeItem {
    CodeItem {
        register_size: 1,
        insns: vec![
            (6, 0, Instruction::Invoke(InvokeKind::Virtual, 0, vec![0])),
            (2, 3, Instruction::Nop),
            (6, 4, Instruction::Invoke(InvokeKind::Virtual, 0, vec![0])),
            (2, 7, Instruction::Nop),
            (2, 8, Instruction::ReturnVoid),
        ],
    }
}

#[test]
fn find_all_calls_regex_captures_both_calls() {
    let mut flow = InstructionFlow::new(two_length_calls(), string_length_dex(), false);
    let re = Regex::new(r"Ljava/lang/String;->length").unwrap();
    let hits = flow.find_all_calls_regex(&re);
    assert_eq!(hits.len(), 2);
    for b in hits.iter() {
        match &b.state.last_instruction {
            Some(LastInstruction::FunctionCall { signature, .. }) => {
                assert!(re.is_match(signature));
            },
            _ => panic!("expected a call event"),
        }
    }
}

#[test]
fn find_all_calls_matches_the_exact_signature() {
    let mut flow = InstructionFlow::new(two_length_calls(), string_length_dex(), false);
    let hits = flow.find_all_calls("Ljava/lang/String;->length()I");
    assert_eq!(hits.len(), 2);
}

#[test]
fn find_all_calls_with_a_foreign_signature_finds_nothing() {
    let mut flow = InstructionFlow::new(two_length_calls(), string_length_dex(), false);
    let hits = flow.find_all_calls("Lother/Class;->foo()V");
    assert_eq!(hits.len(), 0);
}

#[test]
fn find_all_calls_with_op_uses_the_predicate() {
    let mut flow = InstructionFlow::new(two_length_calls(), string_length_dex(), false);
    let hits = flow.find_all_calls_with_op(|s: &str| s.len() > 3);
    assert_eq!(hits.len(), 2);
}

#[test]
fn static_reads_are_found_by_field_name() {
    let dex = DexSymbols {
        methods: vec![],
        protos: vec![],
        fields: vec![FieldDef { class_idx: 0, name: String::from("SECRET") }],
        types: vec![String::from("LHolder;")],
        strings: vec![],
        classes: vec![],
        implementors: vec![],
    };
    let code = CodeItem {
        register_size: 1,
        insns: vec![
            (4, 0, Instruction::StaticGet(0, 0)),
            (2, 2, Instruction::Nop),
            (2, 3, Instruction::ReturnVoid),
        ],
    };
    let mut flow = InstructionFlow::new(code, dex, false);
    let hits = flow.find_all_static_reads("SECRET");
    assert!(hits.len() >= 1);
    match &hits[0].state.last_instruction {
        Some(LastInstruction::ReadStaticField { name, class_name, .. }) => {
            assert_eq!(name, "SECRET");
            assert_eq!(class_name, "LHolder;");
        },
        _ => panic!("expected a static read event"),
    }
    let mut flow2 = InstructionFlow::new(
        CodeItem { register_size: 1, insns: vec![(2, 0, Instruction::ReturnVoid)] },
        empty_dex(),
        false,
    );
    let re = Regex::new(r"SECRET").unwrap();
    assert_eq!(flow2.find_all_static_reads_regex(&re).len(), 0);
}

#[test]
fn static_writes_are_never_recorded_by_the_symbolic_engine() {
    let dex = DexSymbols {
        methods: vec![],
        protos: vec![],
        fields: vec![FieldDef { class_idx: 0, name: String::from("SECRET") }],
        types: vec![String::from("LHolder;")],
        strings: vec![],
        classes: vec![],
        implementors: vec![],
    };
    let code = CodeItem {
        register_size: 1,
        insns: vec![
            (4, 0, Instruction::StaticPut(0, 0)),
            (2, 2, Instruction::ReturnVoid),
        ],
    };
    let mut flow = InstructionFlow::new(code, dex, false);
    assert_eq!(flow.find_all_static_writes("SECRET").len(), 0);
    let mut flow2 = InstructionFlow::new(
        CodeItem { register_size: 1, insns: vec![(2, 0, Instruction::ReturnVoid)] },
        empty_dex(),
        false,
    );
    let re = Regex::new(r".*").unwrap();
    assert_eq!(flow2.find_all_static_writes_regex(&re).len(), 0);
}

#[test]
fn branch_decisions_are_collected_sorted_and_deduplicated() {
    let code = CodeItem {
        register_size: 2,
        insns: vec![
            (2, 0, Instruction::ConstLit4(0, 1)),
            (4, 1, Instruction::TestZero(TestFunction::Equal, 1, 5)),
            (4, 3, Instruction::Test(TestFunction::LessThan, 0, 1, 3)),
            (2, 5, Instruction::ReturnVoid),
            (2, 6, Instruction::ReturnVoid),
        ],
    };
    let mut flow = InstructionFlow::new(code, empty_dex(), false);
    let decisions = flow.get_all_branch_decisions();
    assert!(decisions.len() >= 2);
    for w in decisions.windows(2) {
        assert!(w[0].id <= w[1].id);
        assert!(!(w[0].id == w[1].id && w[0].previous_pc == w[1].previous_pc));
    }
}

#[test]
fn find_all_instruction_with_op_reports_the_matched_kind() {
    let mut flow = InstructionFlow::new(two_length_calls(), string_length_dex(), false);
    let hits = flow.find_all_instruction_with_op(InstructionType::FunctionCall, |s: &str| {
        s.starts_with("Ljava")
    });
    assert_eq!(hits.len(), 2);
}

#[test]
fn engine_accessors_expose_the_method_table() {
    let code = CodeItem {
        register_size: 1,
        insns: vec![(2, 0, Instruction::Nop), (2, 1, Instruction::ReturnVoid)],
    };
    let mut flow = InstructionFlow::new(code, empty_dex(), false);
    assert!(flow.get_instruction(0).is_some());
    assert!(flow.get_instruction(1).is_some());
    assert!(flow.get_instruction(9).is_none());
    assert_eq!(flow.get_method_map().len(), 2);
    assert!(flow.is_done());
    flow.reset(0);
    assert!(!flow.is_done());
    assert_eq!(flow.get_all_states().len(), 1);
    assert_eq!(flow.get_all_branches().len(), 1);
    assert_eq!(flow.get_all_branches()[0].pc, 0);
    assert!(flow.get_all_branches()[0].state.loop_count.is_empty());
}
