//! The concretizer bridge against a small in-memory emulator.

use dexflow::dex::Method;
use dexflow::vm::{VmError, VmHandle, VmInit, VmRegister, VmValue};
use dexflow::{BinaryOp, LastInstruction, Value};

/// A minimal emulator: object creation always succeeds, every call resolves
/// through the by-name runtime path, and the return slot is preset.
struct MockVm {
    ret: Option<VmValue>,
    calls: usize,
    new_instances: usize,
}

impl MockVm {
    fn returning(ret: Option<VmValue>) -> MockVm {
        MockVm { ret, calls: 0, new_instances: 0 }
    }
}

impl VmHandle for MockVm {
    fn new_instance(&mut self, _ty: String, _init: VmInit) -> Result<VmRegister, VmError> {
        self.new_instances += 1;
        Ok(VmRegister::Reference(self.new_instances as u64))
    }

    fn lookup_method(&mut self, _class_name: &String, _method: &Method) -> Option<(String, bool)> {
        None
    }

    fn start(
        &mut self,
        _method_idx: u32,
        _file_id: &String,
        _args: Vec<VmRegister>,
    ) -> Result<(), VmError> {
        Ok(())
    }

    fn invoke_runtime(
        &mut self,
        _file_id: &String,
        _method_idx: u32,
        _args: Vec<VmRegister>,
    ) -> Result<(), VmError> {
        Ok(())
    }

    fn invoke_runtime_with_method(
        &mut self,
        _class_name: &String,
        _method: &Method,
        _args: Vec<VmRegister>,
    ) -> Result<(), VmError> {
        self.calls += 1;
        Ok(())
    }

    fn get_return_object(&mut self) -> Option<VmValue> {
        self.ret.take()
    }
}

fn length_call(args: Vec<Value>, result: Option<Value>) -> LastInstruction {
    LastInstruction::FunctionCall {
        name: String::from("length"),
        signature: String::from("Ljava/lang/String;->length()I"),
        class_name: String::from("Ljava/lang/String;"),
        class: dexflow::dex::Class {
            class_name: String::from("Ljava/lang/String;"),
            class_idx: 0,
            methods: vec![],
        },
        method: Method {
            method_idx: 0,
            class_idx: 0,
            proto_idx: 0,
            method_name: String::from("length"),
        },
        args,
        result,
    }
}

#[test]
fn deferred_binary_operation_replays_to_the_constant_fold() {
    let mut vm = MockVm::returning(None);
    let mut v = Value::Variable(Box::new(LastInstruction::BinaryOperation {
        left: Value::Number(6),
        right: Value::Number(7),
        operation: BinaryOp::Mul,
    }));
    let r = v.try_get_value(&mut vm).unwrap();
    assert!(matches!(r, Value::Number(42)));
}

#[test]
fn nested_deferred_operations_replay_recursively() {
    let mut vm = MockVm::returning(None);
    let inner = LastInstruction::BinaryOperation {
        left: Value::Number(2),
        right: Value::Number(3),
        operation: BinaryOp::Mul,
    };
    let mut v = Value::Variable(Box::new(LastInstruction::BinaryOperation {
        left: Value::Variable(Box::new(inner)),
        right: Value::Number(4),
        operation: BinaryOp::Add,
    }));
    let r = v.try_get_value(&mut vm).unwrap();
    assert!(matches!(r, Value::Number(10)));
}

#[test]
fn constants_concretize_to_themselves() {
    let mut vm = MockVm::returning(None);
    let mut v = Value::Number(5);
    assert!(matches!(v.try_get_value(&mut vm).unwrap(), Value::Number(5)));
    let mut s = Value::String(String::from("x"));
    assert!(matches!(s.try_get_value(&mut vm).unwrap(), Value::String(st) if st == "x"));
}

#[test]
fn integer_returns_lift_under_the_boolean_hint() {
    let mut vm = MockVm::returning(Some(VmValue::Int(1)));
    let mut call = length_call(
        vec![Value::Number(1)],
        Some(Value::Object { ty: String::from("Z") }),
    );
    let r = call.execute(&mut vm).unwrap();
    assert!(matches!(r, Value::Boolean(true)));
    match call {
        LastInstruction::FunctionCall { result, .. } => {
            assert!(matches!(result, Some(Value::Boolean(true))));
        },
        _ => panic!("the call should keep its shape"),
    }
}

#[test]
fn integer_returns_lift_to_numbers_without_the_hint() {
    let mut vm = MockVm::returning(Some(VmValue::Int(7)));
    let mut call = length_call(vec![], Some(Value::Object { ty: String::from("I") }));
    assert!(matches!(call.execute(&mut vm).unwrap(), Value::Number(7)));
}

#[test]
fn string_objects_and_arrays_lift_back() {
    let mut vm = MockVm::returning(Some(VmValue::Object {
        class_name: String::from("Ljava/lang/String;"),
        text: String::from("hi"),
    }));
    let mut call = length_call(vec![], None);
    assert!(matches!(call.execute(&mut vm).unwrap(), Value::String(s) if s == "hi"));

    let mut vm2 = MockVm::returning(Some(VmValue::Array(vec![1, 2, 3])));
    let mut call2 = length_call(vec![], None);
    assert!(matches!(call2.execute(&mut vm2).unwrap(), Value::Bytes(b) if b == vec![1, 2, 3]));

    let mut vm3 = MockVm::returning(Some(VmValue::Object {
        class_name: String::from("LOther;"),
        text: String::new(),
    }));
    let mut call3 = length_call(vec![], None);
    assert!(matches!(call3.execute(&mut vm3).unwrap(), Value::Object { ty } if ty == "LOther;"));

    let mut vm4 = MockVm::returning(None);
    let mut call4 = length_call(vec![], None);
    assert!(matches!(call4.execute(&mut vm4).unwrap(), Value::Invalid));

    let mut vm5 = MockVm::returning(Some(VmValue::Short(-2)));
    let mut call5 = length_call(vec![], None);
    assert!(matches!(call5.execute(&mut vm5).unwrap(), Value::Number(-2)));

    let mut vm6 = MockVm::returning(Some(VmValue::Byte(9)));
    let mut call6 = length_call(vec![], None);
    assert!(matches!(call6.execute(&mut vm6).unwrap(), Value::Byte(9)));
}

#[test]
fn unrealizable_arguments_fail_with_a_linker_error() {
    let mut vm = MockVm::returning(Some(VmValue::Int(0)));
    let mut call = length_call(vec![Value::Unknown { ty: String::from("I") }], None);
    assert!(matches!(call.execute(&mut vm), Err(VmError::LinkerError)));

    let mut call2 = length_call(vec![Value::Empty], None);
    assert!(matches!(call2.execute(&mut vm), Err(VmError::LinkerError)));
}

#[test]
fn field_events_cannot_be_replayed() {
    let mut vm = MockVm::returning(None);
    let mut li = LastInstruction::ReadStaticField {
        class_name: String::from("LHolder;"),
        class: dexflow::dex::Class {
            class_name: String::from("LHolder;"),
            class_idx: 0,
            methods: vec![],
        },
        field: dexflow::dex::FieldDef { class_idx: 0, name: String::from("f") },
        name: String::from("f"),
    };
    assert!(matches!(li.execute(&mut vm), Err(VmError::LinkerError)));
}

#[test]
fn arguments_are_marshalled_into_the_emulator() {
    let mut vm = MockVm::returning(Some(VmValue::Int(0)));
    let mut call = length_call(
        vec![
            Value::String(String::from("s")),
            Value::Bytes(vec![1]),
            Value::Object { ty: String::from("LFoo;") },
            Value::Number(3),
        ],
        None,
    );
    call.execute(&mut vm).unwrap();
    assert_eq!(vm.new_instances, 3);
    assert_eq!(vm.calls, 1);
}
