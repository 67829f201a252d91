//! The concretizer bridge.
//!
//! A deferred [`Value::Variable`] can be materialized into a concrete value
//! by replaying the captured event against an external emulator.  The
//! emulator is reached through the [`VmHandle`] trait: the engine decides
//! how to marshal arguments, which invoke path to take and how to lift the
//! returned value, and the handle performs the work.  Nothing is assumed of
//! the handle's answers: the lifting of whatever comes back is exact.

use vstd::prelude::*;
use crate::dex::Method;
use crate::value::{ALastInstruction, AValue, LastInstruction, Value, lemma_vals_dv, spec_binop,
    spec_is_constant, vals_dv};

verus! {

broadcast use {
    crate::value::lemma_vals_dv_is_deep_view,
    crate::value::lemma_add_empty,
    crate::value::lemma_push_is_add_one,
};

/// The Java string type descriptor; objects of this class lift back to
/// string values.
pub const STRING_CLASS: &'static str = "Ljava/lang/String;";

/// A concrete register handed to the emulator.
pub enum VmRegister {
    Literal(i32),
    Reference(u64),
    Null,
    Empty,
}

/// The initializer handed to the emulator when a heap object is created.
pub enum VmInit {
    StringObject(String),
    ByteArray(Vec<u8>),
    Instance(String),
}

/// A concrete value read back from the emulator: a byte array, an object
/// with its class and rendered text, or an integer of some width.
pub enum VmValue {
    Array(Vec<u8>),
    Object { class_name: String, text: String },
    Int(i32),
    Short(i16),
    Byte(u8),
}

/// Mathematical model of a [`VmValue`].
pub enum AVmValue {
    Array(Seq<u8>),
    Object { class_name: Seq<char>, text: Seq<char> },
    Int(i32),
    Short(i16),
    Byte(u8),
}

impl DeepView for VmValue {
    type V = AVmValue;

    open spec fn deep_view(&self) -> AVmValue {
        match self {
            VmValue::Array(a) => AVmValue::Array(a@),
            VmValue::Object { class_name, text } => AVmValue::Object {
                class_name: class_name@,
                text: text@,
            },
            VmValue::Int(i) => AVmValue::Int(*i),
            VmValue::Short(s) => AVmValue::Short(*s),
            VmValue::Byte(b) => AVmValue::Byte(*b),
        }
    }
}

/// The two failures visible at the bridge boundary: an argument or call
/// target that cannot be resolved, and any other fault of the emulator.
#[derive(Clone, Copy, PartialEq, Eq, Structural, Debug)]
pub enum VmError {
    LinkerError,
    Runtime,
}

/// A concrete emulator as the bridge sees it: object creation, method
/// lookup, the three invoke paths, and the return-value slot.  Nothing is
/// specified about the answers; the bridge states what it does with them.
pub trait VmHandle {
    /// Create an instance of `ty` from the initializer and return a
    /// register referring to it.
    fn new_instance(&mut self, ty: String, init: VmInit) -> Result<VmRegister, VmError>;

    /// Resolve a method: the identifier of the file defining it, and
    /// whether it carries code.
    fn lookup_method(&mut self, class_name: &String, method: &Method) -> Option<(String, bool)>;

    /// Begin execution of resolved code.
    fn start(&mut self, method_idx: u32, file_id: &String, args: Vec<VmRegister>) -> Result<
        (),
        VmError,
    >;

    /// Invoke a resolved method through the runtime shim.
    fn invoke_runtime(&mut self, file_id: &String, method_idx: u32, args: Vec<VmRegister>) -> Result<
        (),
        VmError,
    >;

    /// Invoke a method by name when its class is absent.
    fn invoke_runtime_with_method(
        &mut self,
        class_name: &String,
        method: &Method,
        args: Vec<VmRegister>,
    ) -> Result<(), VmError>;

    /// The value the last invocation returned, if any.
    fn get_return_object(&mut self) -> Option<VmValue>;
}

/// The lifting of the emulator's returned value back into the symbolic
/// domain: a byte array becomes `Bytes`, a string object `String`, another
/// object an `Object` of its class; an integer becomes a `Boolean` exactly
/// when the recorded result hint is an object of the boolean type
/// descriptor, and a `Number` otherwise; a missing value is `Invalid`.
pub open spec fn spec_lift_return(raw: Option<AVmValue>, hint: Option<AValue>) -> AValue {
    match raw {
        None => AValue::Invalid,
        Some(AVmValue::Array(a)) => AValue::Bytes(a),
        Some(AVmValue::Object { class_name, text }) => if class_name == STRING_CLASS@ {
            AValue::String(text)
        } else {
            AValue::Object { ty: class_name }
        },
        Some(AVmValue::Int(i)) => {
            if (hint matches Some(AValue::Object { ty }) && ty == "Z"@) {
                AValue::Boolean(i == 1)
            } else {
                AValue::Number(i as i128)
            }
        },
        Some(AVmValue::Short(s)) => AValue::Number(s as i128),
        Some(AVmValue::Byte(b)) => AValue::Byte(b),
    }
}

/// The event with its cached result replaced.
pub open spec fn with_result(li: ALastInstruction, v: AValue) -> ALastInstruction {
    match li {
        ALastInstruction::FunctionCall {
            name,
            signature,
            class_name,
            class,
            method,
            args,
            result,
        } => ALastInstruction::FunctionCall {
            name,
            signature,
            class_name,
            class,
            method,
            args,
            result: Some(v),
        },
        _ => li,
    }
}

/// Lift the emulator's returned value; see [`spec_lift_return`].
fn lift_return(raw: Option<VmValue>, hint: &Option<Value>) -> (res: Value)
    ensures
        res.deep_view() == spec_lift_return(raw.deep_view(), hint.deep_view()),
{
    match raw {
        None => Value::Invalid,
        Some(VmValue::Array(a)) => Value::Bytes(a),
        Some(VmValue::Object { class_name, text }) => {
            let sc: String = STRING_CLASS.to_owned();
            if class_name == sc {
                Value::String(text)
            } else {
                Value::Object { ty: class_name }
            }
        },
        Some(VmValue::Int(i)) => {
            let is_bool = match hint {
                Some(Value::Object { ty }) => {
                    let z: String = "Z".to_owned();
                    *ty == z
                },
                _ => false,
            };
            if is_bool {
                Value::Boolean(i == 1)
            } else {
                Value::Number(i as i128)
            }
        },
        Some(VmValue::Short(s)) => Value::Number(s as i128),
        Some(VmValue::Byte(b)) => Value::Byte(b),
    }
}

/// Mathematical model of a [`VmInit`].
pub enum AVmInit {
    StringObject(Seq<char>),
    ByteArray(Seq<u8>),
    Instance(Seq<char>),
}

impl DeepView for VmInit {
    type V = AVmInit;

    open spec fn deep_view(&self) -> AVmInit {
        match self {
            VmInit::StringObject(s) => AVmInit::StringObject(s@),
            VmInit::ByteArray(b) => AVmInit::ByteArray(b@),
            VmInit::Instance(ty) => AVmInit::Instance(ty@),
        }
    }
}

/// The heap request an argument requires, if any: a string argument becomes
/// a string object of the Java string class, a byte array a `[B` array
/// instance, and an opaque value a default instance of its type; the
/// literal kinds, `Invalid` and `Empty` need none.
pub open spec fn spec_marshal_init(v: AValue) -> Option<(Seq<char>, AVmInit)> {
    match v {
        AValue::String(s) => Some((STRING_CLASS@, AVmInit::StringObject(s))),
        AValue::Bytes(b) => Some(("[B"@, AVmInit::ByteArray(b))),
        AValue::Unknown { ty } => Some((ty, AVmInit::Instance(ty))),
        AValue::Object { ty } => Some((ty, AVmInit::Instance(ty))),
        _ => None,
    }
}

/// Build the heap request of one argument; see [`spec_marshal_init`].
fn marshal_init(v: &Value) -> (res: Option<(String, VmInit)>)
    ensures
        res.deep_view() == spec_marshal_init(v.deep_view()),
{
    match v {
        Value::String(s) => {
            let sc: String = STRING_CLASS.to_owned();
            Some((sc, VmInit::StringObject(s.clone())))
        },
        Value::Bytes(bytes) => {
            let arr: String = "[B".to_owned();
            Some((arr, VmInit::ByteArray(bytes.clone())))
        },
        Value::Unknown { ty } => Some((ty.clone(), VmInit::Instance(ty.clone()))),
        Value::Object { ty } => Some((ty.clone(), VmInit::Instance(ty.clone()))),
        _ => None,
    }
}

/// Marshal one concretized argument into an emulator register: the literal
/// kinds become the exact literal registers below, `Invalid` becomes the
/// null register, and a heap kind hands exactly the [`spec_marshal_init`]
/// request of the argument to the emulator's `new_instance`, falling back
/// to null when the creation fails.
fn marshal_arg<V: VmHandle>(vm: &mut V, v: &Value) -> (res: VmRegister)
    requires
        !(v is Variable),
        !(v is Unknown),
        !(v is Empty),
    ensures
        v matches Value::Number(n) ==> res == VmRegister::Literal(
            (#[verifier::truncate] (n as i32)),
        ),
        v matches Value::Boolean(b) ==> res == VmRegister::Literal(
            if *b {
                1i32
            } else {
                0i32
            },
        ),
        v matches Value::Char(c) ==> res == VmRegister::Literal((c as i32)),
        v matches Value::Byte(b) ==> res == VmRegister::Literal((b as i32)),
        v is Invalid ==> res == VmRegister::Null,
{
    let req = marshal_init(v);
    if let Some((ty, init)) = req {
        return match vm.new_instance(ty, init) {
            Ok(r) => r,
            Err(_) => VmRegister::Null,
        };
    }
    match v {
        Value::Number(n) => VmRegister::Literal(#[verifier::truncate] (*n as i32)),
        Value::Boolean(b) => VmRegister::Literal(
            if *b {
                1
            } else {
                0
            },
        ),
        Value::Char(c) => VmRegister::Literal(*c as i32),
        Value::Byte(b) => VmRegister::Literal(*b as i32),
        _ => VmRegister::Null,
    }
}

/// Concretize a value: constants and opaque values stand for themselves; a
/// deferred value replays its captured event against the emulator.
fn run_value<V: VmHandle>(v: &Value, vm: &mut V) -> (res: Result<Value, VmError>)
    ensures
        !(v.deep_view() is Variable) ==> (res matches Ok(c) && c.deep_view() == v.deep_view()),
        run_binop_contract(v.deep_view(), res),
    decreases *v,
{
    match v {
        Value::Variable(b) => {
            let r = run_last(&**b, vm);
            proof {
                assert(v.deep_view() == AValue::Variable(Box::new(b.deep_view())));
            }
            r
        },
        _ => Ok(v.clone()),
    }
}

/// What replaying promises for a deferred binary operation over constants:
/// it folds exactly, with no help from the emulator.
pub open spec fn run_binop_contract(v: AValue, res: Result<Value, VmError>) -> bool {
    match v {
        AValue::Variable(b) => replay_folds(*b, res),
        _ => true,
    }
}

/// What replaying promises for a deferred binary operation over constant
/// operands: it succeeds with exactly the constant fold.
pub open spec fn replay_folds(li: ALastInstruction, res: Result<Value, VmError>) -> bool {
    match li {
        ALastInstruction::BinaryOperation { left, right, operation } => spec_is_constant(left)
            && spec_is_constant(right) ==> (match res {
            Ok(c) => c.deep_view() == spec_binop(operation, left, right),
            Err(_) => false,
        }),
        _ => true,
    }
}

/// A call whose argument list is free of deferred values but holds an
/// `Unknown` or `Empty` cannot be realized: the replay owes a linker error
/// before any emulator work.
pub open spec fn literal_args_blocked(li: ALastInstruction, res: Result<Value, VmError>) -> bool {
    match li {
        ALastInstruction::FunctionCall { args, .. } => ((forall|k: int|
            0 <= k < args.len() ==> !((#[trigger] args[k]) is Variable)) && (exists|k: int|
            0 <= k < args.len() && ((#[trigger] args[k]) is Unknown || args[k] is Empty))) ==> res
            == Err::<Value, VmError>(VmError::LinkerError),
        _ => true,
    }
}

/// What a deferred value owes when concretized; see
/// [`literal_args_blocked`] and [`replay_folds`].
pub open spec fn value_replay_blocked(v: AValue, res: Result<Value, VmError>) -> bool {
    match v {
        AValue::Variable(b) => literal_args_blocked(*b, res),
        _ => true,
    }
}

/// A successful call replay returns the lifting of some emulator answer
/// under the recorded result hint.
pub open spec fn replay_lifts(li: ALastInstruction, res: Result<Value, VmError>) -> bool {
    match (li, res) {
        (ALastInstruction::FunctionCall { result, .. }, Ok(c)) => exists|raw: Option<AVmValue>|
            c.deep_view() == spec_lift_return(raw, result),
        _ => true,
    }
}

/// Replay one captured event against the emulator.
///
/// A deferred binary operation concretizes both sides and re-applies the
/// operator, so over constant operands the replay equals the constant fold.
/// A function call concretizes and marshals every argument (failing with a
/// linker error when one cannot be realized), starts resolved code or falls
/// back to the runtime paths, and lifts the returned value exactly as
/// [`spec_lift_return`] states.  Field events cannot be replayed.
fn run_last<V: VmHandle>(li: &LastInstruction, vm: &mut V) -> (res: Result<Value, VmError>)
    ensures
        replay_folds(li.deep_view(), res),
        replay_lifts(li.deep_view(), res),
        literal_args_blocked(li.deep_view(), res),
        (li.deep_view() is ReadStaticField || li.deep_view() is StoreStaticField) ==> res == Err::<
            Value,
            VmError,
        >(VmError::LinkerError),
    decreases *li,
{
    match li {
        LastInstruction::FunctionCall { name, signature, class_name, class, method, args, result } => {
            let ghost argsdv = args.deep_view();
            proof {
                lemma_vals_dv(args@);
                assert(vals_dv(args@) =~= args.deep_view());
                assert(li.deep_view()->FunctionCall_args == argsdv);
            }
            let n = args.len();
            let mut vm_args: Vec<VmRegister> = Vec::new();
            let mut i: usize = 0;
            while i < n
                invariant
                    li is FunctionCall,
                    *args == li->FunctionCall_args,
                    argsdv == args.deep_view(),
                    n == args@.len(),
                    i <= n,
                    (forall|k: int| 0 <= k < argsdv.len() ==> !((#[trigger] argsdv[k]) is Variable))
                        ==> forall|k: int|
                        0 <= k < i ==> !((#[trigger] argsdv[k]) is Unknown) && !(argsdv[k]
                            is Empty),
                decreases n - i,
            {
                proof {
                    assert(decreases_to!(args@ => args@[i as int]));
                    assert(decreases_to!(*args => args@));
                    assert(decreases_to!(*li => li->FunctionCall_args));
                    assert(decreases_to!(*li => args@[i as int]));
                }
                let cv = match run_value(&args[i], vm) {
                    Ok(c) => c,
                    Err(_) => {
                        return Err(VmError::LinkerError);
                    },
                };
                if matches!(cv, Value::Unknown { .. } | Value::Empty | Value::Variable(_)) {
                    return Err(VmError::LinkerError);
                }
                proof {
                    if forall|k: int|
                        0 <= k < argsdv.len() ==> !((#[trigger] argsdv[k]) is Variable) {
                        assert(!(argsdv[i as int] is Variable));
                        assert(argsdv[i as int] == args.deep_view()[i as int]);
                        assert(cv.deep_view() == argsdv[i as int]);
                        assert(!(argsdv[i as int] is Unknown) && !(argsdv[i as int] is Empty));
                    }
                }
                let reg = marshal_arg(vm, &cv);
                vm_args.push(reg);
                i += 1;
            }
            match vm.lookup_method(class_name, method) {
                Some((file_id, has_code)) => {
                    if has_code {
                        match vm.start(method.method_idx, &file_id, vm_args) {
                            Ok(()) => {},
                            Err(e) => {
                                return Err(e);
                            },
                        }
                    } else {
                        match vm.invoke_runtime(&file_id, method.method_idx, vm_args) {
                            Ok(()) => {},
                            Err(e) => {
                                return Err(e);
                            },
                        }
                    }
                },
                None => {
                    match vm.invoke_runtime_with_method(class_name, method, vm_args) {
                        Ok(()) => {},
                        Err(e) => {
                            return Err(e);
                        },
                    }
                },
            }
            let raw = vm.get_return_object();
            let ghost rawdv = raw.deep_view();
            let lifted = lift_return(raw, result);
            proof {
                assert(lifted.deep_view() == spec_lift_return(rawdv, result.deep_view()));
            }
            Ok(lifted)
        },
        LastInstruction::BinaryOperation { left, right, operation } => {
            let lc = match run_value(left, vm) {
                Ok(c) => c,
                Err(e) => {
                    return Err(e);
                },
            };
            let rc = match run_value(right, vm) {
                Ok(c) => c,
                Err(e) => {
                    return Err(e);
                },
            };
            Ok(Value::apply_binop(*operation, &lc, &rc))
        },
        _ => Err(VmError::LinkerError),
    }
}

impl LastInstruction {
    /// Replay this event against the emulator, caching a successful call
    /// result in the event's `result` slot.
    pub fn execute<V: VmHandle>(&mut self, vm: &mut V) -> (res: Result<Value, VmError>)
        ensures
            replay_folds(old(self).deep_view(), res),
            replay_lifts(old(self).deep_view(), res),
            literal_args_blocked(old(self).deep_view(), res),
            (old(self).deep_view() is ReadStaticField || old(self).deep_view()
                is StoreStaticField) ==> res == Err::<Value, VmError>(VmError::LinkerError),
            res matches Ok(c) ==> final(self).deep_view() == with_result(
                old(self).deep_view(),
                c.deep_view(),
            ),
            res is Err ==> final(self).deep_view() == old(self).deep_view(),
    {
        let res = run_last(&*self, vm);
        if let Ok(c) = &res {
            match self {
                LastInstruction::FunctionCall { result, .. } => {
                    *result = Some(c.clone());
                },
                _ => {},
            }
        }
        res
    }
}

impl Value {
    /// The concrete value of this one, if it can be realized: constants and
    /// opaque values stand for themselves, and a deferred value replays its
    /// captured event against the emulator, caching a successful call
    /// result.
    pub fn try_get_value<V: VmHandle>(&mut self, vm: &mut V) -> (res: Result<Value, VmError>)
        ensures
            !(old(self).deep_view() is Variable) ==> (res matches Ok(c) && c.deep_view() == old(
                self,
            ).deep_view() && final(self).deep_view() == old(self).deep_view()),
            run_binop_contract(old(self).deep_view(), res),
            value_replay_blocked(old(self).deep_view(), res),
    {
        match self {
            Value::Variable(b) => {
                let r = (&mut **b).execute(vm);
                proof {
                    assert(old(self).deep_view() == AValue::Variable(
                        Box::new(old(self)->Variable_0.deep_view()),
                    ));
                }
                r
            },
            _ => Ok(self.clone()),
        }
    }
}

} // verus!
