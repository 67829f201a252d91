//! The symbolic value algebra.
//!
//! A register holds a [`Value`]: either one of six concrete constants, an
//! opaque value of known type, a deferred expression (`Variable`), or one of
//! the two degenerate states `Invalid` and `Empty`.  Binary operators fold
//! constants to `Number`, defer when an operand is a `Variable`, and give up
//! with `Invalid` otherwise.

use vstd::prelude::*;
use crate::dex::{AClass, AField, AMethod, Class, FieldDef, Method};

verus! {

/// Operator tag for arithmetic, bitwise and shift instructions and for
/// deferred binary operations.
#[derive(Clone, Copy, PartialEq, Eq, Structural, Debug)]
pub enum BinaryOp {
    Add,
    Sub,
    Mul,
    Div,
    Rem,
    And,
    Or,
    Xor,
    Shl,
    Shr,
    UShr,
}

/// The kind selector used by the event queries.
#[derive(Clone, Copy, PartialEq, Eq, Structural, Debug)]
pub enum InstructionType {
    FunctionCall,
    ReadStaticField,
    StoreStaticField,
    BinaryOperation,
}

/// The most recent interesting event on a branch, kept so that a following
/// `move-result` can bind it into a register as a deferred value.
pub enum LastInstruction {
    FunctionCall {
        name: String,
        signature: String,
        class_name: String,
        class: Class,
        method: Method,
        args: Vec<Value>,
        result: Option<Value>,
    },
    ReadStaticField {
        class_name: String,
        class: Class,
        field: FieldDef,
        name: String,
    },
    StoreStaticField {
        class_name: String,
        class: Class,
        field: FieldDef,
        name: String,
        arg: Value,
    },
    BinaryOperation {
        left: Value,
        right: Value,
        operation: BinaryOp,
    },
}

/// A symbolic register value.
pub enum Value {
    String(String),
    Number(i128),
    Boolean(bool),
    Char(char),
    Byte(u8),
    Bytes(Vec<u8>),
    /// A deferred expression: "the result of this call or binary operation".
    Variable(Box<LastInstruction>),
    /// A value of known static type but unknown contents.
    Unknown { ty: String },
    /// An instantiated object of known type, contents opaque.
    Object { ty: String },
    /// Produced by an operation that cannot be modelled symbolically.
    Invalid,
    /// The register was explicitly cleared.
    Empty,
}

/// Mathematical model of a [`LastInstruction`].
pub enum ALastInstruction {
    FunctionCall {
        name: Seq<char>,
        signature: Seq<char>,
        class_name: Seq<char>,
        class: AClass,
        method: AMethod,
        args: Seq<AValue>,
        result: Option<AValue>,
    },
    ReadStaticField {
        class_name: Seq<char>,
        class: AClass,
        field: AField,
        name: Seq<char>,
    },
    StoreStaticField {
        class_name: Seq<char>,
        class: AClass,
        field: AField,
        name: Seq<char>,
        arg: AValue,
    },
    BinaryOperation {
        left: AValue,
        right: AValue,
        operation: BinaryOp,
    },
}

/// Mathematical model of a [`Value`].
pub enum AValue {
    String(Seq<char>),
    Number(i128),
    Boolean(bool),
    Char(char),
    Byte(u8),
    Bytes(Seq<u8>),
    Variable(Box<ALastInstruction>),
    Unknown { ty: Seq<char> },
    Object { ty: Seq<char> },
    Invalid,
    Empty,
}

/// The model of a [`Value`].
pub open spec fn value_dv(v: Value) -> AValue
    decreases v,
{
    match v {
        Value::String(s) => AValue::String(s@),
        Value::Number(n) => AValue::Number(n),
        Value::Boolean(b) => AValue::Boolean(b),
        Value::Char(c) => AValue::Char(c),
        Value::Byte(b) => AValue::Byte(b),
        Value::Bytes(bs) => AValue::Bytes(bs@),
        Value::Variable(b) => AValue::Variable(Box::new(li_dv(*b))),
        Value::Unknown { ty } => AValue::Unknown { ty: ty@ },
        Value::Object { ty } => AValue::Object { ty: ty@ },
        Value::Invalid => AValue::Invalid,
        Value::Empty => AValue::Empty,
    }
}

/// The models of a sequence of [`Value`]s, elementwise.
pub open spec fn vals_dv(s: Seq<Value>) -> Seq<AValue>
    decreases s,
{
    if s.len() == 0 {
        Seq::empty()
    } else {
        proof {
            assert(decreases_to!(s => s[0]));
            assert(decreases_to!(s => s.subrange(1, s.len() as int)));
        }
        seq![value_dv(s[0])] + vals_dv(s.subrange(1, s.len() as int))
    }
}

/// The model of a [`LastInstruction`].
pub open spec fn li_dv(li: LastInstruction) -> ALastInstruction
    decreases li,
{
    match li {
        LastInstruction::FunctionCall { name, signature, class_name, class, method, args, result } => {
            proof {
                assert(decreases_to!(li => args));
                assert(decreases_to!(args => args@));
                assert(decreases_to!(li => args@));
            }
            ALastInstruction::FunctionCall {
                name: name@,
                signature: signature@,
                class_name: class_name@,
                class: class.deep_view(),
                method: method.deep_view(),
                args: vals_dv(args@),
                result: match result {
                    Some(rv) => Some(value_dv(rv)),
                    None => None,
                },
            }
        },
        LastInstruction::ReadStaticField { class_name, class, field, name } => {
            ALastInstruction::ReadStaticField {
                class_name: class_name@,
                class: class.deep_view(),
                field: field.deep_view(),
                name: name@,
            }
        },
        LastInstruction::StoreStaticField { class_name, class, field, name, arg } => {
            ALastInstruction::StoreStaticField {
                class_name: class_name@,
                class: class.deep_view(),
                field: field.deep_view(),
                name: name@,
                arg: value_dv(arg),
            }
        },
        LastInstruction::BinaryOperation { left, right, operation } => {
            ALastInstruction::BinaryOperation {
                left: value_dv(left),
                right: value_dv(right),
                operation,
            }
        },
    }
}

/// Every element of `vals_dv` is the model of the matching element.
pub broadcast proof fn lemma_vals_dv(s: Seq<Value>)
    ensures
        (#[trigger] vals_dv(s)).len() == s.len(),
        forall|i: int| 0 <= i < s.len() ==> vals_dv(s)[i] == value_dv(s[i]),
    decreases s.len(),
{
    if s.len() > 0 {
        lemma_vals_dv(s.subrange(1, s.len() as int));
    }
}

/// Appending nothing changes nothing.
pub broadcast proof fn lemma_add_empty<A>(s: Seq<A>)
    ensures
        #[trigger] (s + Seq::<A>::empty()) == s,
{
    assert(s + Seq::<A>::empty() =~= s);
}

/// Pushing one element is appending a singleton.
pub broadcast proof fn lemma_push_is_add_one<A>(s: Seq<A>, e: A)
    ensures
        #[trigger] s.push(e) == s + seq![e],
{
    assert(s.push(e) =~= s + seq![e]);
}

/// The elementwise model of a vector of values is its deep view.
pub broadcast proof fn lemma_vals_dv_is_deep_view(v: Vec<Value>)
    ensures
        #[trigger] vals_dv(v@) == v.deep_view(),
{
    lemma_vals_dv(v@);
    assert(vals_dv(v@) =~= v.deep_view());
}

impl DeepView for Value {
    type V = AValue;

    open spec fn deep_view(&self) -> AValue {
        value_dv(*self)
    }
}

impl DeepView for LastInstruction {
    type V = ALastInstruction;

    open spec fn deep_view(&self) -> ALastInstruction {
        li_dv(*self)
    }
}

impl Clone for Value {
    fn clone(&self) -> (res: Self)
        ensures
            res.deep_view() == self.deep_view(),
        decreases *self,
    {
        match self {
            Value::String(s) => Value::String(s.clone()),
            Value::Number(n) => Value::Number(*n),
            Value::Boolean(b) => Value::Boolean(*b),
            Value::Char(c) => Value::Char(*c),
            Value::Byte(b) => Value::Byte(*b),
            Value::Bytes(v) => {
                let c = v.clone();
                proof {
                    assert(c@ =~= v@);
                }
                Value::Bytes(c)
            },
            Value::Variable(b) => Value::Variable(Box::new((**b).clone())),
            Value::Unknown { ty } => Value::Unknown { ty: ty.clone() },
            Value::Object { ty } => Value::Object { ty: ty.clone() },
            Value::Invalid => Value::Invalid,
            Value::Empty => Value::Empty,
        }
    }
}

impl Clone for LastInstruction {
    fn clone(&self) -> (res: Self)
        ensures
            res.deep_view() == self.deep_view(),
        decreases *self,
    {
        match self {
            LastInstruction::FunctionCall {
                name,
                signature,
                class_name,
                class,
                method,
                args,
                result,
            } => {
                let n = args.len();
                let mut args_c: Vec<Value> = Vec::new();
                let mut i: usize = 0;
                while i < n
                    invariant
                        self is FunctionCall,
                        *args == self->FunctionCall_args,
                        n == args@.len(),
                        i <= n,
                        args_c@.len() == i,
                        forall|j: int|
                            0 <= j < i ==> args_c@[j].deep_view() == args@[j].deep_view(),
                    decreases n - i,
                {
                    proof {
                        assert(decreases_to!(args@ => args@[i as int]));
                        assert(decreases_to!(*args => args@));
                        assert(decreases_to!(*self => self->FunctionCall_args));
                        assert(decreases_to!(*self => args@[i as int]));
                    }
                    args_c.push(args[i].clone());
                    i += 1;
                }
                let result_c = match result {
                    Some(v) => Some(v.clone()),
                    None => None,
                };
                proof {
                    lemma_vals_dv(args_c@);
                    lemma_vals_dv(args@);
                    assert(vals_dv(args_c@) =~= vals_dv(args@));
                }
                LastInstruction::FunctionCall {
                    name: name.clone(),
                    signature: signature.clone(),
                    class_name: class_name.clone(),
                    class: class.clone(),
                    method: method.clone(),
                    args: args_c,
                    result: result_c,
                }
            },
            LastInstruction::ReadStaticField { class_name, class, field, name } => {
                LastInstruction::ReadStaticField {
                    class_name: class_name.clone(),
                    class: class.clone(),
                    field: field.clone(),
                    name: name.clone(),
                }
            },
            LastInstruction::StoreStaticField { class_name, class, field, name, arg } => {
                LastInstruction::StoreStaticField {
                    class_name: class_name.clone(),
                    class: class.clone(),
                    field: field.clone(),
                    name: name.clone(),
                    arg: arg.clone(),
                }
            },
            LastInstruction::BinaryOperation { left, right, operation } => {
                LastInstruction::BinaryOperation {
                    left: left.clone(),
                    right: right.clone(),
                    operation: *operation,
                }
            },
        }
    }
}

/// The numeric projection: `Number` directly, with `Byte`, `Char` and
/// `Boolean` widened; every other variant has none.
pub open spec fn spec_num(v: AValue) -> Option<i128> {
    match v {
        AValue::Number(n) => Some(n),
        AValue::Byte(b) => Some(b as i128),
        AValue::Char(c) => Some(c as i128),
        AValue::Boolean(b) => Some(if b { 1 } else { 0 }),
        _ => None,
    }
}

/// True exactly for the six concrete constant variants.
pub open spec fn spec_is_constant(v: AValue) -> bool {
    !(v is Variable || v is Unknown || v is Object || v is Invalid || v is Empty)
}

/// Constant folding of one operator over two numbers, with 128-bit signed
/// semantics (`ushr` reinterprets the left operand as unsigned).  Division
/// and remainder yield `Invalid` when the divisor is zero or the result is
/// not representable; a shift amount outside `0..128` yields `Invalid`.
pub open spec fn spec_fold(op: BinaryOp, l: i128, r: i128) -> AValue {
    match op {
        BinaryOp::Add => AValue::Number(l.wrapping_add(r)),
        BinaryOp::Sub => AValue::Number(l.wrapping_sub(r)),
        BinaryOp::Mul => AValue::Number(l.wrapping_mul(r)),
        BinaryOp::Div => match l.checked_div(r) {
            Some(q) => AValue::Number(q),
            None => AValue::Invalid,
        },
        BinaryOp::Rem => match l.checked_rem(r) {
            Some(q) => AValue::Number(q),
            None => AValue::Invalid,
        },
        BinaryOp::And => AValue::Number(l & r),
        BinaryOp::Or => AValue::Number(l | r),
        BinaryOp::Xor => AValue::Number(l ^ r),
        BinaryOp::Shl => if 0 <= r && r < 128 {
            AValue::Number(l << (r as u32))
        } else {
            AValue::Invalid
        },
        BinaryOp::Shr => if 0 <= r && r < 128 {
            AValue::Number(l >> (r as u32))
        } else {
            AValue::Invalid
        },
        BinaryOp::UShr => if 0 <= r && r < 128 {
            AValue::Number(((l as u128) >> (r as u32)) as i128)
        } else {
            AValue::Invalid
        },
    }
}

/// The full operator semantics over symbolic values: fold when both
/// operands project to numbers, defer when either operand is a `Variable`,
/// and yield `Invalid` otherwise.
pub open spec fn spec_binop(op: BinaryOp, l: AValue, r: AValue) -> AValue {
    if spec_num(l) is Some && spec_num(r) is Some {
        spec_fold(op, spec_num(l).unwrap(), spec_num(r).unwrap())
    } else if l is Variable || r is Variable {
        AValue::Variable(
            Box::new(ALastInstruction::BinaryOperation { left: l, right: r, operation: op }),
        )
    } else {
        AValue::Invalid
    }
}

/// Constant folding: a `Number` operand against a `Number` operand folds to
/// the 128-bit signed result of the operator; division and remainder by
/// zero fold to `Invalid`; the shifts demand an amount within the word, and
/// `ushr` shifts the left operand reinterpreted as unsigned.
pub proof fn lemma_constant_fold(op: BinaryOp, a: i128, b: i128)
    ensures
        op is Add && i128::MIN <= a + b <= i128::MAX ==> spec_binop(
            op,
            AValue::Number(a),
            AValue::Number(b),
        ) == AValue::Number((a + b) as i128),
        op is Sub && i128::MIN <= a - b <= i128::MAX ==> spec_binop(
            op,
            AValue::Number(a),
            AValue::Number(b),
        ) == AValue::Number((a - b) as i128),
        op is Mul && i128::MIN <= a * b <= i128::MAX ==> spec_binop(
            op,
            AValue::Number(a),
            AValue::Number(b),
        ) == AValue::Number((a * b) as i128),
        op is Div && a >= 0 && b > 0 ==> spec_binop(op, AValue::Number(a), AValue::Number(b))
            == AValue::Number((a / b) as i128),
        op is Div && b == 0 ==> spec_binop(op, AValue::Number(a), AValue::Number(b))
            == AValue::Invalid,
        op is Rem && a >= 0 && b > 0 ==> spec_binop(op, AValue::Number(a), AValue::Number(b))
            == AValue::Number((a % b) as i128),
        op is Rem && b == 0 ==> spec_binop(op, AValue::Number(a), AValue::Number(b))
            == AValue::Invalid,
        op is And ==> spec_binop(op, AValue::Number(a), AValue::Number(b)) == AValue::Number(a & b),
        op is Or ==> spec_binop(op, AValue::Number(a), AValue::Number(b)) == AValue::Number(a | b),
        op is Xor ==> spec_binop(op, AValue::Number(a), AValue::Number(b)) == AValue::Number(a ^ b),
        op is Shl && 0 <= b < 128 ==> spec_binop(op, AValue::Number(a), AValue::Number(b))
            == AValue::Number(a << (b as u32)),
        op is Shr && 0 <= b < 128 ==> spec_binop(op, AValue::Number(a), AValue::Number(b))
            == AValue::Number(a >> (b as u32)),
        op is UShr && 0 <= b < 128 ==> spec_binop(op, AValue::Number(a), AValue::Number(b))
            == AValue::Number((((a as u128) >> (b as u32)) as i128)),
{
    if a >= 0 && b > 0 {
        assert(0 <= a % b < b) by (nonlinear_arith)
            requires
                a >= 0 && b > 0,
        ;
        assert(0 <= a / b <= a) by (nonlinear_arith)
            requires
                a >= 0 && b > 0,
        ;
        assert(a == 0 ==> a % b == 0 && a / b == 0) by (nonlinear_arith)
            requires
                b > 0,
        ;
    }
}

/// The numeric widenings: `Byte`, `Char` and `Boolean` fold as their
/// numeric projections, so `Number` is the sole arithmetic carrier.
pub proof fn lemma_widening_folds(op: BinaryOp, l: AValue, r: AValue)
    requires
        spec_num(l) is Some,
        spec_num(r) is Some,
    ensures
        spec_binop(op, l, r) == spec_binop(
            op,
            AValue::Number(spec_num(l).unwrap()),
            AValue::Number(spec_num(r).unwrap()),
        ),
{
}

/// Unknown propagation: an operation with a deferred operand on either side
/// yields a deferred binary operation carrying both operands and the
/// operator, ready to be replayed once the operands are concretized.
pub proof fn lemma_unknown_propagation(op: BinaryOp, x: ALastInstruction, y: AValue)
    ensures
        spec_binop(op, AValue::Variable(Box::new(x)), y) == AValue::Variable(
            Box::new(
                ALastInstruction::BinaryOperation {
                    left: AValue::Variable(Box::new(x)),
                    right: y,
                    operation: op,
                },
            ),
        ),
        spec_binop(op, y, AValue::Variable(Box::new(x))) == AValue::Variable(
            Box::new(
                ALastInstruction::BinaryOperation {
                    left: y,
                    right: AValue::Variable(Box::new(x)),
                    operation: op,
                },
            ),
        ),
{
}

impl Value {
    /// The numeric projection of this value, if it has one.
    pub fn try_get_number(&self) -> (res: Option<i128>)
        ensures
            res == spec_num(self.deep_view()),
    {
        match self {
            Value::Number(n) => Some(*n),
            Value::Byte(b) => Some(*b as i128),
            Value::Char(c) => Some(*c as i128),
            Value::Boolean(b) => Some(if *b { 1 } else { 0 }),
            _ => None,
        }
    }

    /// True exactly when this value is one of the six concrete constants.
    pub fn is_constant(&self) -> (res: bool)
        ensures
            res == spec_is_constant(self.deep_view()),
    {
        !matches!(
            self,
            Value::Variable(..) | Value::Unknown { .. } | Value::Object { .. } | Value::Invalid
                | Value::Empty
        )
    }

    /// Apply `op` to two symbolic operands.
    pub fn apply_binop(op: BinaryOp, lhs: &Value, rhs: &Value) -> (res: Value)
        ensures
            res.deep_view() == spec_binop(op, lhs.deep_view(), rhs.deep_view()),
    {
        let ln = lhs.try_get_number();
        let rn = rhs.try_get_number();
        if let (Some(l), Some(r)) = (ln, rn) {
            Value::fold(op, l, r)
        } else if matches!(lhs, Value::Variable(_)) || matches!(rhs, Value::Variable(_)) {
            Value::Variable(
                Box::new(
                    LastInstruction::BinaryOperation {
                        left: lhs.clone(),
                        right: rhs.clone(),
                        operation: op,
                    },
                ),
            )
        } else {
            Value::Invalid
        }
    }

    /// Apply `op` to a symbolic left operand and a literal right operand,
    /// as the `lit8`/`lit16` instruction shapes do.
    pub fn apply_binop_lit(op: BinaryOp, lhs: &Value, lit: i128) -> (res: Value)
        ensures
            res.deep_view() == spec_binop(op, lhs.deep_view(), AValue::Number(lit)),
    {
        let ln = lhs.try_get_number();
        if let Some(l) = ln {
            Value::fold(op, l, lit)
        } else if matches!(lhs, Value::Variable(_)) {
            proof {
                assert(value_dv(Value::Number(lit)) == AValue::Number(lit));
            }
            Value::Variable(
                Box::new(
                    LastInstruction::BinaryOperation {
                        left: lhs.clone(),
                        right: Value::Number(lit),
                        operation: op,
                    },
                ),
            )
        } else {
            Value::Invalid
        }
    }

    /// The unsigned (logical) right shift: reinterpret the left operand as
    /// an unsigned 128-bit integer, shift, reinterpret back.
    pub fn ushr(&self, rhs: &Value) -> (res: Value)
        ensures
            res.deep_view() == spec_binop(BinaryOp::UShr, self.deep_view(), rhs.deep_view()),
    {
        Value::apply_binop(BinaryOp::UShr, self, rhs)
    }

    /// Constant folding over two projected numbers.
    fn fold(op: BinaryOp, l: i128, r: i128) -> (res: Value)
        ensures
            res.deep_view() == spec_fold(op, l, r),
    {
        match op {
            BinaryOp::Add => Value::Number(l.wrapping_add(r)),
            BinaryOp::Sub => Value::Number(l.wrapping_sub(r)),
            BinaryOp::Mul => Value::Number(l.wrapping_mul(r)),
            BinaryOp::Div => match l.checked_div(r) {
                Some(q) => Value::Number(q),
                None => Value::Invalid,
            },
            BinaryOp::Rem => match l.checked_rem(r) {
                Some(q) => Value::Number(q),
                None => Value::Invalid,
            },
            BinaryOp::And => Value::Number(l & r),
            BinaryOp::Or => Value::Number(l | r),
            BinaryOp::Xor => Value::Number(l ^ r),
            BinaryOp::Shl => if 0 <= r && r < 128 {
                Value::Number(l << (r as u32))
            } else {
                Value::Invalid
            },
            BinaryOp::Shr => if 0 <= r && r < 128 {
                Value::Number(l >> (r as u32))
            } else {
                Value::Invalid
            },
            BinaryOp::UShr => if 0 <= r && r < 128 {
                let lu: u128 = #[verifier::truncate] (l as u128);
                let shifted: u128 = lu >> (r as u32);
                let back: i128 = #[verifier::truncate] (shifted as i128);
                Value::Number(back)
            } else {
                Value::Invalid
            },
        }
    }
}

} // verus!
