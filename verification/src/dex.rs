//! A read-only view of the DEX symbol tables that the engine consults:
//! method, proto and field records, type names, the string pool, classes,
//! and the implementors table used to refine interface calls.
//!
//! The tables are plain values decoded by an external loader; the engine
//! only ever reads them.

use vstd::prelude::*;

verus! {

/// A method record: indices into the symbol tables plus the plain name.
pub struct Method {
    pub method_idx: u32,
    pub class_idx: u32,
    pub proto_idx: u32,
    pub method_name: String,
}

/// Mathematical model of a [`Method`].
pub struct AMethod {
    pub method_idx: u32,
    pub class_idx: u32,
    pub proto_idx: u32,
    pub method_name: Seq<char>,
}

impl DeepView for Method {
    type V = AMethod;

    open spec fn deep_view(&self) -> AMethod {
        AMethod {
            method_idx: self.method_idx,
            class_idx: self.class_idx,
            proto_idx: self.proto_idx,
            method_name: self.method_name@,
        }
    }
}

impl Clone for Method {
    fn clone(&self) -> (res: Self)
        ensures
            res == *self,
    {
        Method {
            method_idx: self.method_idx,
            class_idx: self.class_idx,
            proto_idx: self.proto_idx,
            method_name: self.method_name.clone(),
        }
    }
}

/// A prototype record, already rendered to its canonical strings:
/// the `(args)ret` signature text and the return type descriptor.
pub struct Proto {
    pub signature: String,
    pub return_type: String,
}

/// Mathematical model of a [`Proto`].
pub struct AProto {
    pub signature: Seq<char>,
    pub return_type: Seq<char>,
}

impl DeepView for Proto {
    type V = AProto;

    open spec fn deep_view(&self) -> AProto {
        AProto { signature: self.signature@, return_type: self.return_type@ }
    }
}

impl Clone for Proto {
    fn clone(&self) -> (res: Self)
        ensures
            res == *self,
    {
        Proto { signature: self.signature.clone(), return_type: self.return_type.clone() }
    }
}

/// A static-field record: the owning class index and the field name.
pub struct FieldDef {
    pub class_idx: u32,
    pub name: String,
}

/// Mathematical model of a [`FieldDef`].
pub struct AField {
    pub class_idx: u32,
    pub name: Seq<char>,
}

impl DeepView for FieldDef {
    type V = AField;

    open spec fn deep_view(&self) -> AField {
        AField { class_idx: self.class_idx, name: self.name@ }
    }
}

impl Clone for FieldDef {
    fn clone(&self) -> (res: Self)
        ensures
            res == *self,
    {
        FieldDef { class_idx: self.class_idx, name: self.name.clone() }
    }
}

/// A class record: its type descriptor, its index in the type table,
/// and the methods for which it carries code.
pub struct Class {
    pub class_name: String,
    pub class_idx: u32,
    pub methods: Vec<Method>,
}

/// Mathematical model of a [`Class`].
pub struct AClass {
    pub class_name: Seq<char>,
    pub class_idx: u32,
    pub methods: Seq<AMethod>,
}

impl DeepView for Class {
    type V = AClass;

    open spec fn deep_view(&self) -> AClass {
        AClass {
            class_name: self.class_name@,
            class_idx: self.class_idx,
            methods: self.methods.deep_view(),
        }
    }
}

impl Clone for Class {
    fn clone(&self) -> (res: Self)
        ensures
            res.deep_view() == self.deep_view(),
    {
        let methods = self.methods.clone();
        proof {
            assert(methods.deep_view() =~= self.methods.deep_view());
        }
        Class {
            class_name: self.class_name.clone(),
            class_idx: self.class_idx,
            methods,
        }
    }
}

/// A decoded method body as delivered by the external parser:
/// the register width and the `(size, offset, instruction)` triples.
pub struct CodeItem {
    pub register_size: u16,
    pub insns: Vec<(u32, i64, crate::instr::Instruction)>,
}

/// The read-only DEX symbol view handed to the engine.
pub struct DexSymbols {
    pub methods: Vec<Method>,
    pub protos: Vec<Proto>,
    pub fields: Vec<FieldDef>,
    pub types: Vec<String>,
    pub strings: Vec<String>,
    pub classes: Vec<Class>,
    pub implementors: Vec<(u32, Class)>,
}

/// Mathematical model of [`DexSymbols`].
pub struct ADexSymbols {
    pub methods: Seq<AMethod>,
    pub protos: Seq<AProto>,
    pub fields: Seq<AField>,
    pub types: Seq<Seq<char>>,
    pub strings: Seq<Seq<char>>,
    pub classes: Seq<AClass>,
    pub implementors: Seq<(u32, AClass)>,
}

impl DeepView for DexSymbols {
    type V = ADexSymbols;

    open spec fn deep_view(&self) -> ADexSymbols {
        ADexSymbols {
            methods: self.methods.deep_view(),
            protos: self.protos.deep_view(),
            fields: self.fields.deep_view(),
            types: self.types.deep_view(),
            strings: self.strings.deep_view(),
            classes: self.classes.deep_view(),
            implementors: self.implementors.deep_view(),
        }
    }
}

/// The first class in `classes` whose `class_idx` equals `idx`, if any.
pub open spec fn spec_find_class(classes: Seq<AClass>, idx: u32) -> Option<AClass>
    decreases classes.len(),
{
    if classes.len() == 0 {
        None
    } else if classes[0].class_idx == idx {
        Some(classes[0])
    } else {
        spec_find_class(classes.drop_first(), idx)
    }
}

/// The classes recorded as implementors of the interface with index `idx`,
/// in table order.
pub open spec fn spec_implementations(impls: Seq<(u32, AClass)>, idx: u32) -> Seq<AClass>
    decreases impls.len(),
{
    if impls.len() == 0 {
        Seq::empty()
    } else {
        let rest = spec_implementations(impls.drop_first(), idx);
        if impls[0].0 == idx {
            seq![impls[0].1] + rest
        } else {
            rest
        }
    }
}

/// The last method in `methods` whose name equals `name`, if any.
pub open spec fn spec_find_last_method(methods: Seq<AMethod>, name: Seq<char>) -> Option<AMethod>
    decreases methods.len(),
{
    if methods.len() == 0 {
        None
    } else if methods.last().method_name == name {
        Some(methods.last())
    } else {
        spec_find_last_method(methods.drop_last(), name)
    }
}

impl DexSymbols {
    /// The type descriptor stored at `idx` in the type table, if present.
    pub fn get_type_name(&self, idx: u32) -> (res: Option<&String>)
        ensures
            match res {
                Some(s) => idx < self.types@.len() && s@ == self.deep_view().types[idx as int],
                None => idx >= self.types@.len(),
            },
    {
        if (idx as usize) < self.types.len() {
            Some(&self.types[idx as usize])
        } else {
            None
        }
    }

    /// The string stored at `idx` in the string pool, if present.
    pub fn get_string(&self, idx: u32) -> (res: Option<&String>)
        ensures
            match res {
                Some(s) => idx < self.strings@.len() && s@ == self.deep_view().strings[idx as int],
                None => idx >= self.strings@.len(),
            },
    {
        if (idx as usize) < self.strings.len() {
            Some(&self.strings[idx as usize])
        } else {
            None
        }
    }

    /// The first class whose `class_idx` equals `idx`.
    pub fn get_class_by_type_name_idx(&self, idx: u32) -> (res: Option<&Class>)
        ensures
            match res {
                Some(c) => spec_find_class(self.deep_view().classes, idx) == Some(c.deep_view()),
                None => spec_find_class(self.deep_view().classes, idx) is None,
            },
    {
        let n = self.classes.len();
        let mut i: usize = 0;
        proof {
            assert(self.deep_view().classes.skip(0) =~= self.deep_view().classes);
        }
        while i < n
            invariant
                n == self.classes@.len(),
                i <= n,
                spec_find_class(self.deep_view().classes, idx) == spec_find_class(
                    self.deep_view().classes.skip(i as int),
                    idx,
                ),
            decreases n - i,
        {
            proof {
                assert(self.deep_view().classes.skip(i as int)[0] == self.deep_view().classes[i as int]);
                assert(self.deep_view().classes.skip(i as int).drop_first() =~= self.deep_view().classes.skip(i + 1));
            }
            if self.classes[i].class_idx == idx {
                return Some(&self.classes[i]);
            }
            i += 1;
        }
        proof {
            assert(self.deep_view().classes.skip(n as int) =~= Seq::<AClass>::empty());
        }
        None
    }

    /// All classes recorded as implementing the interface `class`.
    pub fn get_implementations_for(&self, class: &Class) -> (res: Vec<Class>)
        ensures
            res.deep_view() == spec_implementations(
                self.deep_view().implementors,
                class.class_idx,
            ),
    {
        let n = self.implementors.len();
        let mut res: Vec<Class> = Vec::new();
        let mut i: usize = 0;
        proof {
            assert(self.deep_view().implementors.skip(0) =~= self.deep_view().implementors);
            assert(res.deep_view() =~= Seq::<AClass>::empty());
        }
        while i < n
            invariant
                n == self.implementors@.len(),
                i <= n,
                res.deep_view() + spec_implementations(
                    self.deep_view().implementors.skip(i as int),
                    class.class_idx,
                ) =~= spec_implementations(self.deep_view().implementors, class.class_idx),
            decreases n - i,
        {
            proof {
                assert(self.deep_view().implementors.skip(i as int)[0] == self.deep_view().implementors[i as int]);
                assert(self.deep_view().implementors.skip(i as int).drop_first() =~= self.deep_view().implementors.skip(i + 1));
            }
            if self.implementors[i].0 == class.class_idx {
                let c = self.implementors[i].1.clone();
                res.push(c);
            }
            proof {
                assert(res.deep_view() + spec_implementations(
                    self.deep_view().implementors.skip(i + 1),
                    class.class_idx,
                ) =~= spec_implementations(self.deep_view().implementors, class.class_idx));
            }
            i += 1;
        }
        proof {
            assert(spec_implementations(self.deep_view().implementors.skip(n as int), class.class_idx) =~= Seq::<AClass>::empty());
            assert(res.deep_view() =~= spec_implementations(self.deep_view().implementors, class.class_idx));
        }
        res
    }
}

impl Class {
    /// The last method of this class whose name equals `name`, cloned out.
    pub fn find_method_by_name(&self, name: &String) -> (res: Option<Method>)
        ensures
            res.deep_view() == spec_find_last_method(self.deep_view().methods, name@),
    {
        let n = self.methods.len();
        let mut found: Option<Method> = None;
        let mut i: usize = 0;
        proof {
            assert(self.deep_view().methods.take(0) =~= Seq::<AMethod>::empty());
        }
        while i < n
            invariant
                n == self.methods@.len(),
                i <= n,
                found.deep_view() == spec_find_last_method(
                    self.deep_view().methods.take(i as int),
                    name@,
                ),
            decreases n - i,
        {
            proof {
                assert(self.deep_view().methods.take(i + 1).last() == self.deep_view().methods[
                    i as int
                ]);
                assert(self.deep_view().methods.take(i + 1).drop_last() =~= self.deep_view().methods.take(
                    i as int,
                ));
            }
            if self.methods[i].method_name == *name {
                found = Some(self.methods[i].clone());
            }
            i += 1;
        }
        proof {
            assert(self.deep_view().methods.take(n as int) =~= self.deep_view().methods);
        }
        found
    }
}

} // verus!
