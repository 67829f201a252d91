//! Per-path execution state.
//!
//! A [`Branch`] is one in-flight execution path of the symbolic interpreter:
//! a program counter, the previous program counter (used to detect a stuck
//! branch), a `finished` flag, and a [`State`] holding the symbolic
//! registers, the most recent interesting event, the taint flag and the
//! per-offset visit counters.  Branch identity is the random 64-bit `id`.

use vstd::prelude::*;
use std::collections::HashMap;
use crate::value::{ALastInstruction, AValue, LastInstruction, Value};

verus! {

/// Relies on `rand::random`: draws a fresh value of `T` from the thread-local
/// generator.  Nothing is assumed about the value.
pub assume_specification<T>[ rand::random::<T> ]() -> (r: T)
    where
        rand::distributions::Standard: rand::distributions::Distribution<T>,
;

/// The mutable environment of one branch.
pub struct State {
    pub id: u64,
    pub registers: Vec<Value>,
    pub last_instruction: Option<LastInstruction>,
    pub tainted: bool,
    pub loop_count: HashMap<i64, u32>,
}

/// Mathematical model of a [`State`].
pub struct AState {
    pub id: u64,
    pub registers: Seq<AValue>,
    pub last_instruction: Option<ALastInstruction>,
    pub tainted: bool,
    pub loop_count: Map<i64, u32>,
}

impl DeepView for State {
    type V = AState;

    open spec fn deep_view(&self) -> AState {
        AState {
            id: self.id,
            registers: self.registers.deep_view(),
            last_instruction: self.last_instruction.deep_view(),
            tainted: self.tainted,
            loop_count: self.loop_count@,
        }
    }
}

impl Clone for State {
    fn clone(&self) -> (res: Self)
        ensures
            res.deep_view() == self.deep_view(),
    {
        let registers = self.registers.clone();
        let last_instruction = self.last_instruction.clone();
        let loop_count = self.loop_count.clone();
        proof {
            assert(registers.deep_view() =~= self.registers.deep_view());
        }
        State { id: self.id, registers, last_instruction, tainted: self.tainted, loop_count }
    }
}

impl Default for State {
    /// A fresh state: random id, no registers, no event, untainted,
    /// no visits counted.
    fn default() -> (res: Self)
        ensures
            res.deep_view().registers == Seq::<AValue>::empty(),
            res.deep_view().last_instruction is None,
            !res.deep_view().tainted,
            res.deep_view().loop_count == Map::<i64, u32>::empty(),
    {
        let res = State {
            id: rand::random::<u64>(),
            registers: Vec::new(),
            last_instruction: None,
            tainted: false,
            loop_count: HashMap::new(),
        };
        proof {
            assert(res.registers.deep_view() =~= Seq::<AValue>::empty());
        }
        res
    }
}

/// One in-flight execution path.
pub struct Branch {
    pub parent_id: Option<u64>,
    pub id: u64,
    pub pc: i64,
    pub state: State,
    pub previous_pc: i64,
    pub finished: bool,
}

/// Mathematical model of a [`Branch`].
pub struct ABranch {
    pub parent_id: Option<u64>,
    pub id: u64,
    pub pc: i64,
    pub state: AState,
    pub previous_pc: i64,
    pub finished: bool,
}

impl DeepView for Branch {
    type V = ABranch;

    open spec fn deep_view(&self) -> ABranch {
        ABranch {
            parent_id: self.parent_id,
            id: self.id,
            pc: self.pc,
            state: self.state.deep_view(),
            previous_pc: self.previous_pc,
            finished: self.finished,
        }
    }
}

impl Clone for Branch {
    fn clone(&self) -> (res: Self)
        ensures
            res.deep_view() == self.deep_view(),
    {
        Branch {
            parent_id: self.parent_id,
            id: self.id,
            pc: self.pc,
            state: self.state.clone(),
            previous_pc: self.previous_pc,
            finished: self.finished,
        }
    }
}

impl Default for Branch {
    /// A fresh root branch at offset zero: random id, no parent,
    /// default state, not finished.
    fn default() -> (res: Self)
        ensures
            res.deep_view().parent_id is None,
            res.deep_view().pc == 0,
            res.deep_view().previous_pc == 0,
            !res.deep_view().finished,
            res.deep_view().state.registers == Seq::<AValue>::empty(),
            res.deep_view().state.last_instruction is None,
            !res.deep_view().state.tainted,
    {
        Branch {
            parent_id: None,
            id: rand::random::<u64>(),
            pc: 0,
            previous_pc: 0,
            state: State::default(),
            finished: false,
        }
    }
}

impl PartialEq for Branch {
    /// Branch identity is the `id` alone.
    fn eq(&self, other: &Self) -> bool {
        self.id == other.id
    }
}

impl vstd::std_specs::cmp::PartialEqSpecImpl for Branch {
    open spec fn obeys_eq_spec() -> bool {
        true
    }

    open spec fn eq_spec(&self, other: &Self) -> bool {
        self.id == other.id
    }
}

} // verus!
