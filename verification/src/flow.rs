//! The flow engine.
//!
//! [`InstructionFlow`] owns the branch list, the immutable decoded-method
//! map, the DEX symbol view, the register width, the revisit log and the
//! conservative flag.  One tick ([`InstructionFlow::next_instruction`])
//! advances every non-finished branch by one instruction, then drains taint
//! requests (propagating taint down the parent tree to a fixed point) and
//! admits queued forks subject to the branch-count cap.

use vstd::prelude::*;
use std::collections::HashMap;
use crate::branch::{ABranch, AState, Branch, State};
use crate::dex::{ADexSymbols, CodeItem, DexSymbols};
use crate::instr::Instruction;
use crate::step::{map_wf, step_branch, step_spec};
use crate::value::{ALastInstruction, AValue, InstructionType, LastInstruction, Value};

verus! {

broadcast use {crate::value::lemma_add_empty, crate::value::lemma_push_is_add_one};

/// Declares the compiled pattern type of the regex crate, so that the
/// regex-filtered queries can take one.
#[verifier::external_type_specification]
#[verifier::external_body]
pub struct ExRegex(regex::Regex);

/// Relies on `regex::Regex::is_match`: whether the pattern matches anywhere
/// in the haystack.  Nothing is assumed about the answer; callers treat it
/// as an arbitrary predicate.
pub assume_specification[ regex::Regex::is_match ](re: &regex::Regex, haystack: &str) -> bool;

/// Whether a branch snapshot is positioned at a conditional test.
pub open spec fn at_decision(b: ABranch, m: Map<i64, (u32, Instruction)>) -> bool {
    m.dom().contains(b.pc) && (m[b.pc].1 matches Instruction::Test(_, _, _, _) || m[b.pc].1
        matches Instruction::TestZero(_, _, _))
}

/// The characteristic string of a pending event, under the query kind:
/// the call signature for calls, the field name for static reads and
/// writes.
pub open spec fn event_key(li: ALastInstruction, kind: InstructionType) -> Option<Seq<char>> {
    match (li, kind) {
        (ALastInstruction::FunctionCall { signature, .. }, InstructionType::FunctionCall) => Some(
            signature,
        ),
        (ALastInstruction::ReadStaticField { name, .. }, InstructionType::ReadStaticField) => Some(
            name,
        ),
        (
            ALastInstruction::StoreStaticField { name, .. },
            InstructionType::StoreStaticField,
        ) => Some(name),
        _ => None,
    }
}

/// Whether the predicate can only answer `true` on this key: every answer
/// its contract allows for a call on the key is `true`.
pub open spec fn op_approves<F: Fn(&str) -> bool>(op: F, key: Seq<char>) -> bool {
    forall|s: &str, r: bool| s@ == key && #[trigger] call_ensures(op, (s,), r) ==> r
}

/// The outer iteration cap of the quiescence queries.
pub const MAX_ITERATIONS: usize = 1000;

/// The path-sensitive symbolic interpreter for one decoded method.
pub struct InstructionFlow {
    branches: Vec<Branch>,
    method: HashMap<i64, (u32, Instruction)>,
    dex: DexSymbols,
    register_size: u16,
    already_branched: Vec<(u64, i64)>,
    conservative: bool,
}

/// All registers of every branch in the sequence have the given width.
pub open spec fn branches_wf(s: Seq<ABranch>, nregs: int) -> bool {
    forall|i: int| 0 <= i < s.len() ==> #[trigger] s[i].state.registers.len() == nregs
}

/// Taint is closed downward over the parent links: a branch whose parent is
/// tainted is tainted itself.
pub open spec fn taint_closed(s: Seq<ABranch>) -> bool {
    forall|i: int, j: int|
        0 <= i < s.len() && 0 <= j < s.len() && s[j].parent_id == Some(s[i].id)
            && #[trigger] s[i].state.tainted ==> #[trigger] s[j].state.tainted
}

/// Every branch is finished.
pub open spec fn spec_done(s: Seq<ABranch>) -> bool {
    forall|i: int| 0 <= i < s.len() ==> #[trigger] s[i].finished
}

/// `b` is `a` with at most the taint flag changed.
pub open spec fn same_but_tainted(a: ABranch, b: ABranch) -> bool {
    b == (ABranch { state: (AState { tainted: b.state.tainted, ..a.state }), ..a })
}

/// `s2` is `s1` with taint flags only ever turned on.
pub open spec fn taint_evolves(s1: Seq<ABranch>, s2: Seq<ABranch>) -> bool {
    &&& s1.len() == s2.len()
    &&& forall|j: int| 0 <= j < s1.len() ==> same_but_tainted(s1[j], #[trigger] s2[j])
    &&& forall|j: int|
        0 <= j < s1.len() && #[trigger] s1[j].state.tainted ==> s2[j].state.tainted
}

/// Everything the stepping phase of one tick produces: the branch list with
/// every non-finished branch replaced by its post-state, the grown revisit
/// log, and the queued forks and taint requests, in branch order.
pub struct TickOut {
    pub branches: Seq<ABranch>,
    pub log: Seq<(u64, i64)>,
    pub adds: Seq<(i64, ABranch)>,
    pub taints: Seq<u64>,
}

/// The stepping phase of one tick from branch `i` on: each non-finished
/// branch is replaced by the post-state of its [`step_spec`] transition
/// against the revisit log as grown so far, and the log, fork and taint
/// accumulators grow by what that step produced.
pub open spec fn tick_from(
    bs: Seq<ABranch>,
    i: int,
    m: Map<i64, (u32, Instruction)>,
    dexv: ADexSymbols,
    conservative: bool,
    log: Seq<(u64, i64)>,
    adds: Seq<(i64, ABranch)>,
    taints: Seq<u64>,
) -> TickOut
    decreases bs.len() - i,
{
    if i < 0 || i >= bs.len() {
        TickOut { branches: bs, log, adds, taints }
    } else if bs[i].finished {
        tick_from(bs, i + 1, m, dexv, conservative, log, adds, taints)
    } else {
        let out = step_spec(bs[i], m, dexv, conservative, log);
        tick_from(
            bs.update(i, out.post),
            i + 1,
            m,
            dexv,
            conservative,
            log + out.log_app,
            adds + out.adds,
            taints + out.taints,
        )
    }
}

/// The stepping phase of one whole tick.
pub open spec fn spec_tick(
    bs: Seq<ABranch>,
    m: Map<i64, (u32, Instruction)>,
    dexv: ADexSymbols,
    conservative: bool,
    log: Seq<(u64, i64)>,
) -> TickOut {
    tick_from(bs, 0, m, dexv, conservative, log, Seq::empty(), Seq::empty())
}

/// Whether the id occurs among the queued taint requests.
pub open spec fn hits(taints: Seq<u64>, id: u64) -> bool {
    exists|k: int| 0 <= k < taints.len() && taints[k] == id
}

/// `b` is an admitted fork of the queued clone `a`: fresh branch and state
/// ids, everything else equal.
pub open spec fn fork_exact(a: ABranch, b: ABranch) -> bool {
    b == (ABranch { id: b.id, state: (AState { id: b.state.id, ..a.state }), ..a })
}

/// `b` is an admitted fork of the queued clone `a` after the tick's closing
/// taint pass: fresh ids, the taint flag possibly turned on, everything
/// else equal.
pub open spec fn fork_of(a: ABranch, b: ABranch) -> bool {
    &&& b == (ABranch {
        id: b.id,
        state: (AState { id: b.state.id, tainted: b.state.tainted, ..a.state }),
        ..a
    })
    &&& (a.state.tainted ==> b.state.tainted)
}

/// The number of untainted branches.
pub open spec fn count_untainted(s: Seq<ABranch>) -> nat
    decreases s.len(),
{
    if s.len() == 0 {
        0
    } else {
        count_untainted(s.drop_last()) + (if s.last().state.tainted {
            0nat
        } else {
            1nat
        })
    }
}

/// Turning taint flags on never raises the untainted count, and turning at
/// least one on strictly lowers it.
proof fn lemma_count_untainted_mono(s1: Seq<ABranch>, s2: Seq<ABranch>)
    requires
        s1.len() == s2.len(),
        forall|j: int| 0 <= j < s1.len() && #[trigger] s1[j].state.tainted ==> s2[j].state.tainted,
    ensures
        count_untainted(s2) <= count_untainted(s1),
        (exists|j: int| 0 <= j < s1.len() && !s1[j].state.tainted && #[trigger] s2[j].state.tainted)
            ==> count_untainted(s2) < count_untainted(s1),
    decreases s1.len(),
{
    if s1.len() > 0 {
        let p1 = s1.drop_last();
        let p2 = s2.drop_last();
        assert(forall|j: int| 0 <= j < p1.len() ==> #[trigger] p1[j] == s1[j]);
        assert(forall|j: int| 0 <= j < p2.len() ==> #[trigger] p2[j] == s2[j]);
        lemma_count_untainted_mono(p1, p2);
        if exists|j: int|
            0 <= j < s1.len() && !s1[j].state.tainted && #[trigger] s2[j].state.tainted {
            let j = choose|j: int|
                0 <= j < s1.len() && !s1[j].state.tainted && #[trigger] s2[j].state.tainted;
            if j == s1.len() - 1 {
                assert(count_untainted(s2) < count_untainted(s1));
            } else {
                assert(!p1[j].state.tainted && p2[j].state.tainted);
                assert(count_untainted(p2) < count_untainted(p1));
            }
        }
    }
}

/// Branch `j`'s ancestor chain, followed through the parent links within
/// the sequence for at most `fuel` hops, contains branch `i`.
pub open spec fn reaches(s: Seq<ABranch>, i: int, j: int, fuel: nat) -> bool
    decreases fuel,
{
    0 <= i < s.len() && 0 <= j < s.len() && (s[j].parent_id == Some(s[i].id) || (fuel > 0
        && exists|k: int|
        0 <= k < s.len() && s[j].parent_id == Some((#[trigger] s[k]).id) && reaches(
            s,
            i,
            k,
            (fuel - 1) as nat,
        )))
}

/// Taint propagates: when taint is closed downward over the parent links —
/// as it is after every tick — a branch whose ancestor chain contains a
/// tainted branch is tainted itself.
pub proof fn lemma_taint_propagates(s: Seq<ABranch>, i: int, j: int, fuel: nat)
    requires
        taint_closed(s),
        reaches(s, i, j, fuel),
        s[i].state.tainted,
    ensures
        s[j].state.tainted,
    decreases fuel,
{
    if s[j].parent_id == Some(s[i].id) {
    } else {
        let k = choose|k: int|
            0 <= k < s.len() && s[j].parent_id == Some((#[trigger] s[k]).id) && reaches(
                s,
                i,
                k,
                (fuel - 1) as nat,
            );
        lemma_taint_propagates(s, i, k, (fuel - 1) as nat);
    }
}

/// Every taint in `s` is grounded in `base`: a tainted branch was already
/// tainted in `base`, or descends from one that was.
pub open spec fn taint_from(base: Seq<ABranch>, s: Seq<ABranch>) -> bool {
    forall|i: int|
        0 <= i < s.len() && (#[trigger] s[i]).state.tainted ==> base[i].state.tainted || exists|
            k: int,
            fuel: nat,
        | 0 <= k < base.len() && base[k].state.tainted && #[trigger] reaches(base, k, i, fuel)
}

/// Ancestry only reads ids and parent links, which the taint flag leaves
/// untouched.
proof fn lemma_reaches_evolves(s1: Seq<ABranch>, s2: Seq<ABranch>, k: int, i: int, fuel: nat)
    requires
        s1.len() == s2.len(),
        forall|j: int| 0 <= j < s1.len() ==> same_but_tainted(s1[j], #[trigger] s2[j]),
        reaches(s1, k, i, fuel),
    ensures
        reaches(s2, k, i, fuel),
    decreases fuel,
{
    assert(same_but_tainted(s1[i], s2[i]));
    assert(same_but_tainted(s1[k], s2[k]));
    if s1[i].parent_id == Some(s1[k].id) {
    } else {
        let mid = choose|mid: int|
            0 <= mid < s1.len() && s1[i].parent_id == Some((#[trigger] s1[mid]).id) && reaches(
                s1,
                k,
                mid,
                (fuel - 1) as nat,
            );
        lemma_reaches_evolves(s1, s2, k, mid, (fuel - 1) as nat);
        assert(same_but_tainted(s1[mid], s2[mid]));
        assert(0 <= mid < s2.len() && s2[i].parent_id == Some(s2[mid].id) && reaches(
            s2,
            k,
            mid,
            (fuel - 1) as nat,
        ));
    }
}

/// Where a branch's taint after one tick must come from: for a previously
/// present branch, its own step or a queued taint request on its id; for an
/// admitted fork, the taint of its queued clone.
pub open spec fn tick_taint_source(t: TickOut, n: int, i: int) -> bool {
    if i < n {
        t.branches[i].state.tainted || hits(t.taints, t.branches[i].id)
    } else {
        t.adds[i - n].1.state.tainted
    }
}

/// Taint evolution composes.
proof fn lemma_taint_evolves_trans(s1: Seq<ABranch>, s2: Seq<ABranch>, s3: Seq<ABranch>)
    requires
        taint_evolves(s1, s2),
        taint_evolves(s2, s3),
    ensures
        taint_evolves(s1, s3),
{
    assert forall|j: int| 0 <= j < s1.len() implies same_but_tainted(s1[j], #[trigger] s3[j]) by {
        assert(same_but_tainted(s1[j], s2[j]));
        assert(same_but_tainted(s2[j], s3[j]));
    }
}

/// Whether some branch with this id is tainted.
fn has_tainted_id(branches: &Vec<Branch>, id: u64) -> (res: bool)
    ensures
        res == exists|i: int|
            0 <= i < branches.deep_view().len() && (#[trigger] branches.deep_view()[i]).id == id
                && branches.deep_view()[i].state.tainted,
{
    let n = branches.len();
    let mut i: usize = 0;
    while i < n
        invariant
            n == branches@.len(),
            i <= n,
            forall|j: int|
                0 <= j < i ==> !((#[trigger] branches.deep_view()[j]).id == id
                    && branches.deep_view()[j].state.tainted),
        decreases n - i,
    {
        if branches[i].id == id && branches[i].state.tainted {
            proof {
                assert(branches.deep_view()[i as int].id == id
                    && branches.deep_view()[i as int].state.tainted);
            }
            return true;
        }
        i += 1;
    }
    false
}

/// Turn the taint flag of one branch on.
fn set_tainted(branches: &mut Vec<Branch>, j: usize)
    requires
        j < old(branches)@.len(),
    ensures
        final(branches).deep_view().len() == old(branches).deep_view().len(),
        forall|k: int|
            0 <= k < old(branches).deep_view().len() && k != j ==> final(branches).deep_view()[k]
                == old(branches).deep_view()[k],
        same_but_tainted(old(branches).deep_view()[j as int], final(branches).deep_view()[j as int]),
        final(branches).deep_view()[j as int].state.tainted,
{
    let mut nb = branches[j].clone();
    nb.state.tainted = true;
    let ghost pre = branches.deep_view();
    let ghost nbdv = nb.deep_view();
    branches.set(j, nb);
    proof {
        assert(branches.deep_view() =~= pre.update(j as int, nbdv));
    }
}

/// Mark every branch carrying this id as tainted; nothing else changes.
fn mark_tainted(branches: &mut Vec<Branch>, id: u64)
    ensures
        final(branches).deep_view().len() == old(branches).deep_view().len(),
        forall|j: int|
            0 <= j < old(branches).deep_view().len() ==> same_but_tainted(
                old(branches).deep_view()[j],
                #[trigger] final(branches).deep_view()[j],
            ),
        forall|j: int|
            0 <= j < old(branches).deep_view().len()
                ==> (#[trigger] final(branches).deep_view()[j]).state.tainted == (old(
                branches,
            ).deep_view()[j].state.tainted || old(branches).deep_view()[j].id == id),
{
    let n = branches.len();
    let mut i: usize = 0;
    while i < n
        invariant
            n == branches@.len(),
            i <= n,
            forall|j: int|
                0 <= j < n ==> same_but_tainted(
                    old(branches).deep_view()[j],
                    #[trigger] branches.deep_view()[j],
                ),
            forall|j: int|
                0 <= j < i ==> (#[trigger] branches.deep_view()[j]).state.tainted == (old(
                    branches,
                ).deep_view()[j].state.tainted || old(branches).deep_view()[j].id == id),
            forall|j: int|
                i <= j < n ==> #[trigger] branches.deep_view()[j] == old(branches).deep_view()[j],
        decreases n - i,
    {
        if branches[i].id == id && !branches[i].state.tainted {
            set_tainted(branches, i);
        }
        i += 1;
    }
}

/// One taint-propagation pass over the parent links.  Returns whether any
/// flag was turned on; a pass that changes nothing witnesses that taint is
/// closed downward.  Every taint it sets is grounded in `base`, an earlier
/// state whose taints the current ones descend from.
fn taint_pass(branches: &mut Vec<Branch>, Ghost(base): Ghost<Seq<ABranch>>) -> (changed: bool)
    requires
        taint_evolves(base, old(branches).deep_view()),
        taint_from(base, old(branches).deep_view()),
    ensures
        taint_evolves(old(branches).deep_view(), final(branches).deep_view()),
        taint_evolves(base, final(branches).deep_view()),
        taint_from(base, final(branches).deep_view()),
        !changed ==> final(branches).deep_view() == old(branches).deep_view() && taint_closed(
            final(branches).deep_view(),
        ),
        changed ==> count_untainted(final(branches).deep_view()) < count_untainted(
            old(branches).deep_view(),
        ),
{
    let n = branches.len();
    let mut changed = false;
    let mut j: usize = 0;
    proof {
        lemma_taint_evolves_trans(base, old(branches).deep_view(), branches.deep_view());
    }
    while j < n
        invariant
            n == branches@.len(),
            n == base.len(),
            j <= n,
            taint_evolves(old(branches).deep_view(), branches.deep_view()),
            taint_evolves(base, branches.deep_view()),
            taint_from(base, branches.deep_view()),
            !changed ==> branches.deep_view() == old(branches).deep_view(),
            !changed ==> forall|j2: int, i: int|
                0 <= j2 < j && 0 <= i < n && (#[trigger] branches.deep_view()[j2]).parent_id
                    == Some((#[trigger] branches.deep_view()[i]).id)
                    && branches.deep_view()[i].state.tainted ==> branches.deep_view()[
                    j2
                ].state.tainted,
            changed ==> exists|k: int|
                0 <= k < n && !old(branches).deep_view()[k].state.tainted && (
                #[trigger] branches.deep_view()[k]).state.tainted,
        decreases n - j,
    {
        if !branches[j].state.tainted {
            let pid = branches[j].parent_id;
            if let Some(pidv) = pid {
                if has_tainted_id(branches, pidv) {
                    let ghost cur = branches.deep_view();
                    let ghost p = choose|p: int|
                        0 <= p < cur.len() && (#[trigger] cur[p]).id == pidv && cur[
                            p
                        ].state.tainted;
                    set_tainted(branches, j);
                    changed = true;
                    proof {
                        lemma_taint_evolves_trans(
                            old(branches).deep_view(),
                            cur,
                            branches.deep_view(),
                        );
                        lemma_taint_evolves_trans(base, cur, branches.deep_view());
                        assert(same_but_tainted(base[p], cur[p]));
                        assert(same_but_tainted(base[j as int], cur[j as int]));
                        assert(base[j as int].parent_id == Some(base[p].id));
                        assert forall|i2: int|
                            0 <= i2 < n && (#[trigger] branches.deep_view()[i2]).state.tainted
                                implies base[i2].state.tainted || exists|k: int, fuel: nat|
                            0 <= k < base.len() && base[k].state.tainted && #[trigger] reaches(
                                base,
                                k,
                                i2,
                                fuel,
                            ) by {
                            if i2 != j as int {
                                assert(cur[i2].state.tainted);
                            } else {
                                if base[p].state.tainted {
                                    assert(reaches(base, p, j as int, 0));
                                } else {
                                    let (k, fuel): (int, nat) = choose|k: int, fuel: nat|
                                        0 <= k < base.len() && base[k].state.tainted && #[trigger] reaches(
                                            base,
                                            k,
                                            p,
                                            fuel,
                                        );
                                    assert(0 <= p < base.len() && base[j as int].parent_id
                                        == Some(base[p].id) && reaches(base, k, p, fuel));
                                    assert(reaches(base, k, j as int, fuel + 1));
                                }
                            }
                        }
                    }
                }
            }
        }
        j += 1;
    }
    proof {
        if changed {
            lemma_count_untainted_mono(old(branches).deep_view(), branches.deep_view());
        }
    }
    changed
}

/// Propagate taint down the parent tree to a fixed point: afterwards taint
/// is closed downward, and every branch tainted here was tainted before or
/// descends from one that was.
fn propagate_taints(branches: &mut Vec<Branch>)
    ensures
        taint_evolves(old(branches).deep_view(), final(branches).deep_view()),
        taint_closed(final(branches).deep_view()),
        taint_from(old(branches).deep_view(), final(branches).deep_view()),
{
    let ghost base = branches.deep_view();
    let mut changed = true;
    proof {
        assert forall|j: int| 0 <= j < base.len() implies same_but_tainted(
            base[j],
            #[trigger] branches.deep_view()[j],
        ) by {}
    }
    while changed
        invariant
            base.len() == branches.deep_view().len(),
            taint_evolves(base, branches.deep_view()),
            taint_from(base, branches.deep_view()),
            !changed ==> taint_closed(branches.deep_view()),
        decreases count_untainted(branches.deep_view()), (if changed {
            1int
        } else {
            0int
        }),
    {
        changed = taint_pass(branches, Ghost(base));
    }
}

impl InstructionFlow {
    /// Structural well-formedness: the method map holds 32-bit offsets and
    /// every branch has exactly `register_size` registers.
    pub open spec fn wf(&self) -> bool {
        &&& map_wf(self.method_view())
        &&& branches_wf(self.branches_view(), self.spec_register_size() as int)
    }

    /// The model of the branch list.
    pub closed spec fn branches_view(&self) -> Seq<ABranch> {
        self.branches.deep_view()
    }

    /// The model of the DEX symbol view the engine consults.
    pub closed spec fn dex_view(&self) -> crate::dex::ADexSymbols {
        self.dex.deep_view()
    }

    /// The model of the method map.
    pub closed spec fn method_view(&self) -> Map<i64, (u32, Instruction)> {
        self.method@
    }

    /// The model of the revisit log.
    pub closed spec fn log_view(&self) -> Seq<(u64, i64)> {
        self.already_branched@
    }

    /// The configured register width.
    pub closed spec fn spec_register_size(&self) -> u16 {
        self.register_size
    }

    /// Whether the engine forks pessimistically on symbolic conditions.
    pub closed spec fn spec_conservative(&self) -> bool {
        self.conservative
    }

    /// Build the engine for one decoded method: the `(size, offset,
    /// instruction)` triples become the offset-indexed instruction table
    /// (triples whose offset does not fit in 32 bits are dropped as
    /// malformed), and the branch list starts empty.
    pub fn new(method: CodeItem, dex: DexSymbols, conservative: bool) -> (res: Self)
        ensures
            res.wf(),
            res.branches_view() == Seq::<ABranch>::empty(),
            res.spec_register_size() == method.register_size,
            res.spec_conservative() == conservative,
            res.dex_view() == dex.deep_view(),
            res.log_view() == Seq::<(u64, i64)>::empty(),
            forall|j: int|
                0 <= j < method.insns@.len() && 0 <= #[trigger] method.insns@[j].1 <= u32::MAX
                    ==> res.method_view().dom().contains(method.insns@[j].1),
            forall|k: i64|
                #[trigger] res.method_view().dom().contains(k) ==> exists|j: int|
                    0 <= j < method.insns@.len() && method.insns@[j].1 == k
                        && res.method_view()[k] == (
                    method.insns@[j].0,
                    method.insns@[j].2,
                    ),
    {
        let register_size = method.register_size;
        let mut insns = method.insns;
        let ghost orig = insns@;
        let mut map: HashMap<i64, (u32, Instruction)> = HashMap::new();
        proof {
            assert(insns@ =~= orig.take(orig.len() as int));
        }
        while insns.len() > 0
            invariant
                insns@.len() <= orig.len(),
                insns@ == orig.take(insns@.len() as int),
                map_wf(map@),
                forall|j: int|
                    insns@.len() <= j < orig.len() && 0 <= #[trigger] orig[j].1 <= u32::MAX
                        ==> map@.dom().contains(orig[j].1),
                forall|k: i64|
                    #[trigger] map@.dom().contains(k) ==> exists|j: int|
                        0 <= j < orig.len() && orig[j].1 == k && map@[k] == (
                        orig[j].0,
                        orig[j].2,
                        ),
            decreases insns@.len(),
        {
            let ghost p = insns@.len() as int;
            proof {
                assert(orig.take(p)[p - 1] == orig[p - 1]);
            }
            let nxt = insns.pop();
            proof {
                assert(insns@ =~= orig.take(p - 1));
                assert(nxt == Some(orig[p - 1]));
            }
            if let Some((size, offset, instruction)) = nxt {
                if 0 <= offset && offset <= (u32::MAX as i64) {
                    map.insert(offset, (size, instruction));
                    proof {
                        assert(orig[p - 1] == (size, offset, instruction));
                        assert(map@[offset] == (size, instruction));
                    }
                }
            }
        }
        InstructionFlow {
            branches: Vec::new(),
            method: map,
            dex,
            register_size,
            already_branched: Vec::new(),
            conservative,
        }
    }

    /// The instruction and its size stored at `offset`, if any.
    pub fn get_instruction(&self, offset: i64) -> (res: Option<&(u32, Instruction)>)
        ensures
            match res {
                Some(e) => self.method_view().dom().contains(offset) && *e == self.method_view()[
                    offset
                ],
                None => !self.method_view().dom().contains(offset),
            },
    {
        self.method.get(&offset)
    }

    /// The offset-indexed instruction table.
    pub fn get_method_map(&self) -> (res: &HashMap<i64, (u32, Instruction)>)
        ensures
            res@ == self.method_view(),
    {
        &self.method
    }

    /// Whether every branch is finished.
    pub fn is_done(&self) -> (res: bool)
        ensures
            res == spec_done(self.branches_view()),
    {
        let n = self.branches.len();
        let mut i: usize = 0;
        while i < n
            invariant
                n == self.branches@.len(),
                i <= n,
                forall|j: int| 0 <= j < i ==> #[trigger] self.branches.deep_view()[j].finished,
            decreases n - i,
        {
            if !self.branches[i].finished {
                proof {
                    assert(!self.branches.deep_view()[i as int].finished);
                }
                return false;
            }
            i += 1;
        }
        true
    }

    /// The states of all branches, by reference and in branch order.
    pub fn get_all_states(&self) -> (res: Vec<&State>)
        ensures
            res@.len() == self.branches_view().len(),
            forall|i: int|
                0 <= i < res@.len() ==> #[trigger] res@[i].deep_view() == self.branches_view()[
                    i
                ].state,
    {
        let n = self.branches.len();
        let mut res: Vec<&State> = Vec::new();
        let mut i: usize = 0;
        while i < n
            invariant
                n == self.branches@.len(),
                i <= n,
                res@.len() == i,
                forall|j: int|
                    0 <= j < i ==> #[trigger] res@[j].deep_view() == self.branches.deep_view()[
                        j
                    ].state,
            decreases n - i,
        {
            res.push(&self.branches[i].state);
            i += 1;
        }
        res
    }

    /// The branch list itself.
    pub fn get_all_branches(&self) -> (res: &Vec<Branch>)
        ensures
            res.deep_view() == self.branches_view(),
    {
        &self.branches
    }

    /// Clear all branches and the revisit log and seed one fresh branch at
    /// `start`.
    pub fn reset(&mut self, start: u32)
        requires
            old(self).wf(),
        ensures
            final(self).wf(),
            final(self).method_view() == old(self).method_view(),
            final(self).spec_register_size() == old(self).spec_register_size(),
            final(self).spec_conservative() == old(self).spec_conservative(),
            final(self).dex_view() == old(self).dex_view(),
            final(self).log_view() == Seq::<(u64, i64)>::empty(),
            final(self).branches_view().len() == 1,
            ({
                let b = final(self).branches_view()[0];
                &&& b.pc == start as i64
                &&& b.previous_pc == start as i64
                &&& !b.finished
                &&& b.parent_id is None
                &&& !b.state.tainted
                &&& b.state.last_instruction is None
                &&& b.state.loop_count == Map::<i64, u32>::empty()
                &&& b.state.registers == Seq::new(
                    old(self).spec_register_size() as nat,
                    |j: int| AValue::Empty,
                )
            }),
    {
        self.branches.clear();
        self.already_branched.clear();
        self.new_branch(start as i64, None);
    }

    /// Append a fresh root branch at `pc`, unless more than ten roots are
    /// already live: bare creation is capped.
    fn new_branch(&mut self, pc: i64, parent_id: Option<u64>)
        requires
            old(self).wf(),
        ensures
            final(self).wf(),
            final(self).method_view() == old(self).method_view(),
            final(self).spec_register_size() == old(self).spec_register_size(),
            final(self).spec_conservative() == old(self).spec_conservative(),
            final(self).dex_view() == old(self).dex_view(),
            final(self).log_view() == old(self).log_view(),
            old(self).branches_view().len() > 10 ==> final(self).branches_view() == old(
                self,
            ).branches_view(),
            old(self).branches_view().len() <= 10 ==> ({
                let b = final(self).branches_view().last();
                &&& final(self).branches_view().drop_last() == old(self).branches_view()
                &&& final(self).branches_view().len() == old(self).branches_view().len() + 1
                &&& b.pc == pc
                &&& b.previous_pc == pc
                &&& !b.finished
                &&& b.parent_id == parent_id
                &&& !b.state.tainted
                &&& b.state.last_instruction is None
                &&& b.state.loop_count == Map::<i64, u32>::empty()
                &&& b.state.registers == Seq::new(
                    old(self).spec_register_size() as nat,
                    |j: int| AValue::Empty,
                )
            }),
    {
        if self.branches.len() > 10 {
            return;
        }
        let registers: Vec<Value> = vec![Value::Empty; self.register_size as usize];
        proof {
            assert(registers.deep_view() =~= Seq::new(
                self.register_size as nat,
                |j: int| AValue::Empty,
            ));
        }
        let b = Branch {
            parent_id,
            id: rand::random::<u64>(),
            pc,
            previous_pc: pc,
            state: State {
                id: rand::random::<u64>(),
                registers,
                last_instruction: None,
                tainted: false,
                loop_count: HashMap::new(),
            },
            finished: false,
        };
        let ghost pre = self.branches.deep_view();
        self.branches.push(b);
        proof {
            assert(self.branches.deep_view() =~= pre.push(
                self.branches@[pre.len() as int].deep_view(),
            ));
            assert(self.branches.deep_view().drop_last() =~= pre);
        }
    }

    /// One tick: advance every non-finished branch by one instruction, then
    /// propagate the queued taint requests down the parent tree to a fixed
    /// point, and finally admit the queued forks unless the branch count has
    /// reached its cap, logging each admitted fork's site in the revisit
    /// log.
    ///
    /// The contract states the transition: with `t` the stepping phase
    /// [`spec_tick`] of the old state, every previously present branch ends
    /// as its stepped post-state `t.branches[i]` with at most the taint flag
    /// turned on (and turned on at least whenever its id carries a taint
    /// request); below the branch cap, exactly the queued forks `t.adds`
    /// are appended under fresh ids with their fork sites logged; and
    /// afterwards taint is closed downward over the parent links — the one
    /// reason the taint flag of an otherwise untouched (even finished)
    /// branch may still change.  Conversely, every taint traces to a source
    /// ([`tick_taint_source`]): a branch's own step, a taint request on its
    /// id, a tainted queued clone, or a tainted ancestor.
    #[verifier::rlimit(100)]
    #[verifier::spinoff_prover]
    pub fn next_instruction(&mut self)
        requires
            old(self).wf(),
        ensures
            final(self).wf(),
            final(self).method_view() == old(self).method_view(),
            final(self).dex_view() == old(self).dex_view(),
            final(self).spec_register_size() == old(self).spec_register_size(),
            final(self).spec_conservative() == old(self).spec_conservative(),
            old(self).log_view().is_prefix_of(final(self).log_view()),
            final(self).branches_view().len() >= old(self).branches_view().len(),
            forall|i: int|
                0 <= i < old(self).branches_view().len() ==> (#[trigger] final(self).branches_view()[i]).id
                    == old(self).branches_view()[i].id && final(self).branches_view()[i].parent_id
                    == old(self).branches_view()[i].parent_id,
            forall|i: int|
                0 <= i < old(self).branches_view().len() && (#[trigger] old(self).branches_view()[
                    i
                ]).finished ==> same_but_tainted(
                    old(self).branches_view()[i],
                    final(self).branches_view()[i],
                ) && final(self).branches_view()[i].finished,
            taint_closed(final(self).branches_view()),
            ({
                let t = spec_tick(
                    old(self).branches_view(),
                    old(self).method_view(),
                    old(self).dex_view(),
                    old(self).spec_conservative(),
                    old(self).log_view(),
                );
                let fin = final(self).branches_view();
                let n = old(self).branches_view().len() as int;
                &&& forall|i: int|
                    0 <= i < n ==> same_but_tainted(t.branches[i], #[trigger] fin[i])
                &&& forall|i: int|
                    0 <= i < n && (#[trigger] t.branches[i]).state.tainted
                        ==> fin[i].state.tainted
                &&& forall|i: int|
                    0 <= i < n && hits(t.taints, (#[trigger] t.branches[i]).id)
                        ==> fin[i].state.tainted
                &&& (n < 1000 ==> {
                    &&& fin.len() == n + t.adds.len()
                    &&& forall|k: int|
                        0 <= k < t.adds.len() ==> fork_of((#[trigger] t.adds[k]).1, fin[n + k])
                    &&& final(self).log_view() == t.log + Seq::new(
                        t.adds.len(),
                        |k: int| (fin[n + k].id, t.adds[k].0),
                    )
                })
                &&& (n >= 1000 ==> fin.len() == n && final(self).log_view() == t.log)
                &&& forall|i: int|
                    0 <= i < fin.len() && (#[trigger] fin[i]).state.tainted ==> tick_taint_source(
                        t,
                        n,
                        i,
                    ) || exists|k: int, fuel: nat|
                        0 <= k < fin.len() && tick_taint_source(t, n, k) && #[trigger] reaches(
                            fin,
                            k,
                            i,
                            fuel,
                        )
            }),
    {
        let ghost mv = old(self).method_view();
        let ghost dexv = old(self).dex_view();
        let ghost cons = old(self).spec_conservative();
        let ghost log0 = old(self).log_view();
        let n = self.branches.len();
        let mut to_add: Vec<(i64, Branch)> = Vec::new();
        let mut to_taint: Vec<u64> = Vec::new();
        let mut i: usize = 0;
        proof {
            assert(to_add.deep_view() =~= Seq::<(i64, ABranch)>::empty());
            assert(to_taint@ =~= Seq::<u64>::empty());
        }
        while i < n
            invariant
                old(self).wf(),
                self.method == old(self).method,
                self.dex == old(self).dex,
                self.register_size == old(self).register_size,
                self.conservative == old(self).conservative,
                mv == old(self).method_view(),
                dexv == old(self).dex_view(),
                cons == old(self).spec_conservative(),
                log0 == old(self).log_view(),
                n == self.branches@.len(),
                n == old(self).branches_view().len(),
                i <= n,
                old(self).log_view().is_prefix_of(self.already_branched@),
                branches_wf(self.branches.deep_view(), self.register_size as int),
                spec_tick(old(self).branches_view(), mv, dexv, cons, log0) == tick_from(
                    self.branches.deep_view(),
                    i as int,
                    mv,
                    dexv,
                    cons,
                    self.already_branched@,
                    to_add.deep_view(),
                    to_taint@,
                ),
                forall|k: int|
                    0 <= k < to_add.deep_view().len() ==> (
                    #[trigger] to_add.deep_view()[k]).1.state.registers.len()
                        == self.register_size as int,
                forall|j: int|
                    0 <= j < n ==> (#[trigger] self.branches.deep_view()[j]).id == old(
                        self,
                    ).branches_view()[j].id && self.branches.deep_view()[j].parent_id == old(
                        self,
                    ).branches_view()[j].parent_id,
                forall|j: int|
                    0 <= j < n && (#[trigger] old(self).branches_view()[j]).finished
                        ==> self.branches.deep_view()[j] == old(self).branches_view()[j],
                forall|j: int|
                    i <= j < n ==> #[trigger] self.branches.deep_view()[j] == old(
                        self,
                    ).branches_view()[j],
            decreases n - i,
        {
            let ghost cur_bs = self.branches.deep_view();
            let ghost cur_log = self.already_branched@;
            let ghost cur_adds = to_add.deep_view();
            let ghost cur_taints = to_taint@;
            if !self.branches[i].finished {
                let mut bi = self.branches[i].clone();
                let ghost pre = bi.deep_view();
                proof {
                    assert(pre == self.branches.deep_view()[i as int]);
                    assert(pre.state.registers.len() == self.register_size as int);
                }
                step_branch(
                    &mut bi,
                    &self.method,
                    &self.dex,
                    self.conservative,
                    &mut self.already_branched,
                    &mut to_add,
                    &mut to_taint,
                );
                proof {
                    crate::step::lemma_step_out_wf(
                        pre,
                        self.method@,
                        self.dex.deep_view(),
                        self.conservative,
                        cur_log,
                        self.register_size as int,
                    );
                }
                let ghost bs = self.branches.deep_view();
                let ghost bidv = bi.deep_view();
                self.branches.set(i, bi);
                proof {
                    assert(self.branches.deep_view() =~= bs.update(i as int, bidv));
                    assert(tick_from(cur_bs, i as int, mv, dexv, cons, cur_log, cur_adds, cur_taints)
                        == tick_from(
                        self.branches.deep_view(),
                        i + 1,
                        mv,
                        dexv,
                        cons,
                        self.already_branched@,
                        to_add.deep_view(),
                        to_taint@,
                    ));
                }
            } else {
                proof {
                    assert(tick_from(cur_bs, i as int, mv, dexv, cons, cur_log, cur_adds, cur_taints)
                        == tick_from(cur_bs, i + 1, mv, dexv, cons, cur_log, cur_adds, cur_taints));
                }
            }
            i += 1;
        }
        let ghost tick_log = self.already_branched@;
        let ghost addsv = to_add.deep_view();
        let ghost taintsv = to_taint@;
        let mut bs: Vec<Branch> = Vec::new();
        core::mem::swap(&mut self.branches, &mut bs);
        let ghost ticked = bs.deep_view();
        proof {
            assert(tick_from(ticked, n as int, mv, dexv, cons, tick_log, addsv, taintsv)
                == (TickOut { branches: ticked, log: tick_log, adds: addsv, taints: taintsv }));
        }
        let m = to_taint.len();
        let mut k: usize = 0;
        while k < m
            invariant
                m == to_taint@.len(),
                taintsv == to_taint@,
                k <= m,
                n == bs@.len(),
                n == ticked.len(),
                forall|j: int|
                    0 <= j < n ==> same_but_tainted(ticked[j], #[trigger] bs.deep_view()[j]),
                forall|j: int|
                    0 <= j < n ==> (#[trigger] bs.deep_view()[j]).state.tainted == (
                    ticked[j].state.tainted || exists|kk: int|
                        0 <= kk < k && taintsv[kk] == ticked[j].id),
            decreases m - k,
        {
            let ghost cur = bs.deep_view();
            let id = to_taint[k];
            mark_tainted(&mut bs, id);
            proof {
                assert forall|j: int| 0 <= j < n implies same_but_tainted(
                    ticked[j],
                    #[trigger] bs.deep_view()[j],
                ) && ((#[trigger] bs.deep_view()[j]).state.tainted == (ticked[j].state.tainted
                    || exists|kk: int| 0 <= kk < k + 1 && taintsv[kk] == ticked[j].id)) by {
                    assert(same_but_tainted(ticked[j], cur[j]));
                    assert(same_but_tainted(cur[j], bs.deep_view()[j]));
                    assert(cur[j].id == ticked[j].id);
                    if exists|kk: int| 0 <= kk < k && taintsv[kk] == ticked[j].id {
                        let kk = choose|kk: int| 0 <= kk < k && taintsv[kk] == ticked[j].id;
                        assert(0 <= kk < k + 1 && taintsv[kk] == ticked[j].id);
                    }
                    if taintsv[k as int] == ticked[j].id {
                        assert(0 <= k < k + 1 && taintsv[k as int] == ticked[j].id);
                    }
                    if exists|kk: int| 0 <= kk < k + 1 && taintsv[kk] == ticked[j].id {
                        let kk = choose|kk: int| 0 <= kk < k + 1 && taintsv[kk] == ticked[j].id;
                        if kk < k {
                            assert(exists|kk2: int| 0 <= kk2 < k && taintsv[kk2] == ticked[j].id);
                        }
                    }
                }
            }
            k += 1;
        }
        let ghost marked = bs.deep_view();
        proof {
            assert forall|ii: int| 0 <= ii < n implies (
            #[trigger] marked[ii]).state.registers.len() == old(self).spec_register_size() as int
                && (marked[ii].state.tainted == (ticked[ii].state.tainted || hits(
                taintsv,
                ticked[ii].id,
            ))) by {
                assert(same_but_tainted(ticked[ii], marked[ii]));
            }
            assert(branches_wf(marked, old(self).spec_register_size() as int));
        }
        let mut new_log: Vec<(u64, i64)> = Vec::new();
        let admit_forks = bs.len() < 1000;
        if admit_forks {
            let mut rest = to_add;
            proof {
                assert(bs.deep_view().take(n as int) =~= marked);
                assert(rest.deep_view() =~= addsv.skip(0));
            }
            while rest.len() > 0
                invariant
                    n == marked.len(),
                    addsv.len() == new_log@.len() + rest.deep_view().len(),
                    rest.deep_view() == addsv.skip(new_log@.len() as int),
                    bs.deep_view().len() == n + new_log@.len(),
                    bs.deep_view().take(n as int) == marked,
                    forall|k2: int|
                        0 <= k2 < new_log@.len() ==> fork_exact(
                            addsv[k2].1,
                            #[trigger] bs.deep_view()[n + k2],
                        ) && new_log@[k2] == (bs.deep_view()[n + k2].id, addsv[k2].0),
                    forall|k2: int|
                        0 <= k2 < addsv.len() ==> (#[trigger] addsv[k2]).1.state.registers.len()
                            == old(self).spec_register_size() as int,
                    branches_wf(bs.deep_view(), old(self).spec_register_size() as int),
                decreases rest@.len(),
            {
                let ghost rdv = rest.deep_view();
                let ghost rseq = rest@;
                let ghost bsdv = bs.deep_view();
                let ghost done = new_log@.len() as int;
                let (offset, mut nb) = rest.remove(0);
                proof {
                    assert(rest.deep_view() =~= rdv.drop_first());
                    assert(rest.deep_view() =~= addsv.skip(done + 1));
                    assert(rdv[0] == rseq[0].deep_view());
                    assert(rdv[0] == addsv[done]);
                    assert(nb.deep_view() == addsv[done].1);
                    assert(offset == addsv[done].0);
                }
                let ghost nbdv = nb.deep_view();
                let id: u64 = rand::random::<u64>();
                nb.id = id;
                nb.state.id = rand::random::<u64>();
                let ghost forkdv = nb.deep_view();
                bs.push(nb);
                new_log.push((id, offset));
                proof {
                    assert(fork_exact(addsv[done].1, forkdv));
                    assert(forkdv.id == id);
                    assert(bs.deep_view() =~= bsdv.push(forkdv));
                    assert(bs.deep_view().take(n as int) =~= marked);
                }
            }
            proof {
                assert(addsv.skip(new_log@.len() as int).len() == 0);
                assert(new_log@.len() == addsv.len());
            }
        }
        let ghost forked = bs.deep_view();
        let ghost logged = new_log@;
        propagate_taints(&mut bs);
        core::mem::swap(&mut self.branches, &mut bs);
        self.already_branched.append(&mut new_log);
        proof {
            let pre = old(self).branches_view();
            let fin = self.branches.deep_view();
            let t = spec_tick(pre, mv, dexv, cons, log0);
            assert(t.branches == ticked && t.log == tick_log && t.adds == addsv && t.taints
                == taintsv);
            assert(self.already_branched@ == tick_log + logged);
            assert(old(self).log_view().is_prefix_of(self.already_branched@));
            assert forall|i: int| 0 <= i < n implies (#[trigger] fin[i]).id == pre[i].id && fin[
                i
            ].parent_id == pre[i].parent_id && same_but_tainted(ticked[i], fin[i]) && (ticked[
                i
            ].state.tainted ==> fin[i].state.tainted) && (hits(taintsv, ticked[i].id) ==> fin[
                i
            ].state.tainted) by {
                assert(same_but_tainted(ticked[i], marked[i]));
                assert(forked[i] == marked[i]);
                assert(same_but_tainted(forked[i], fin[i]));
            }
            assert forall|i: int| 0 <= i < n && (#[trigger] pre[i]).finished implies
                same_but_tainted(pre[i], fin[i]) && fin[i].finished by {
                assert(ticked[i] == pre[i]);
                assert(same_but_tainted(ticked[i], fin[i]));
            }
            assert(branches_wf(fin, self.register_size as int)) by {
                assert forall|i: int| 0 <= i < fin.len() implies (
                #[trigger] fin[i]).state.registers.len() == self.register_size as int by {
                    assert(same_but_tainted(forked[i], fin[i]));
                }
            }
            assert forall|i2: int| 0 <= i2 < forked.len() && (
            #[trigger] forked[i2]).state.tainted implies tick_taint_source(t, n as int, i2) by {
                if i2 < n {
                    assert(forked[i2] == marked[i2]);
                } else {
                    assert(n < 1000);
                    assert(0 <= i2 - n < addsv.len());
                    assert(fork_exact(addsv[i2 - n].1, forked[(n as int) + (i2 - n)]));
                }
            }
            assert forall|i2: int| 0 <= i2 < fin.len() && (#[trigger] fin[i2]).state.tainted
                implies tick_taint_source(t, n as int, i2) || exists|k: int, fuel: nat|
                0 <= k < fin.len() && tick_taint_source(t, n as int, k) && #[trigger] reaches(
                    fin,
                    k,
                    i2,
                    fuel,
                ) by {
                if forked[i2].state.tainted {
                    assert(tick_taint_source(t, n as int, i2));
                } else {
                    let (k, fuel): (int, nat) = choose|k: int, fuel: nat|
                        0 <= k < forked.len() && forked[k].state.tainted && #[trigger] reaches(
                            forked,
                            k,
                            i2,
                            fuel,
                        );
                    lemma_reaches_evolves(forked, fin, k, i2, fuel);
                    assert(tick_taint_source(t, n as int, k));
                }
            }
            if n < 1000 {
                assert(fin.len() == n + addsv.len());
                assert forall|k2: int| 0 <= k2 < addsv.len() implies fork_of(
                    (#[trigger] addsv[k2]).1,
                    fin[n + k2],
                ) by {
                    assert(fork_exact(addsv[k2].1, forked[n + k2]));
                    assert(same_but_tainted(forked[n + k2], fin[n + k2]));
                    assert(forked[n + k2].state.tainted ==> fin[n + k2].state.tainted);
                    assert(forked[n + k2].state.tainted == addsv[k2].1.state.tainted);
                    assert(fin[n + k2] == (ABranch {
                        id: fin[n + k2].id,
                        state: (AState {
                            id: fin[n + k2].state.id,
                            tainted: fin[n + k2].state.tainted,
                            ..addsv[k2].1.state
                        }),
                        ..addsv[k2].1
                    }));
                }
                assert forall|k2: int| 0 <= k2 < addsv.len() implies #[trigger] logged[k2] == (
                fin[n + k2].id, addsv[k2].0) by {
                    assert(logged[k2] == (forked[n + k2].id, addsv[k2].0));
                    assert(same_but_tainted(forked[n + k2], fin[n + k2]));
                }
                assert(logged =~= Seq::new(
                    addsv.len(),
                    |k2: int| (fin[(n as int) + k2].id, addsv[k2].0),
                ));
            } else {
                assert(fin.len() == n);
                assert(self.already_branched@ =~= tick_log);
            }
        }
    }

    /// Append a fork of `branch` under fresh identities and return its id.
    /// Run ticks until quiescence or the iteration cap, collecting a
    /// snapshot of every branch positioned at a conditional test; the
    /// snapshots of one branch are kept at its latest taint, deduplicated
    /// by `(branch id, previous offset)` and sorted by branch id.
    pub fn get_all_branch_decisions(&mut self) -> (res: Vec<Branch>)
        requires
            old(self).wf(),
        ensures
            final(self).wf(),
            final(self).method_view() == old(self).method_view(),
            final(self).dex_view() == old(self).dex_view(),
            final(self).spec_register_size() == old(self).spec_register_size(),
            final(self).spec_conservative() == old(self).spec_conservative(),
            forall|k: int|
                0 <= k < res.deep_view().len() ==> at_decision(
                    #[trigger] res.deep_view()[k],
                    final(self).method_view(),
                ),
            forall|k1: int, k2: int|
                0 <= k1 < k2 < res.deep_view().len() ==> (#[trigger] res.deep_view()[k1]).id <= (
                #[trigger] res.deep_view()[k2]).id,
            forall|k1: int, k2: int|
                0 <= k1 < k2 < res.deep_view().len() ==> !((#[trigger] res.deep_view()[k1]).id == (
                #[trigger] res.deep_view()[k2]).id && res.deep_view()[k1].previous_pc
                    == res.deep_view()[k2].previous_pc),
            forall|k: int|
                0 <= k < res.deep_view().len() ==> (#[trigger] res.deep_view()[
                    k
                ]).state.registers.len() == final(self).spec_register_size() as int,
            forall|j: int|
                0 <= j < final(self).branches_view().len() && at_decision(
                    #[trigger] final(self).branches_view()[j],
                    final(self).method_view(),
                ) ==> spec_has_pair(
                    res.deep_view(),
                    final(self).branches_view()[j].id,
                    final(self).branches_view()[j].previous_pc,
                ),
    {
        if self.branches.len() == 0 {
            self.new_branch(0, None);
        }
        let mut collected: Vec<Branch> = Vec::new();
        let mut iterations: usize = 0;
        loop
            invariant
                self.wf(),
                self.method@ == old(self).method@,
                self.dex.deep_view() == old(self).dex_view(),
                self.register_size == old(self).register_size,
                self.conservative == old(self).conservative,
                iterations <= MAX_ITERATIONS + 1,
                forall|k: int|
                    0 <= k < collected.deep_view().len() ==> at_decision(
                        #[trigger] collected.deep_view()[k],
                        self.method@,
                    ),
                forall|k: int|
                    0 <= k < collected.deep_view().len() ==> (#[trigger] collected.deep_view()[
                        k
                    ]).state.registers.len() == self.register_size as int,
            ensures
                self.wf(),
                self.method@ == old(self).method@,
                self.dex.deep_view() == old(self).dex_view(),
                self.register_size == old(self).register_size,
                self.conservative == old(self).conservative,
                forall|k: int|
                    0 <= k < collected.deep_view().len() ==> at_decision(
                        #[trigger] collected.deep_view()[k],
                        self.method@,
                    ),
                forall|k: int|
                    0 <= k < collected.deep_view().len() ==> (#[trigger] collected.deep_view()[
                        k
                    ]).state.registers.len() == self.register_size as int,
                forall|j: int|
                    0 <= j < self.branches.deep_view().len() && at_decision(
                        #[trigger] self.branches.deep_view()[j],
                        self.method@,
                    ) ==> spec_has_pair(
                        collected.deep_view(),
                        self.branches.deep_view()[j].id,
                        self.branches.deep_view()[j].previous_pc,
                    ),
            decreases MAX_ITERATIONS + 1 - iterations,
        {
            self.next_instruction();
            let nb = self.branches.len();
            let mut i: usize = 0;
            while i < nb
                invariant
                    self.wf(),
                    self.method@ == old(self).method@,
                    self.dex.deep_view() == old(self).dex_view(),
                    self.register_size == old(self).register_size,
                    self.conservative == old(self).conservative,
                    nb == self.branches@.len(),
                    i <= nb,
                    forall|k: int|
                        0 <= k < collected.deep_view().len() ==> at_decision(
                            #[trigger] collected.deep_view()[k],
                            self.method@,
                        ),
                    forall|k: int|
                        0 <= k < collected.deep_view().len() ==> (#[trigger] collected.deep_view()[
                            k
                        ]).state.registers.len() == self.register_size as int,
                    forall|j: int|
                        0 <= j < i && at_decision(
                            #[trigger] self.branches.deep_view()[j],
                            self.method@,
                        ) ==> spec_has_pair(
                            collected.deep_view(),
                            self.branches.deep_view()[j].id,
                            self.branches.deep_view()[j].previous_pc,
                        ),
                decreases nb - i,
            {
                let pc = self.branches[i].pc;
                let is_test = match self.method.get(&pc) {
                    Some((_, Instruction::Test(..))) => true,
                    Some((_, Instruction::TestZero(..))) => true,
                    Some(_) => false,
                    None => {
                        proof {
                            assert(!at_decision(self.branches.deep_view()[i as int], self.method@));
                        }
                        i += 1;
                        continue ;
                    },
                };
                let ghost precall = collected.deep_view();
                refresh_taint(&mut collected, &self.branches[i]);
                proof {
                    assert forall|k: int| 0 <= k < collected.deep_view().len() implies (
                    #[trigger] collected.deep_view()[k]).state.registers.len()
                        == self.register_size as int && at_decision(
                        collected.deep_view()[k],
                        self.method@,
                    ) by {
                        assert(same_but_tainted(precall[k], collected.deep_view()[k]));
                    }
                    assert forall|j: int|
                        0 <= j < i && at_decision(
                            #[trigger] self.branches.deep_view()[j],
                            self.method@,
                        ) implies spec_has_pair(
                        collected.deep_view(),
                        self.branches.deep_view()[j].id,
                        self.branches.deep_view()[j].previous_pc,
                    ) by {
                        lemma_pairs_kept(
                            precall,
                            collected.deep_view(),
                            self.branches.deep_view()[j].id,
                            self.branches.deep_view()[j].previous_pc,
                        );
                    }
                }
                if is_test {
                    let snap = self.branches[i].clone();
                    let ghost cdv = collected.deep_view();
                    let ghost sdv = snap.deep_view();
                    collected.push(snap);
                    proof {
                        assert(collected.deep_view() =~= cdv.push(sdv));
                        assert(sdv == self.branches.deep_view()[i as int]);
                        assert(sdv.state.registers.len() == self.register_size as int);
                        assert(at_decision(sdv, self.method@));
                        assert forall|j: int|
                            0 <= j < i + 1 && at_decision(
                                #[trigger] self.branches.deep_view()[j],
                                self.method@,
                            ) implies spec_has_pair(
                            collected.deep_view(),
                            self.branches.deep_view()[j].id,
                            self.branches.deep_view()[j].previous_pc,
                        ) by {
                            if j < i {
                                let kk = choose|kk: int|
                                    0 <= kk < cdv.len() && (#[trigger] cdv[kk]).id
                                        == self.branches.deep_view()[j].id && cdv[kk].previous_pc
                                        == self.branches.deep_view()[j].previous_pc;
                                assert(collected.deep_view()[kk] == cdv[kk]);
                            } else {
                                assert(collected.deep_view()[cdv.len() as int] == sdv);
                            }
                        }
                    }
                } else {
                    proof {
                        assert(!at_decision(self.branches.deep_view()[i as int], self.method@));
                    }
                }
                i += 1;
            }
            if self.is_done() || iterations >= MAX_ITERATIONS {
                break ;
            }
            iterations += 1;
        }
        let ghost mm = self.method@;
        let ghost rs = self.register_size as int;
        let ghost fin_b = self.branches.deep_view();
        let ghost cdv0 = collected.deep_view();
        let collected = reverse_branches(collected, Ghost(mm), Ghost(rs));
        let ghost cdv1 = collected.deep_view();
        let mut collected = collected;
        sort_by_id(&mut collected, Ghost(mm), Ghost(rs));
        let ghost cdv2 = collected.deep_view();
        let res = dedup_decisions(collected, Ghost(mm), Ghost(rs));
        proof {
            assert forall|j: int|
                0 <= j < fin_b.len() && at_decision(#[trigger] fin_b[j], mm) implies spec_has_pair(
                res.deep_view(),
                fin_b[j].id,
                fin_b[j].previous_pc,
            ) by {
                assert(spec_has_pair(cdv0, fin_b[j].id, fin_b[j].previous_pc));
                assert(spec_has_pair(cdv1, fin_b[j].id, fin_b[j].previous_pc));
                assert(spec_has_pair(cdv2, fin_b[j].id, fin_b[j].previous_pc));
            }
        }
        res
    }

    /// Run ticks until quiescence or a cap, collecting a snapshot of every
    /// branch whose pending event matches the kind and whose characteristic
    /// string the predicate approves.
    pub fn find_all_instruction_with_op<F: Fn(&str) -> bool>(
        &mut self,
        instruction: InstructionType,
        op: F,
    ) -> (res: Vec<Branch>)
        requires
            old(self).wf(),
            forall|s: &str| call_requires(op, (s,)),
        ensures
            final(self).wf(),
            forall|k: int|
                0 <= k < res.deep_view().len() ==> ({
                    let li = (#[trigger] res.deep_view()[k]).state.last_instruction;
                    &&& li is Some
                    &&& event_key(li.unwrap(), instruction) is Some
                    &&& exists|s: &str|
                        s@ == event_key(li.unwrap(), instruction).unwrap() && call_ensures(
                            op,
                            (s,),
                            true,
                        )
                }),
            forall|j: int|
                0 <= j < final(self).branches_view().len() ==> ({
                    let li = (#[trigger] final(self).branches_view()[j]).state.last_instruction;
                    (li is Some && event_key(li.unwrap(), instruction) is Some && op_approves(
                        op,
                        event_key(li.unwrap(), instruction).unwrap(),
                    )) ==> exists|k: int|
                        0 <= k < res.deep_view().len() && res.deep_view()[k]
                            == final(self).branches_view()[j]
                }),
    {
        let mut collected: Vec<Branch> = Vec::new();
        let mut iterations: usize = 0;
        self.new_branch(0, None);
        loop
            invariant
                self.wf(),
                forall|s: &str| call_requires(op, (s,)),
                iterations <= MAX_ITERATIONS + 1,
                forall|k: int|
                    0 <= k < collected.deep_view().len() ==> ({
                        let li = (#[trigger] collected.deep_view()[k]).state.last_instruction;
                        &&& li is Some
                        &&& event_key(li.unwrap(), instruction) is Some
                        &&& exists|s: &str|
                            s@ == event_key(li.unwrap(), instruction).unwrap() && call_ensures(
                                op,
                                (s,),
                                true,
                            )
                    }),
            ensures
                self.wf(),
                forall|k: int|
                    0 <= k < collected.deep_view().len() ==> ({
                        let li = (#[trigger] collected.deep_view()[k]).state.last_instruction;
                        &&& li is Some
                        &&& event_key(li.unwrap(), instruction) is Some
                        &&& exists|s: &str|
                            s@ == event_key(li.unwrap(), instruction).unwrap() && call_ensures(
                                op,
                                (s,),
                                true,
                            )
                    }),
                forall|j: int|
                    0 <= j < self.branches.deep_view().len() ==> ({
                        let li = (
                        #[trigger] self.branches.deep_view()[j]).state.last_instruction;
                        (li is Some && event_key(li.unwrap(), instruction) is Some && op_approves(
                            op,
                            event_key(li.unwrap(), instruction).unwrap(),
                        )) ==> exists|k: int|
                            0 <= k < collected.deep_view().len() && collected.deep_view()[k]
                                == self.branches.deep_view()[j]
                    }),
            decreases MAX_ITERATIONS + 1 - iterations,
        {
            self.next_instruction();
            let nb = self.branches.len();
            let mut i: usize = 0;
            while i < nb
                invariant
                    self.wf(),
                    forall|s: &str| call_requires(op, (s,)),
                    nb == self.branches@.len(),
                    i <= nb,
                    forall|k: int|
                        0 <= k < collected.deep_view().len() ==> ({
                            let li = (
                            #[trigger] collected.deep_view()[k]).state.last_instruction;
                            &&& li is Some
                            &&& event_key(li.unwrap(), instruction) is Some
                            &&& exists|s: &str|
                                s@ == event_key(li.unwrap(), instruction).unwrap() && call_ensures(
                                    op,
                                    (s,),
                                    true,
                                )
                        }),
                    forall|j: int|
                        0 <= j < i ==> ({
                            let li = (
                            #[trigger] self.branches.deep_view()[j]).state.last_instruction;
                            (li is Some && event_key(li.unwrap(), instruction) is Some
                                && op_approves(
                                op,
                                event_key(li.unwrap(), instruction).unwrap(),
                            )) ==> exists|k: int|
                                0 <= k < collected.deep_view().len() && collected.deep_view()[k]
                                    == self.branches.deep_view()[j]
                        }),
                decreases nb - i,
            {
                let key: Option<&String> = match (
                    &self.branches[i].state.last_instruction,
                    &instruction,
                ) {
                    (
                        Some(LastInstruction::FunctionCall { signature, .. }),
                        InstructionType::FunctionCall,
                    ) => Some(signature),
                    (
                        Some(LastInstruction::ReadStaticField { name, .. }),
                        InstructionType::ReadStaticField,
                    ) => Some(name),
                    (
                        Some(LastInstruction::StoreStaticField { name, .. }),
                        InstructionType::StoreStaticField,
                    ) => Some(name),
                    _ => None,
                };
                if let Some(sig) = key {
                    proof {
                        let li = self.branches.deep_view()[i as int].state.last_instruction;
                        assert(li is Some && event_key(li.unwrap(), instruction) == Some(sig@));
                    }
                    let s2 = sig.as_str();
                    if op(s2) {
                        let snap = self.branches[i].clone();
                        let ghost cdv = collected.deep_view();
                        let ghost sdv = snap.deep_view();
                        collected.push(snap);
                        proof {
                            assert(collected.deep_view() =~= cdv.push(sdv));
                            assert(sdv == self.branches.deep_view()[i as int]);
                            assert forall|j: int| 0 <= j < i + 1 implies ({
                                let li = (
                                #[trigger] self.branches.deep_view()[j]).state.last_instruction;
                                (li is Some && event_key(li.unwrap(), instruction) is Some
                                    && op_approves(
                                    op,
                                    event_key(li.unwrap(), instruction).unwrap(),
                                )) ==> exists|k: int|
                                    0 <= k < collected.deep_view().len() && collected.deep_view()[
                                        k
                                    ] == self.branches.deep_view()[j]
                            }) by {
                                if j < i {
                                    let li = self.branches.deep_view()[j].state.last_instruction;
                                    if li is Some && event_key(li.unwrap(), instruction) is Some
                                        && op_approves(
                                        op,
                                        event_key(li.unwrap(), instruction).unwrap(),
                                    ) {
                                        let k = choose|k: int|
                                            0 <= k < cdv.len() && cdv[k]
                                                == self.branches.deep_view()[j];
                                        assert(collected.deep_view()[k] == cdv[k]);
                                    }
                                } else {
                                    assert(collected.deep_view()[cdv.len() as int] == sdv);
                                }
                            }
                        }
                    } else {
                        proof {
                            if op_approves(op, sig@) {
                                assert(false);
                            }
                        }
                    }
                } else {
                    proof {
                        let li = self.branches.deep_view()[i as int].state.last_instruction;
                        assert(!(li is Some && event_key(li.unwrap(), instruction) is Some));
                    }
                }
                i += 1;
            }
            if self.is_done() {
                break ;
            }
            if self.branches.len() > 300 && iterations >= 150 {
                break ;
            }
            if iterations >= MAX_ITERATIONS {
                break ;
            }
            iterations += 1;
        }
        collected
    }

    /// All call events whose signature equals `signature` exactly.
    pub fn find_all_calls(&mut self, signature: &str) -> (res: Vec<Branch>)
        requires
            old(self).wf(),
        ensures
            final(self).wf(),
            forall|k: int|
                0 <= k < res.deep_view().len() ==> ({
                    let li = (#[trigger] res.deep_view()[k]).state.last_instruction;
                    &&& li is Some
                    &&& li.unwrap() matches ALastInstruction::FunctionCall { signature: sg, .. }
                        && sg == signature@
                }),
            forall|j: int|
                0 <= j < final(self).branches_view().len() ==> ({
                    let li = (#[trigger] final(self).branches_view()[j]).state.last_instruction;
                    (li matches Some(ALastInstruction::FunctionCall { signature: sg, .. })
                        && sg == signature@) ==> exists|k: int|
                        0 <= k < res.deep_view().len() && res.deep_view()[k]
                            == final(self).branches_view()[j]
                }),
    {
        let op = |s: &str| -> (res: bool)
            ensures
                res == (s@ == signature@),
            { str_eq(s, signature) };
        let ghost gop = op;
        let res = self.find_all_instruction_with_op(InstructionType::FunctionCall, op);
        proof {
            assert(op_approves(gop, signature@));
            assert forall|j: int|
                0 <= j < self.branches_view().len() implies ({
                let li = (#[trigger] self.branches_view()[j]).state.last_instruction;
                (li matches Some(ALastInstruction::FunctionCall { signature: sg, .. }) && sg
                    == signature@) ==> exists|k: int|
                    0 <= k < res.deep_view().len() && res.deep_view()[k] == self.branches_view()[j]
            }) by {
                let li = self.branches_view()[j].state.last_instruction;
                if li matches Some(ALastInstruction::FunctionCall { signature: sg, .. }) && sg
                    == signature@ {
                    assert(event_key(li.unwrap(), InstructionType::FunctionCall) == Some(
                        signature@,
                    ));
                }
            }
        }
        res
    }

    /// All call events whose signature matches the regular expression.
    pub fn find_all_calls_regex(&mut self, regex: &regex::Regex) -> (res: Vec<Branch>)
        requires
            old(self).wf(),
        ensures
            final(self).wf(),
            forall|k: int|
                0 <= k < res.deep_view().len() ==> (#[trigger] res.deep_view()[
                    k
                ]).state.last_instruction matches Some(ALastInstruction::FunctionCall { .. }),
    {
        let op = |s: &str| -> bool { regex.is_match(s) };
        self.find_all_instruction_with_op(InstructionType::FunctionCall, op)
    }

    /// All call events whose signature the predicate approves.
    pub fn find_all_calls_with_op<F: Fn(&str) -> bool>(&mut self, op: F) -> (res: Vec<Branch>)
        requires
            old(self).wf(),
            forall|s: &str| call_requires(op, (s,)),
        ensures
            final(self).wf(),
            forall|k: int|
                0 <= k < res.deep_view().len() ==> ({
                    let li = (#[trigger] res.deep_view()[k]).state.last_instruction;
                    &&& li matches Some(ALastInstruction::FunctionCall { signature: sg, .. })
                    &&& exists|s: &str| s@ == sg && call_ensures(op, (s,), true)
                }),
            forall|j: int|
                0 <= j < final(self).branches_view().len() ==> ({
                    let li = (#[trigger] final(self).branches_view()[j]).state.last_instruction;
                    (li matches Some(ALastInstruction::FunctionCall { signature: sg, .. })
                        && op_approves(op, sg)) ==> exists|k: int|
                        0 <= k < res.deep_view().len() && res.deep_view()[k]
                            == final(self).branches_view()[j]
                }),
    {
        let res = self.find_all_instruction_with_op(InstructionType::FunctionCall, op);
        proof {
            assert forall|j: int|
                0 <= j < self.branches_view().len() implies ({
                let li = (#[trigger] self.branches_view()[j]).state.last_instruction;
                (li matches Some(ALastInstruction::FunctionCall { signature: sg, .. })
                    && op_approves(op, sg)) ==> exists|k: int|
                    0 <= k < res.deep_view().len() && res.deep_view()[k] == self.branches_view()[j]
            }) by {
                let li = self.branches_view()[j].state.last_instruction;
                if li is Some && li.unwrap() is FunctionCall {
                    assert(event_key(li.unwrap(), InstructionType::FunctionCall) == Some(
                        li.unwrap()->FunctionCall_signature,
                    ));
                }
            }
        }
        res
    }

    /// All static reads of the field named `name`.
    pub fn find_all_static_reads(&mut self, name: &str) -> (res: Vec<Branch>)
        requires
            old(self).wf(),
        ensures
            final(self).wf(),
            forall|k: int|
                0 <= k < res.deep_view().len() ==> ({
                    let li = (#[trigger] res.deep_view()[k]).state.last_instruction;
                    &&& li is Some
                    &&& li.unwrap() matches ALastInstruction::ReadStaticField { name: nm, .. }
                        && nm == name@
                }),
            forall|j: int|
                0 <= j < final(self).branches_view().len() ==> ({
                    let li = (#[trigger] final(self).branches_view()[j]).state.last_instruction;
                    (li matches Some(ALastInstruction::ReadStaticField { name: nm, .. }) && nm
                        == name@) ==> exists|k: int|
                        0 <= k < res.deep_view().len() && res.deep_view()[k]
                            == final(self).branches_view()[j]
                }),
    {
        let op = |s: &str| -> (res: bool)
            ensures
                res == (s@ == name@),
            { str_eq(s, name) };
        let ghost gop = op;
        let res = self.find_all_instruction_with_op(InstructionType::ReadStaticField, op);
        proof {
            assert(op_approves(gop, name@));
            assert forall|j: int|
                0 <= j < self.branches_view().len() implies ({
                let li = (#[trigger] self.branches_view()[j]).state.last_instruction;
                (li matches Some(ALastInstruction::ReadStaticField { name: nm, .. }) && nm
                    == name@) ==> exists|k: int|
                    0 <= k < res.deep_view().len() && res.deep_view()[k] == self.branches_view()[j]
            }) by {
                let li = self.branches_view()[j].state.last_instruction;
                if li matches Some(ALastInstruction::ReadStaticField { name: nm, .. }) && nm
                    == name@ {
                    assert(event_key(li.unwrap(), InstructionType::ReadStaticField) == Some(
                        name@,
                    ));
                }
            }
        }
        res
    }

    /// All static reads whose field name matches the regular expression.
    pub fn find_all_static_reads_regex(&mut self, regex: &regex::Regex) -> (res: Vec<Branch>)
        requires
            old(self).wf(),
        ensures
            final(self).wf(),
            forall|k: int|
                0 <= k < res.deep_view().len() ==> (#[trigger] res.deep_view()[
                    k
                ]).state.last_instruction matches Some(ALastInstruction::ReadStaticField { .. }),
    {
        let op = |s: &str| -> bool { regex.is_match(s) };
        self.find_all_instruction_with_op(InstructionType::ReadStaticField, op)
    }

    /// All static writes of the field named `name`.
    pub fn find_all_static_writes(&mut self, name: &str) -> (res: Vec<Branch>)
        requires
            old(self).wf(),
        ensures
            final(self).wf(),
            forall|k: int|
                0 <= k < res.deep_view().len() ==> ({
                    let li = (#[trigger] res.deep_view()[k]).state.last_instruction;
                    &&& li is Some
                    &&& li.unwrap() matches ALastInstruction::StoreStaticField { name: nm, .. }
                        && nm == name@
                }),
            forall|j: int|
                0 <= j < final(self).branches_view().len() ==> ({
                    let li = (#[trigger] final(self).branches_view()[j]).state.last_instruction;
                    (li matches Some(ALastInstruction::StoreStaticField { name: nm, .. }) && nm
                        == name@) ==> exists|k: int|
                        0 <= k < res.deep_view().len() && res.deep_view()[k]
                            == final(self).branches_view()[j]
                }),
    {
        let op = |s: &str| -> (res: bool)
            ensures
                res == (s@ == name@),
            { str_eq(s, name) };
        let ghost gop = op;
        let res = self.find_all_instruction_with_op(InstructionType::StoreStaticField, op);
        proof {
            assert(op_approves(gop, name@));
            assert forall|j: int|
                0 <= j < self.branches_view().len() implies ({
                let li = (#[trigger] self.branches_view()[j]).state.last_instruction;
                (li matches Some(ALastInstruction::StoreStaticField { name: nm, .. }) && nm
                    == name@) ==> exists|k: int|
                    0 <= k < res.deep_view().len() && res.deep_view()[k] == self.branches_view()[j]
            }) by {
                let li = self.branches_view()[j].state.last_instruction;
                if li matches Some(ALastInstruction::StoreStaticField { name: nm, .. }) && nm
                    == name@ {
                    assert(event_key(li.unwrap(), InstructionType::StoreStaticField) == Some(
                        name@,
                    ));
                }
            }
        }
        res
    }

    /// All static writes whose field name matches the regular expression.
    pub fn find_all_static_writes_regex(&mut self, regex: &regex::Regex) -> (res: Vec<Branch>)
        requires
            old(self).wf(),
        ensures
            final(self).wf(),
            forall|k: int|
                0 <= k < res.deep_view().len() ==> (#[trigger] res.deep_view()[
                    k
                ]).state.last_instruction matches Some(ALastInstruction::StoreStaticField { .. }),
    {
        let op = |s: &str| -> bool { regex.is_match(s) };
        self.find_all_instruction_with_op(InstructionType::StoreStaticField, op)
    }
}

/// String equality by content.
fn str_eq(a: &str, b: &str) -> (res: bool)
    ensures
        res == (a@ == b@),
{
    let ao: String = a.to_owned();
    let bo: String = b.to_owned();
    ao == bo
}

/// Align the taint flag of every collected snapshot of this branch with the
/// branch's current taint.
fn refresh_taint(collected: &mut Vec<Branch>, b: &Branch)
    ensures
        final(collected).deep_view().len() == old(collected).deep_view().len(),
        forall|k: int|
            0 <= k < old(collected).deep_view().len() ==> same_but_tainted(
                old(collected).deep_view()[k],
                #[trigger] final(collected).deep_view()[k],
            ),
{
    let n = collected.len();
    let mut i: usize = 0;
    while i < n
        invariant
            n == collected@.len(),
            i <= n,
            forall|k: int|
                0 <= k < n ==> same_but_tainted(
                    old(collected).deep_view()[k],
                    #[trigger] collected.deep_view()[k],
                ),
        decreases n - i,
    {
        if collected[i].id == b.id {
            let mut nb = collected[i].clone();
            let ghost cl = nb.deep_view();
            nb.state.tainted = b.state.tainted;
            let ghost pre = collected.deep_view();
            let ghost nbdv = nb.deep_view();
            collected.set(i, nb);
            proof {
                assert(collected.deep_view() =~= pre.update(i as int, nbdv));
                assert(same_but_tainted(pre[i as int], nbdv));
                assert(same_but_tainted(old(collected).deep_view()[i as int], nbdv)) by {
                    assert(same_but_tainted(old(collected).deep_view()[i as int], pre[i as int]));
                }
            }
        }
        i += 1;
    }
}


/// A snapshot fit for the decision list: positioned at a conditional test,
/// with the configured register width.
pub open spec fn decision_snap(b: ABranch, m: Map<i64, (u32, Instruction)>, rs: int) -> bool {
    at_decision(b, m) && b.state.registers.len() == rs
}

/// Whether some snapshot in the list carries this `(branch id, previous
/// offset)` pair.
pub open spec fn spec_has_pair(s: Seq<ABranch>, id: u64, ppc: i64) -> bool {
    exists|k: int| 0 <= k < s.len() && (#[trigger] s[k]).id == id && s[k].previous_pc == ppc
}

/// Whether some snapshot in the vector carries this pair, executably.
fn has_pair(v: &Vec<Branch>, id: u64, ppc: i64) -> (res: bool)
    ensures
        res == spec_has_pair(v.deep_view(), id, ppc),
{
    let n = v.len();
    let mut i: usize = 0;
    while i < n
        invariant
            n == v@.len(),
            i <= n,
            forall|k: int|
                0 <= k < i ==> !((#[trigger] v.deep_view()[k]).id == id
                    && v.deep_view()[k].previous_pc == ppc),
        decreases n - i,
    {
        if v[i].id == id && v[i].previous_pc == ppc {
            proof {
                assert(v.deep_view()[i as int].id == id && v.deep_view()[i as int].previous_pc
                    == ppc);
            }
            return true;
        }
        i += 1;
    }
    false
}

/// Lists that agree up to the taint flags carry the same pairs.
proof fn lemma_pairs_kept(s1: Seq<ABranch>, s2: Seq<ABranch>, id: u64, ppc: i64)
    requires
        s1.len() == s2.len(),
        forall|j: int| 0 <= j < s1.len() ==> same_but_tainted(s1[j], #[trigger] s2[j]),
        spec_has_pair(s1, id, ppc),
    ensures
        spec_has_pair(s2, id, ppc),
{
    let kk = choose|kk: int|
        0 <= kk < s1.len() && (#[trigger] s1[kk]).id == id && s1[kk].previous_pc == ppc;
    assert(same_but_tainted(s1[kk], s2[kk]));
    assert(s2[kk].id == id && s2[kk].previous_pc == ppc);
}

/// The collected snapshots in reverse order.
fn reverse_branches(v: Vec<Branch>, Ghost(m): Ghost<Map<i64, (u32, Instruction)>>, Ghost(rs): Ghost<int>) -> (res: Vec<Branch>)
    requires
        forall|k: int| 0 <= k < v.deep_view().len() ==> decision_snap(#[trigger] v.deep_view()[k], m, rs),
    ensures
        res.deep_view().len() == v.deep_view().len(),
        forall|k: int| 0 <= k < res.deep_view().len() ==> decision_snap(#[trigger] res.deep_view()[k], m, rs),
        forall|k: int|
            0 <= k < v.deep_view().len() ==> #[trigger] res.deep_view()[k] == v.deep_view()[
                v.deep_view().len() - 1 - k
            ],
        forall|id: u64, ppc: i64|
            #[trigger] spec_has_pair(v.deep_view(), id, ppc) ==> spec_has_pair(
                res.deep_view(),
                id,
                ppc,
            ),
{
    let n = v.len();
    let mut res: Vec<Branch> = Vec::new();
    let mut i: usize = 0;
    while i < n
        invariant
            n == v@.len(),
            i <= n,
            forall|k: int| 0 <= k < n ==> decision_snap(#[trigger] v.deep_view()[k], m, rs),
            res.deep_view().len() == i,
            forall|k: int|
                0 <= k < i ==> #[trigger] res.deep_view()[k] == v.deep_view()[n - 1 - k],
        decreases n - i,
    {
        let ghost pre = res.deep_view();
        let snap = v[n - 1 - i].clone();
        let ghost sdv = snap.deep_view();
        res.push(snap);
        proof {
            assert(res.deep_view() =~= pre.push(sdv));
        }
        i += 1;
    }
    proof {
        assert forall|id: u64, ppc: i64| #[trigger] spec_has_pair(v.deep_view(), id, ppc) implies
            spec_has_pair(res.deep_view(), id, ppc) by {
            let kk = choose|kk: int|
                0 <= kk < v.deep_view().len() && (#[trigger] v.deep_view()[kk]).id == id
                    && v.deep_view()[kk].previous_pc == ppc;
            assert(res.deep_view()[n - 1 - kk] == v.deep_view()[kk]);
        }
    }
    res
}

/// Stable insertion sort of branch snapshots by ascending id.
fn sort_by_id(v: &mut Vec<Branch>, Ghost(m): Ghost<Map<i64, (u32, Instruction)>>, Ghost(rs): Ghost<int>)
    requires
        forall|k: int|
            0 <= k < old(v).deep_view().len() ==> decision_snap(
                #[trigger] old(v).deep_view()[k],
                m,
                rs,
            ),
    ensures
        final(v).deep_view().len() == old(v).deep_view().len(),
        forall|k1: int, k2: int|
            0 <= k1 < k2 < final(v).deep_view().len() ==> (#[trigger] final(v).deep_view()[k1]).id
                <= (#[trigger] final(v).deep_view()[k2]).id,
        forall|k: int|
            0 <= k < final(v).deep_view().len() ==> decision_snap(
                #[trigger] final(v).deep_view()[k],
                m,
                rs,
            ),
        forall|id: u64, ppc: i64|
            #[trigger] spec_has_pair(old(v).deep_view(), id, ppc) ==> spec_has_pair(
                final(v).deep_view(),
                id,
                ppc,
            ),
{
    let n = v.len();
    if n < 2 {
        return;
    }
    let ghost orig = v.deep_view();
    let mut i: usize = 1;
    while i < n
        invariant
            n == v@.len(),
            n == orig.len(),
            1 <= i <= n,
            forall|k1: int, k2: int|
                0 <= k1 < k2 < i ==> (#[trigger] v.deep_view()[k1]).id <= (
                #[trigger] v.deep_view()[k2]).id,
            forall|k: int| 0 <= k < n ==> decision_snap(#[trigger] v.deep_view()[k], m, rs),
            forall|id: u64, ppc: i64|
                #[trigger] spec_has_pair(orig, id, ppc) ==> spec_has_pair(v.deep_view(), id, ppc),
        decreases n - i,
    {
        let mut j: usize = i;
        while j > 0 && v[j - 1].id > v[j].id
            invariant
                n == v@.len(),
                n == orig.len(),
                0 <= j <= i < n,
                forall|k1: int, k2: int|
                    0 <= k1 < k2 <= i && k2 != j ==> (#[trigger] v.deep_view()[k1]).id <= (
                    #[trigger] v.deep_view()[k2]).id,
                forall|k: int| 0 <= k < n ==> decision_snap(#[trigger] v.deep_view()[k], m, rs),
                forall|id: u64, ppc: i64|
                    #[trigger] spec_has_pair(orig, id, ppc) ==> spec_has_pair(
                        v.deep_view(),
                        id,
                        ppc,
                    ),
            decreases j,
        {
            let a = v[j - 1].clone();
            let bb = v[j].clone();
            let ghost pre = v.deep_view();
            let ghost adv = a.deep_view();
            let ghost bdv = bb.deep_view();
            v.set(j - 1, bb);
            v.set(j, a);
            proof {
                assert(adv == pre[j - 1]);
                assert(bdv == pre[j as int]);
                assert(v.deep_view() =~= pre.update(j - 1, bdv).update(j as int, adv));
                assert forall|id: u64, ppc: i64| #[trigger] spec_has_pair(pre, id, ppc) implies
                    spec_has_pair(v.deep_view(), id, ppc) by {
                    let kk = choose|kk: int|
                        0 <= kk < pre.len() && (#[trigger] pre[kk]).id == id && pre[
                            kk
                        ].previous_pc == ppc;
                    if kk == j - 1 {
                        assert(v.deep_view()[j as int] == pre[j - 1]);
                    } else if kk == j {
                        assert(v.deep_view()[j - 1] == pre[j as int]);
                    } else {
                        assert(v.deep_view()[kk] == pre[kk]);
                    }
                }
            }
            j -= 1;
        }
        proof {
            assert forall|k1: int, k2: int| 0 <= k1 < k2 <= i implies (
            #[trigger] v.deep_view()[k1]).id <= (#[trigger] v.deep_view()[k2]).id by {
                if k2 == j && j > 0 && k1 < j - 1 {
                    assert(v.deep_view()[k1].id <= v.deep_view()[j - 1].id);
                }
            }
        }
        i += 1;
    }
}

/// Keep the first snapshot of every `(branch id, previous offset)` pair
/// and drop the rest: the result holds each visited decision site of each
/// branch exactly once.
fn dedup_decisions(v: Vec<Branch>, Ghost(m): Ghost<Map<i64, (u32, Instruction)>>, Ghost(rs): Ghost<int>) -> (res: Vec<Branch>)
    requires
        forall|k1: int, k2: int|
            0 <= k1 < k2 < v.deep_view().len() ==> (#[trigger] v.deep_view()[k1]).id <= (
            #[trigger] v.deep_view()[k2]).id,
        forall|k: int| 0 <= k < v.deep_view().len() ==> decision_snap(#[trigger] v.deep_view()[k], m, rs),
    ensures
        forall|k: int| 0 <= k < res.deep_view().len() ==> decision_snap(#[trigger] res.deep_view()[k], m, rs),
        forall|k1: int, k2: int|
            0 <= k1 < k2 < res.deep_view().len() ==> (#[trigger] res.deep_view()[k1]).id <= (
            #[trigger] res.deep_view()[k2]).id,
        forall|k1: int, k2: int|
            0 <= k1 < k2 < res.deep_view().len() ==> !((#[trigger] res.deep_view()[k1]).id == (
            #[trigger] res.deep_view()[k2]).id && res.deep_view()[k1].previous_pc
                == res.deep_view()[k2].previous_pc),
        forall|id: u64, ppc: i64|
            #[trigger] spec_has_pair(v.deep_view(), id, ppc) ==> spec_has_pair(
                res.deep_view(),
                id,
                ppc,
            ),
{
    let n = v.len();
    let mut res: Vec<Branch> = Vec::new();
    let mut i: usize = 0;
    while i < n
        invariant
            n == v@.len(),
            i <= n,
            forall|k1: int, k2: int|
                0 <= k1 < k2 < n ==> (#[trigger] v.deep_view()[k1]).id <= (
                #[trigger] v.deep_view()[k2]).id,
            forall|k: int| 0 <= k < n ==> decision_snap(#[trigger] v.deep_view()[k], m, rs),
            forall|k: int| 0 <= k < res.deep_view().len() ==> decision_snap(#[trigger] res.deep_view()[k], m, rs),
            forall|k: int|
                0 <= k < res.deep_view().len() ==> exists|j: int|
                    0 <= j < i && #[trigger] res.deep_view()[k] == v.deep_view()[j],
            forall|k1: int, k2: int|
                0 <= k1 < k2 < res.deep_view().len() ==> (#[trigger] res.deep_view()[k1]).id <= (
                #[trigger] res.deep_view()[k2]).id,
            forall|k1: int, k2: int|
                0 <= k1 < k2 < res.deep_view().len() ==> !((#[trigger] res.deep_view()[k1]).id == (
                #[trigger] res.deep_view()[k2]).id && res.deep_view()[k1].previous_pc
                    == res.deep_view()[k2].previous_pc),
            forall|j: int|
                0 <= j < i ==> spec_has_pair(
                    res.deep_view(),
                    (#[trigger] v.deep_view()[j]).id,
                    v.deep_view()[j].previous_pc,
                ),
        decreases n - i,
    {
        let keep = !has_pair(&res, v[i].id, v[i].previous_pc);
        if keep {
            let ghost pre = res.deep_view();
            let snap = v[i].clone();
            let ghost sdv = snap.deep_view();
            res.push(snap);
            proof {
                assert(res.deep_view() =~= pre.push(sdv));
                assert(sdv == v.deep_view()[i as int]);
                assert forall|k: int| 0 <= k < res.deep_view().len() implies exists|j: int|
                    0 <= j < i + 1 && #[trigger] res.deep_view()[k] == v.deep_view()[j] by {
                    if k == pre.len() as int {
                        assert(0 <= i < i + 1 && res.deep_view()[k] == v.deep_view()[i as int]);
                    } else {
                        assert(res.deep_view()[k] == pre[k]);
                    }
                }
                assert forall|k1: int, k2: int|
                    0 <= k1 < k2 < res.deep_view().len() implies (
                #[trigger] res.deep_view()[k1]).id <= (#[trigger] res.deep_view()[k2]).id by {
                    if k2 == pre.len() as int {
                        let j1 = choose|j1: int|
                            0 <= j1 < i && pre[k1] == v.deep_view()[j1];
                        assert(v.deep_view()[j1].id <= v.deep_view()[i as int].id);
                    }
                }
                assert forall|j: int| 0 <= j < i + 1 implies spec_has_pair(
                    res.deep_view(),
                    (#[trigger] v.deep_view()[j]).id,
                    v.deep_view()[j].previous_pc,
                ) by {
                    if j < i {
                        let kk = choose|kk: int|
                            0 <= kk < pre.len() && (#[trigger] pre[kk]).id == v.deep_view()[j].id
                                && pre[kk].previous_pc == v.deep_view()[j].previous_pc;
                        assert(res.deep_view()[kk].id == v.deep_view()[j].id
                            && res.deep_view()[kk].previous_pc == v.deep_view()[j].previous_pc);
                    } else {
                        assert(res.deep_view()[pre.len() as int].id == v.deep_view()[i as int].id);
                    }
                }
            }
        } else {
            proof {
                assert forall|j: int| 0 <= j < i + 1 implies spec_has_pair(
                    res.deep_view(),
                    (#[trigger] v.deep_view()[j]).id,
                    v.deep_view()[j].previous_pc,
                ) by {
                }
            }
        }
        i += 1;
    }
    proof {
        assert forall|id: u64, ppc: i64| #[trigger] spec_has_pair(v.deep_view(), id, ppc) implies
            spec_has_pair(res.deep_view(), id, ppc) by {
            let kk = choose|kk: int|
                0 <= kk < v.deep_view().len() && (#[trigger] v.deep_view()[kk]).id == id
                    && v.deep_view()[kk].previous_pc == ppc;
            assert(spec_has_pair(
                res.deep_view(),
                v.deep_view()[kk].id,
                v.deep_view()[kk].previous_pc,
            ));
        }
    }
    res
}

} // verus!
