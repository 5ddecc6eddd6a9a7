//! Register rules: the recipes by which an unwinder recovers the
//! registers of the calling frame.

use vstd::prelude::*;

verus! {

/// How to recover one register of the calling frame.
#[derive(Clone, Debug, PartialEq, Eq)]
pub enum RegisterRule {
    /// The register cannot be recovered.
    Undefined,
    /// The register was not changed.
    SameValue,
    /// The register was saved at this offset from the frame address.
    Offset(i64),
    /// The register is the frame address plus this offset.
    ValOffset(i64),
    /// The register was saved in another register.
    Register(u64),
    /// The register was saved at the address that an expression gives.
    Expression(Vec<u8>),
    /// The register is the value that an expression gives.
    ValExpression(Vec<u8>),
}

/// The mathematical value of a `RegisterRule`.
pub enum RuleView {
    Undefined,
    SameValue,
    Offset(i64),
    ValOffset(i64),
    Register(u64),
    Expression(Seq<u8>),
    ValExpression(Seq<u8>),
}

impl View for RegisterRule {
    type V = RuleView;

    open spec fn view(&self) -> RuleView {
        match self {
            RegisterRule::Undefined => RuleView::Undefined,
            RegisterRule::SameValue => RuleView::SameValue,
            RegisterRule::Offset(n) => RuleView::Offset(*n),
            RegisterRule::ValOffset(n) => RuleView::ValOffset(*n),
            RegisterRule::Register(r) => RuleView::Register(*r),
            RegisterRule::Expression(b) => RuleView::Expression(b@),
            RegisterRule::ValExpression(b) => RuleView::ValExpression(b@),
        }
    }
}

/// A copy of `bytes`.
pub(crate) fn copy_bytes(bytes: &Vec<u8>) -> (r: Vec<u8>)
    ensures
        r@ == bytes@,
{
    vstd::slice::slice_to_vec(bytes.as_slice())
}

impl RegisterRule {
    /// A copy of the rule.
    pub fn duplicate(&self) -> (r: RegisterRule)
        ensures
            r@ == self@,
    {
        match self {
            RegisterRule::Undefined => RegisterRule::Undefined,
            RegisterRule::SameValue => RegisterRule::SameValue,
            RegisterRule::Offset(n) => RegisterRule::Offset(*n),
            RegisterRule::ValOffset(n) => RegisterRule::ValOffset(*n),
            RegisterRule::Register(r) => RegisterRule::Register(*r),
            RegisterRule::Expression(b) => RegisterRule::Expression(copy_bytes(b)),
            RegisterRule::ValExpression(b) => RegisterRule::ValExpression(copy_bytes(b)),
        }
    }
}

/// How to compute the canonical frame address.
#[derive(Clone, Debug, PartialEq, Eq)]
pub enum CfaRule {
    /// No rule was given yet.
    Unset,
    /// The value of a register plus an offset.
    RegisterOffset(u64, i64),
    /// The value that an expression gives.
    Expression(Vec<u8>),
}

/// The mathematical value of a `CfaRule`.
pub enum CfaView {
    Unset,
    RegisterOffset(u64, i64),
    Expression(Seq<u8>),
}

impl View for CfaRule {
    type V = CfaView;

    open spec fn view(&self) -> CfaView {
        match self {
            CfaRule::Unset => CfaView::Unset,
            CfaRule::RegisterOffset(r, n) => CfaView::RegisterOffset(*r, *n),
            CfaRule::Expression(b) => CfaView::Expression(b@),
        }
    }
}

impl CfaView {
    /// The register of the rule; 0 where the rule names none.
    pub open spec fn register(self) -> u64 {
        match self {
            CfaView::RegisterOffset(r, _) => r,
            _ => 0,
        }
    }

    /// The offset of the rule; 0 where the rule has none.
    pub open spec fn offset(self) -> i64 {
        match self {
            CfaView::RegisterOffset(_, n) => n,
            _ => 0,
        }
    }
}

impl CfaRule {
    /// A copy of the rule.
    pub fn duplicate(&self) -> (r: CfaRule)
        ensures
            r@ == self@,
    {
        match self {
            CfaRule::Unset => CfaRule::Unset,
            CfaRule::RegisterOffset(r, n) => CfaRule::RegisterOffset(*r, *n),
            CfaRule::Expression(b) => CfaRule::Expression(copy_bytes(b)),
        }
    }

    /// The register of the rule; 0 where the rule names none.
    pub fn register(&self) -> (r: u64)
        ensures
            r == self@.register(),
    {
        match self {
            CfaRule::RegisterOffset(r, _) => *r,
            _ => 0,
        }
    }

    /// The offset of the rule; 0 where the rule has none.
    pub fn offset(&self) -> (r: i64)
        ensures
            r == self@.offset(),
    {
        match self {
            CfaRule::RegisterOffset(_, n) => *n,
            _ => 0,
        }
    }
}

/// One assignment of a rule to a register.
#[derive(Clone, Debug)]
struct RuleEntry {
    register: u64,
    rule: RegisterRule,
}

/// The assignments of `entries`, the later ones over the earlier ones.
spec fn assigned(entries: Seq<RuleEntry>) -> Map<u64, RuleView>
    decreases entries.len(),
{
    if entries.len() == 0 {
        Map::empty()
    } else {
        assigned(entries.drop_last()).insert(entries.last().register, entries.last().rule@)
    }
}

/// To put another rule in the place of the last assignment to a
/// register is to assign that rule to the register.
proof fn lemma_assigned_update(entries: Seq<RuleEntry>, i: int, e: RuleEntry)
    requires
        0 <= i < entries.len(),
        entries[i].register == e.register,
        forall|j: int| i < j < entries.len() ==> entries[j].register != e.register,
    ensures
        assigned(entries.update(i, e)) == assigned(entries).insert(e.register, e.rule@),
    decreases entries.len(),
{
    let updated = entries.update(i, e);
    if i == entries.len() - 1 {
        assert(updated.drop_last() =~= entries.drop_last());
        assert(assigned(updated) =~= assigned(entries).insert(e.register, e.rule@));
    } else {
        lemma_assigned_update(entries.drop_last(), i, e);
        assert(updated.drop_last() =~= entries.drop_last().update(i, e));
        assert(updated.last() == entries.last());
        assert(assigned(updated) =~= assigned(entries).insert(e.register, e.rule@));
    }
}

/// The rule that `rules` has for `register`: `Undefined` where none was
/// assigned.
pub open spec fn rule_of(rules: Map<u64, RuleView>, register: u64) -> RuleView {
    if rules.dom().contains(register) {
        rules[register]
    } else {
        RuleView::Undefined
    }
}

/// The rules of the registers at one place in the code. Its view maps
/// each register that a rule was assigned to, to its rule; every other
/// register is `Undefined`.
#[derive(Clone, Debug)]
pub struct RuleSet {
    entries: Vec<RuleEntry>,
}

impl View for RuleSet {
    type V = Map<u64, RuleView>;

    closed spec fn view(&self) -> Map<u64, RuleView> {
        assigned(self.entries@)
    }
}

impl RuleSet {
    /// The rule set in which every register is `Undefined`.
    pub fn new() -> (r: RuleSet)
        ensures
            r@ == Map::<u64, RuleView>::empty(),
    {
        RuleSet { entries: Vec::new() }
    }

    /// Assigns `rule` to `register`, in place of the rule that it had.
    pub fn set(&mut self, register: u64, rule: RegisterRule)
        ensures
            final(self)@ == old(self)@.insert(register, rule@),
    {
        let mut i: usize = self.entries.len();
        while i > 0
            invariant
                i <= self.entries@.len(),
                *self == *old(self),
                forall|j: int| i <= j < self.entries@.len() ==> self.entries@[j].register != register,
            decreases i,
        {
            i -= 1;
            if self.entries[i].register == register {
                proof {
                    lemma_assigned_update(self.entries@, i as int, RuleEntry { register, rule });
                }
                self.entries.set(i, RuleEntry { register, rule });
                return ;
            }
        }
        proof {
            let e = RuleEntry { register, rule };
            assert(self.entries@.push(e).drop_last() =~= self.entries@);
        }
        self.entries.push(RuleEntry { register, rule });
    }

    /// The rule of `register`.
    pub fn get(&self, register: u64) -> (r: RegisterRule)
        ensures
            r@ == rule_of(self@, register),
    {
        let mut i: usize = self.entries.len();
        proof {
            assert(self.entries@.take(i as int) =~= self.entries@);
        }
        while i > 0
            invariant
                i <= self.entries@.len(),
                rule_of(self@, register) == rule_of(
                    assigned(self.entries@.take(i as int)),
                    register,
                ),
            decreases i,
        {
            i -= 1;
            proof {
                assert(self.entries@.take(i + 1).drop_last() =~= self.entries@.take(i as int));
                assert(self.entries@.take(i + 1).last() == self.entries@[i as int]);
            }
            if self.entries[i].register == register {
                return self.entries[i].rule.duplicate();
            }
        }
        RegisterRule::Undefined
    }

    /// A copy of the rule set.
    pub fn duplicate(&self) -> (r: RuleSet)
        ensures
            r@ == self@,
    {
        let mut entries: Vec<RuleEntry> = Vec::new();
        let mut i: usize = 0;
        while i < self.entries.len()
            invariant
                i <= self.entries@.len(),
                entries@.len() == i,
                assigned(entries@) == assigned(self.entries@.take(i as int)),
            decreases self.entries@.len() - i,
        {
            let e = RuleEntry {
                register: self.entries[i].register,
                rule: self.entries[i].rule.duplicate(),
            };
            proof {
                assert(entries@.push(e).drop_last() =~= entries@);
                assert(self.entries@.take(i + 1).drop_last() =~= self.entries@.take(i as int));
                assert(self.entries@.take(i + 1).last() == self.entries@[i as int]);
            }
            entries.push(e);
            i += 1;
        }
        proof {
            assert(self.entries@.take(i as int) =~= self.entries@);
        }
        RuleSet { entries }
    }
}

} // verus!
