//! The interpreter of call-frame instructions: a machine that turns the
//! instructions of a common information entry and of a frame description
//! into the rows of an unwind table.

use crate::cfi::{CommonInfo, CommonInfoView, FrameDescription, FrameDescriptionView};
use crate::error::CfiError;
use crate::instruction::{
    instruction_at, lemma_instruction_consumes, read_instruction, Instruction, InstructionView,
};
use crate::reader::ByteCursor;
use crate::rules::{copy_bytes, rule_of, CfaRule, CfaView, RegisterRule, RuleSet, RuleView};
use vstd::prelude::*;

verus! {

/// The rules that hold from one location on, up to the location of the
/// next row.
#[derive(Clone, Debug)]
pub struct UnwindRow {
    /// The location, as an offset from the start of the address range.
    pub pc_offset: u64,
    pub cfa: CfaRule,
    pub registers: RuleSet,
}

/// The mathematical value of an `UnwindRow`.
pub struct UnwindRowView {
    pub pc_offset: u64,
    pub cfa: CfaView,
    pub registers: Map<u64, RuleView>,
}

impl View for UnwindRow {
    type V = UnwindRowView;

    open spec fn view(&self) -> UnwindRowView {
        UnwindRowView { pc_offset: self.pc_offset, cfa: self.cfa@, registers: self.registers@ }
    }
}

/// The mathematical values of `rows`.
pub open spec fn row_views(rows: Seq<UnwindRow>) -> Seq<UnwindRowView> {
    rows.map_values(|r: UnwindRow| r@)
}

/// A saved copy of the rules.
#[derive(Clone, Debug)]
struct Snapshot {
    cfa: CfaRule,
    rules: RuleSet,
}

/// The mathematical value of a saved copy of the rules.
pub struct SnapshotView {
    pub cfa: CfaView,
    pub rules: Map<u64, RuleView>,
}

impl View for Snapshot {
    type V = SnapshotView;

    closed spec fn view(&self) -> SnapshotView {
        SnapshotView { cfa: self.cfa@, rules: self.rules@ }
    }
}

/// The state of the interpreter.
pub struct MachineView {
    pub code_alignment_factor: u64,
    pub data_alignment_factor: i64,
    /// The location of the row that is open.
    pub pc: u64,
    pub cfa: CfaView,
    pub rules: Map<u64, RuleView>,
    /// The saved copies, the latest last.
    pub saved: Seq<SnapshotView>,
    /// The rules as the common information entry left them.
    pub initial: Map<u64, RuleView>,
    /// The rows that are closed.
    pub rows: Seq<UnwindRowView>,
}

impl MachineView {
    /// The state before any instruction: every register undefined, no
    /// frame address rule, nothing saved, no row closed, at offset 0.
    pub open spec fn start(code_alignment_factor: u64, data_alignment_factor: i64) -> MachineView {
        MachineView {
            code_alignment_factor,
            data_alignment_factor,
            pc: 0,
            cfa: CfaView::Unset,
            rules: Map::empty(),
            saved: Seq::empty(),
            initial: Map::empty(),
            rows: Seq::empty(),
        }
    }

    /// The open row.
    pub open spec fn current_row(self) -> UnwindRowView {
        UnwindRowView { pc_offset: self.pc, cfa: self.cfa, registers: self.rules }
    }

    /// A factored offset times the data alignment factor, wrapping.
    pub open spec fn scaled(self, n: i64) -> i64 {
        n.wrapping_mul(self.data_alignment_factor)
    }

    /// The location after an advance by a factored delta, wrapping.
    pub open spec fn advanced(self, delta: u64) -> u64 {
        self.pc.wrapping_add(delta.wrapping_mul(self.code_alignment_factor))
    }

    pub open spec fn with_rule(self, register: u64, rule: RuleView) -> MachineView {
        MachineView { rules: self.rules.insert(register, rule), ..self }
    }

    pub open spec fn with_cfa(self, cfa: CfaView) -> MachineView {
        MachineView { cfa, ..self }
    }

    /// The state after one instruction. Only `restore_state` can fail:
    /// it does where nothing is saved.
    pub open spec fn step(self, ins: InstructionView) -> Result<MachineView, CfiError> {
        match ins {
            InstructionView::Nop => Ok(self),
            InstructionView::AdvanceLoc(delta) => Ok(
                MachineView {
                    rows: self.rows.push(self.current_row()),
                    pc: self.advanced(delta),
                    ..self
                },
            ),
            InstructionView::DefCfa(r, n) => Ok(self.with_cfa(CfaView::RegisterOffset(r, n))),
            InstructionView::DefCfaSf(r, n) => Ok(
                self.with_cfa(CfaView::RegisterOffset(r, self.scaled(n))),
            ),
            InstructionView::DefCfaRegister(r) => Ok(
                self.with_cfa(CfaView::RegisterOffset(r, self.cfa.offset())),
            ),
            InstructionView::DefCfaOffset(n) => Ok(
                self.with_cfa(CfaView::RegisterOffset(self.cfa.register(), n)),
            ),
            InstructionView::DefCfaOffsetSf(n) => Ok(
                self.with_cfa(CfaView::RegisterOffset(self.cfa.register(), self.scaled(n))),
            ),
            InstructionView::DefCfaExpression(b) => Ok(self.with_cfa(CfaView::Expression(b))),
            InstructionView::Offset(r, n) => Ok(self.with_rule(r, RuleView::Offset(self.scaled(n)))),
            InstructionView::ValOffset(r, n) => Ok(
                self.with_rule(r, RuleView::ValOffset(self.scaled(n))),
            ),
            InstructionView::SameValue(r) => Ok(self.with_rule(r, RuleView::SameValue)),
            InstructionView::Undefined(r) => Ok(self.with_rule(r, RuleView::Undefined)),
            InstructionView::Register(r, q) => Ok(self.with_rule(r, RuleView::Register(q))),
            InstructionView::RememberState => Ok(
                MachineView {
                    saved: self.saved.push(SnapshotView { cfa: self.cfa, rules: self.rules }),
                    ..self
                },
            ),
            InstructionView::RestoreState => if self.saved.len() == 0 {
                Err(CfiError::MalformedInstruction)
            } else {
                Ok(
                    MachineView {
                        cfa: self.saved.last().cfa,
                        rules: self.saved.last().rules,
                        saved: self.saved.drop_last(),
                        ..self
                    },
                )
            },
            InstructionView::Restore(r) => Ok(self.with_rule(r, rule_of(self.initial, r))),
            InstructionView::Expression(r, b) => Ok(self.with_rule(r, RuleView::Expression(b))),
            InstructionView::ValExpression(r, b) => Ok(
                self.with_rule(r, RuleView::ValExpression(b)),
            ),
        }
    }

    /// The state with the current rules taken as the initial ones, to
    /// which `restore` resets a register.
    pub open spec fn mark_initial(self) -> MachineView {
        MachineView { initial: self.rules, ..self }
    }

    /// The state after the instructions that `s` spells, one after the
    /// other, up to the end of `s`.
    pub open spec fn run(self, s: Seq<u8>) -> Result<MachineView, CfiError>
        decreases s.len(),
    {
        if s.len() == 0 {
            Ok(self)
        } else {
            match instruction_at(s) {
                Err(e) => Err(e),
                Ok((ins, rest)) => match self.step(ins) {
                    Err(e) => Err(e),
                    Ok(next) => if rest.len() < s.len() {
                        next.run(rest)
                    } else {
                        Ok(next)
                    },
                },
            }
        }
    }

    /// Whether no instruction that `s` spells moves the location back,
    /// as an advance does that wraps around the end of the address space.
    pub open spec fn never_wraps(self, s: Seq<u8>) -> bool
        decreases s.len(),
    {
        if s.len() == 0 {
            true
        } else {
            match instruction_at(s) {
                Err(_) => true,
                Ok((ins, rest)) => match self.step(ins) {
                    Err(_) => true,
                    Ok(next) => next.pc >= self.pc && (rest.len() < s.len() ==> next.never_wraps(
                        rest,
                    )),
                },
            }
        }
    }

    /// The rows of the table: the closed ones, then the open one.
    pub open spec fn finish(self) -> Seq<UnwindRowView> {
        self.rows.push(self.current_row())
    }

    /// Whether the rows, closed and open, are in the order of their
    /// offsets.
    pub open spec fn ordered(self) -> bool {
        &&& forall|i: int, j: int|
            0 <= i <= j < self.rows.len() ==> (#[trigger] self.rows[i]).pc_offset <= (
            #[trigger] self.rows[j]).pc_offset
        &&& forall|i: int| 0 <= i < self.rows.len() ==> (#[trigger] self.rows[i]).pc_offset <= self.pc
    }

    /// The first row, closed or open, is at offset 0.
    pub open spec fn starts_at_zero(self) -> bool {
        if self.rows.len() == 0 {
            self.pc == 0
        } else {
            self.rows[0].pc_offset == 0
        }
    }
}

/// The rows that the instructions of `cie` and then of `fde` give: those
/// of `cie` set the initial rules, and the table ends with the row that
/// is open when the instructions of `fde` end.
pub open spec fn table_rows(cie: CommonInfoView, fde: FrameDescriptionView) -> Result<
    Seq<UnwindRowView>,
    CfiError,
> {
    match MachineView::start(cie.code_alignment_factor, cie.data_alignment_factor).run(
        cie.initial_instructions,
    ) {
        Err(e) => Err(e),
        Ok(m) => match m.mark_initial().run(fde.instructions) {
            Err(e) => Err(e),
            Ok(end) => Ok(end.finish()),
        },
    }
}

/// The interpreter of call-frame instructions.
pub struct Machine {
    code_alignment_factor: u64,
    data_alignment_factor: i64,
    pc: u64,
    cfa: CfaRule,
    rules: RuleSet,
    saved: Vec<Snapshot>,
    initial: RuleSet,
    rows: Vec<UnwindRow>,
}

impl View for Machine {
    type V = MachineView;

    closed spec fn view(&self) -> MachineView {
        MachineView {
            code_alignment_factor: self.code_alignment_factor,
            data_alignment_factor: self.data_alignment_factor,
            pc: self.pc,
            cfa: self.cfa@,
            rules: self.rules@,
            saved: self.saved@.map_values(|s: Snapshot| s@),
            initial: self.initial@,
            rows: row_views(self.rows@),
        }
    }
}

impl Machine {
    /// A machine in the starting state.
    pub fn new(code_alignment_factor: u64, data_alignment_factor: i64) -> (r: Machine)
        ensures
            r@ == MachineView::start(code_alignment_factor, data_alignment_factor),
    {
        let m = Machine {
            code_alignment_factor,
            data_alignment_factor,
            pc: 0,
            cfa: CfaRule::Unset,
            rules: RuleSet::new(),
            saved: Vec::new(),
            initial: RuleSet::new(),
            rows: Vec::new(),
        };
        proof {
            assert(m.saved@.map_values(|s: Snapshot| s@) =~= Seq::<SnapshotView>::empty());
            assert(m.rows@.map_values(|r: UnwindRow| r@) =~= Seq::<UnwindRowView>::empty());
        }
        m
    }

    fn set_rule(&mut self, register: u64, rule: RegisterRule)
        ensures
            final(self)@ == old(self)@.with_rule(register, rule@),
    {
        self.rules.set(register, rule);
    }

    fn set_cfa(&mut self, cfa: CfaRule)
        ensures
            final(self)@ == old(self)@.with_cfa(cfa@),
    {
        self.cfa = cfa;
    }

    fn scale(&self, n: i64) -> (r: i64)
        ensures
            r == self@.scaled(n),
    {
        n.wrapping_mul(self.data_alignment_factor)
    }

    fn advance(&mut self, delta: u64)
        ensures
            old(self)@.step(InstructionView::AdvanceLoc(delta)) == Ok::<MachineView, CfiError>(
                final(self)@,
            ),
    {
        let row = UnwindRow {
            pc_offset: self.pc,
            cfa: self.cfa.duplicate(),
            registers: self.rules.duplicate(),
        };
        proof {
            assert(self.rows@.push(row).map_values(|r: UnwindRow| r@) =~= self.rows@.map_values(
                |r: UnwindRow| r@,
            ).push(row@));
        }
        self.rows.push(row);
        self.pc = self.pc.wrapping_add(delta.wrapping_mul(self.code_alignment_factor));
    }

    fn remember(&mut self)
        ensures
            old(self)@.step(InstructionView::RememberState) == Ok::<MachineView, CfiError>(
                final(self)@,
            ),
    {
        let snapshot = Snapshot { cfa: self.cfa.duplicate(), rules: self.rules.duplicate() };
        proof {
            assert(self.saved@.push(snapshot).map_values(|s: Snapshot| s@)
                =~= self.saved@.map_values(|s: Snapshot| s@).push(snapshot@));
        }
        self.saved.push(snapshot);
    }

    fn restore_saved(&mut self) -> (r: Result<(), CfiError>)
        ensures
            match old(self)@.step(InstructionView::RestoreState) {
                Ok(m) => r is Ok && final(self)@ == m,
                Err(e) => r == Err::<(), CfiError>(e) && final(self)@ == old(self)@,
            },
    {
        let ghost before = self.saved@;
        match self.saved.pop() {
            None => Err(CfiError::MalformedInstruction),
            Some(snapshot) => {
                proof {
                    assert(before.drop_last().map_values(|s: Snapshot| s@) =~= before.map_values(
                        |s: Snapshot| s@,
                    ).drop_last());
                }
                self.cfa = snapshot.cfa;
                self.rules = snapshot.rules;
                Ok(())
            },
        }
    }

    /// Executes one instruction. Fails, and changes nothing, at a
    /// `restore_state` where nothing is saved.
    pub fn execute(&mut self, ins: &Instruction) -> (r: Result<(), CfiError>)
        ensures
            match old(self)@.step(ins@) {
                Ok(m) => r is Ok && final(self)@ == m,
                Err(e) => r == Err::<(), CfiError>(e) && final(self)@ == old(self)@,
            },
    {
        match ins {
            Instruction::Nop => {},
            Instruction::AdvanceLoc(delta) => {
                self.advance(*delta);
            },
            Instruction::DefCfa(r, n) => {
                self.set_cfa(CfaRule::RegisterOffset(*r, *n));
            },
            Instruction::DefCfaSf(r, n) => {
                let offset = self.scale(*n);
                self.set_cfa(CfaRule::RegisterOffset(*r, offset));
            },
            Instruction::DefCfaRegister(r) => {
                let offset = self.cfa.offset();
                self.set_cfa(CfaRule::RegisterOffset(*r, offset));
            },
            Instruction::DefCfaOffset(n) => {
                let register = self.cfa.register();
                self.set_cfa(CfaRule::RegisterOffset(register, *n));
            },
            Instruction::DefCfaOffsetSf(n) => {
                let register = self.cfa.register();
                let offset = self.scale(*n);
                self.set_cfa(CfaRule::RegisterOffset(register, offset));
            },
            Instruction::DefCfaExpression(b) => {
                self.set_cfa(CfaRule::Expression(copy_bytes(b)));
            },
            Instruction::Offset(r, n) => {
                let offset = self.scale(*n);
                self.set_rule(*r, RegisterRule::Offset(offset));
            },
            Instruction::ValOffset(r, n) => {
                let offset = self.scale(*n);
                self.set_rule(*r, RegisterRule::ValOffset(offset));
            },
            Instruction::SameValue(r) => {
                self.set_rule(*r, RegisterRule::SameValue);
            },
            Instruction::Undefined(r) => {
                self.set_rule(*r, RegisterRule::Undefined);
            },
            Instruction::Register(r, q) => {
                self.set_rule(*r, RegisterRule::Register(*q));
            },
            Instruction::RememberState => {
                self.remember();
            },
            Instruction::RestoreState => {
                return self.restore_saved();
            },
            Instruction::Restore(r) => {
                let rule = self.initial.get(*r);
                self.set_rule(*r, rule);
            },
            Instruction::Expression(r, b) => {
                self.set_rule(*r, RegisterRule::Expression(copy_bytes(b)));
            },
            Instruction::ValExpression(r, b) => {
                self.set_rule(*r, RegisterRule::ValExpression(copy_bytes(b)));
            },
        }
        Ok(())
    }

    /// Takes the current rules as the initial ones, to which `restore`
    /// resets a register.
    pub fn mark_initial(&mut self)
        ensures
            final(self)@ == old(self)@.mark_initial(),
    {
        self.initial = self.rules.duplicate();
    }

    /// Decodes and executes the instructions in `bytes`, up to their end
    /// or to the first that fails.
    pub fn run(&mut self, bytes: &[u8]) -> (r: Result<(), CfiError>)
        ensures
            match old(self)@.run(bytes@) {
                Ok(m) => r is Ok && final(self)@ == m,
                Err(e) => r == Err::<(), CfiError>(e),
            },
    {
        let mut cursor = ByteCursor::new(bytes);
        while cursor.remaining() > 0
            invariant
                old(self)@.run(bytes@) == self@.run(cursor@),
            decreases cursor@.len(),
        {
            let ins = match read_instruction(&mut cursor) {
                Ok(i) => i,
                Err(e) => return Err(e),
            };
            match self.execute(&ins) {
                Ok(()) => {},
                Err(e) => return Err(e),
            }
        }
        Ok(())
    }

    /// The location of the open row.
    pub fn pc(&self) -> (r: u64)
        ensures
            r == self@.pc,
    {
        self.pc
    }

    /// The current rule of `register`.
    pub fn rule(&self, register: u64) -> (r: RegisterRule)
        ensures
            r@ == rule_of(self@.rules, register),
    {
        self.rules.get(register)
    }

    /// The current rule of the frame address.
    pub fn cfa(&self) -> (r: CfaRule)
        ensures
            r@ == self@.cfa,
    {
        self.cfa.duplicate()
    }

    /// Closes the open row and gives the rows of the table.
    pub fn finish(self) -> (r: Vec<UnwindRow>)
        ensures
            row_views(r@) == self@.finish(),
            r@.len() == self@.rows.len() + 1,
    {
        let mut rows = self.rows;
        let row = UnwindRow { pc_offset: self.pc, cfa: self.cfa, registers: self.rules };
        proof {
            assert(rows@.push(row).map_values(|r: UnwindRow| r@) =~= rows@.map_values(
                |r: UnwindRow| r@,
            ).push(row@));
        }
        rows.push(row);
        rows
    }
}

/// `remember_state` and then `restore_state` give back the state that
/// they started from, whatever it was: the rules, the frame address rule
/// and everything else.
pub proof fn lemma_remember_then_restore(m: MachineView)
    ensures
        m.step(InstructionView::RememberState) is Ok,
        m.step(InstructionView::RememberState)->Ok_0.step(InstructionView::RestoreState) == Ok::<
            MachineView,
            CfiError,
        >(m),
{
    let pushed = m.saved.push(SnapshotView { cfa: m.cfa, rules: m.rules });
    assert(pushed.drop_last() =~= m.saved);
}

/// `restore_state` fails as malformed where nothing is saved, and only
/// there.
pub proof fn lemma_restore_state_needs_saved(m: MachineView)
    ensures
        m.saved.len() == 0 <==> m.step(InstructionView::RestoreState) == Err::<
            MachineView,
            CfiError,
        >(CfiError::MalformedInstruction),
        m.saved.len() > 0 <==> m.step(InstructionView::RestoreState) is Ok,
{
}

/// No instruction changes the initial rules. So `restore` of a register,
/// after any instruction that succeeds, gives the register the rule that
/// it had initially, not the one that the instruction gave it.
pub proof fn lemma_restore_resets_to_initial(m: MachineView, ins: InstructionView, register: u64)
    requires
        m.step(ins) is Ok,
    ensures
        m.step(ins)->Ok_0.initial == m.initial,
        m.step(ins)->Ok_0.step(InstructionView::Restore(register)) is Ok,
        rule_of(
            m.step(ins)->Ok_0.step(InstructionView::Restore(register))->Ok_0.rules,
            register,
        ) == rule_of(m.initial, register),
{
}

/// The rows stay in the order of their offsets as long as no advance
/// wraps around the end of the address space.
pub proof fn lemma_step_keeps_order(m: MachineView, ins: InstructionView)
    requires
        m.ordered(),
        m.step(ins) is Ok,
        m.step(ins)->Ok_0.pc >= m.pc,
    ensures
        m.step(ins)->Ok_0.ordered(),
{
}

/// The rows stay in the order of their offsets through a run in which
/// no advance wraps.
pub proof fn lemma_run_keeps_order(m: MachineView, s: Seq<u8>)
    requires
        m.ordered(),
        m.run(s) is Ok,
        m.never_wraps(s),
    ensures
        m.run(s)->Ok_0.ordered(),
    decreases s.len(),
{
    if s.len() > 0 {
        let (ins, rest) = instruction_at(s)->Ok_0;
        let next = m.step(ins)->Ok_0;
        lemma_step_keeps_order(m, ins);
        if rest.len() < s.len() {
            lemma_run_keeps_order(next, rest);
        }
    }
}

/// The rows of a table are in the order of their offsets, where no
/// advance wraps.
pub proof fn lemma_table_is_ordered(cie: CommonInfoView, fde: FrameDescriptionView)
    requires
        table_rows(cie, fde) is Ok,
        MachineView::start(cie.code_alignment_factor, cie.data_alignment_factor).never_wraps(
            cie.initial_instructions,
        ),
        MachineView::start(cie.code_alignment_factor, cie.data_alignment_factor).run(
            cie.initial_instructions,
        )->Ok_0.mark_initial().never_wraps(fde.instructions),
    ensures
        forall|i: int, j: int|
            0 <= i <= j < table_rows(cie, fde)->Ok_0.len() ==> (#[trigger] table_rows(
                cie,
                fde,
            )->Ok_0[i]).pc_offset <= (#[trigger] table_rows(cie, fde)->Ok_0[j]).pc_offset,
{
    let start = MachineView::start(cie.code_alignment_factor, cie.data_alignment_factor);
    lemma_run_keeps_order(start, cie.initial_instructions);
    let m = start.run(cie.initial_instructions)->Ok_0;
    lemma_run_keeps_order(m.mark_initial(), fde.instructions);
}

/// The guard in `run` never fires: a run executes every instruction that
/// its bytes spell, since each takes at least one byte.
pub proof fn lemma_run_unfolds(m: MachineView, s: Seq<u8>)
    requires
        s.len() > 0,
        instruction_at(s) is Ok,
        m.step(instruction_at(s)->Ok_0.0) is Ok,
    ensures
        m.run(s) == m.step(instruction_at(s)->Ok_0.0)->Ok_0.run(instruction_at(s)->Ok_0.1),
{
    lemma_instruction_consumes(s);
}

/// Every instruction keeps the first row at offset 0.
pub proof fn lemma_step_starts_at_zero(m: MachineView, ins: InstructionView)
    requires
        m.starts_at_zero(),
        m.step(ins) is Ok,
    ensures
        m.step(ins)->Ok_0.starts_at_zero(),
{
}

/// Every run of instructions keeps the first row at offset 0.
pub proof fn lemma_run_starts_at_zero(m: MachineView, s: Seq<u8>)
    requires
        m.starts_at_zero(),
        m.run(s) is Ok,
    ensures
        m.run(s)->Ok_0.starts_at_zero(),
    decreases s.len(),
{
    if s.len() > 0 {
        let (ins, rest) = instruction_at(s)->Ok_0;
        let next = m.step(ins)->Ok_0;
        lemma_step_starts_at_zero(m, ins);
        if rest.len() < s.len() {
            lemma_run_starts_at_zero(next, rest);
        }
    }
}

/// A table has at least one row, and its first row is at offset 0.
pub proof fn lemma_table_starts_at_zero(cie: CommonInfoView, fde: FrameDescriptionView)
    requires
        table_rows(cie, fde) is Ok,
    ensures
        table_rows(cie, fde)->Ok_0.len() > 0,
        table_rows(cie, fde)->Ok_0[0].pc_offset == 0,
{
    let start = MachineView::start(cie.code_alignment_factor, cie.data_alignment_factor);
    lemma_run_starts_at_zero(start, cie.initial_instructions);
    let m = start.run(cie.initial_instructions)->Ok_0;
    lemma_run_starts_at_zero(m.mark_initial(), fde.instructions);
}

/// An unwind table: the rows of one frame description, which hold for the
/// addresses from `initial_location` up to, and without,
/// `initial_location + address_range`.
#[derive(Clone, Debug)]
pub struct UnwindTable {
    pub initial_location: u64,
    pub address_range: u64,
    pub rows: Vec<UnwindRow>,
}

/// The mathematical value of an `UnwindTable`.
pub struct UnwindTableView {
    pub initial_location: u64,
    pub address_range: u64,
    pub rows: Seq<UnwindRowView>,
}

impl View for UnwindTable {
    type V = UnwindTableView;

    open spec fn view(&self) -> UnwindTableView {
        UnwindTableView {
            initial_location: self.initial_location,
            address_range: self.address_range,
            rows: row_views(self.rows@),
        }
    }
}

impl UnwindTableView {
    /// Whether `pc` lies in the address range of the table.
    pub open spec fn covers(self, pc: u64) -> bool {
        self.initial_location <= pc < self.initial_location + self.address_range
    }

    /// Whether row `i` is the one for the offset `target`: the first of
    /// the rows with the greatest offset that is not above `target`.
    pub open spec fn selects(self, target: u64, i: int) -> bool {
        &&& 0 <= i < self.rows.len()
        &&& self.rows[i].pc_offset <= target
        &&& forall|j: int|
            0 <= j < self.rows.len() && (#[trigger] self.rows[j]).pc_offset <= target
                ==> self.rows[j].pc_offset <= self.rows[i].pc_offset
        &&& forall|j: int|
            0 <= j < i ==> (#[trigger] self.rows[j]).pc_offset != self.rows[i].pc_offset
    }

    /// Whether no row is at or below the offset `target`.
    pub open spec fn none_up_to(self, target: u64) -> bool {
        forall|j: int| 0 <= j < self.rows.len() ==> (#[trigger] self.rows[j]).pc_offset > target
    }
}

/// At the first address of the range, a table whose first row is at
/// offset 0 has a row to answer with, and answers with its first row.
pub proof fn lemma_lookup_at_start(t: UnwindTableView)
    requires
        t.rows.len() > 0,
        t.rows[0].pc_offset == 0,
    ensures
        !t.none_up_to(0),
        forall|i: int| t.selects(0, i) ==> i == 0,
{
    assert forall|i: int| t.selects(0, i) implies i == 0 by {
        if i > 0 {
            assert(t.rows[0].pc_offset != t.rows[i].pc_offset);
        }
    }
}

/// Builds the unwind table of `fde` under its common information entry
/// `cie`. Fails where an instruction of either is malformed.
pub fn build_table(cie: &CommonInfo, fde: &FrameDescription) -> (r: Result<UnwindTable, CfiError>)
    ensures
        match table_rows(cie@, fde@) {
            Err(e) => r is Err && r->Err_0 == e,
            Ok(rows) => r is Ok && r->Ok_0@ == (UnwindTableView {
                initial_location: fde.initial_location,
                address_range: fde.address_range,
                rows,
            }),
        },
{
    let mut machine = Machine::new(cie.code_alignment_factor, cie.data_alignment_factor);
    match machine.run(cie.initial_instructions.as_slice()) {
        Ok(()) => {},
        Err(e) => return Err(e),
    }
    machine.mark_initial();
    match machine.run(fde.instructions.as_slice()) {
        Ok(()) => {},
        Err(e) => return Err(e),
    }
    let rows = machine.finish();
    Ok(
        UnwindTable {
            initial_location: fde.initial_location,
            address_range: fde.address_range,
            rows,
        },
    )
}

impl UnwindTable {
    /// The row that holds at the address `pc`: of the rows whose offset
    /// is not beyond `pc`, the first with the greatest offset. Fails with
    /// `NoCoverage` where `pc` is outside the address range, or before
    /// every row.
    pub fn lookup(&self, pc: u64) -> (r: Result<&UnwindRow, CfiError>)
        ensures
            match r {
                Ok(row) => self@.covers(pc) && exists|i: int|
                    self@.selects((pc - self.initial_location) as u64, i) && row@
                        == #[trigger] self@.rows[i],
                Err(e) => e == CfiError::NoCoverage && (!self@.covers(pc) || self@.none_up_to(
                    (pc - self.initial_location) as u64,
                )),
            },
    {
        if pc < self.initial_location || pc - self.initial_location >= self.address_range {
            return Err(CfiError::NoCoverage);
        }
        let target = pc - self.initial_location;
        let mut best: Option<usize> = None;
        let mut i: usize = 0;
        while i < self.rows.len()
            invariant
                i <= self.rows@.len(),
                match best {
                    None => forall|j: int| 0 <= j < i ==> (#[trigger] self@.rows[j]).pc_offset > target,
                    Some(b) => {
                        &&& b < i
                        &&& self@.rows[b as int].pc_offset <= target
                        &&& forall|j: int|
                            0 <= j < i && (#[trigger] self@.rows[j]).pc_offset <= target
                                ==> self@.rows[j].pc_offset <= self@.rows[b as int].pc_offset
                        &&& forall|j: int|
                            0 <= j < b ==> (#[trigger] self@.rows[j]).pc_offset
                                != self@.rows[b as int].pc_offset
                    },
                },
            decreases self.rows@.len() - i,
        {
            let offset = self.rows[i].pc_offset;
            assert(self@.rows[i as int].pc_offset == offset);
            if offset <= target {
                match best {
                    None => {
                        best = Some(i);
                    },
                    Some(b) => {
                        if self.rows[b].pc_offset < offset {
                            assert(self@.rows[b as int].pc_offset == self.rows[b as int].pc_offset);
                            best = Some(i);
                        }
                    },
                }
            }
            i += 1;
        }
        match best {
            None => Err(CfiError::NoCoverage),
            Some(b) => {
                assert(self@.selects(target, b as int));
                assert(self.rows[b as int]@ == self@.rows[b as int]);
                Ok(&self.rows[b])
            },
        }
    }
}

} // verus!
