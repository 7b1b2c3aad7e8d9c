//! The fetch-decode-execute engine. One call of `execute_instruction`
//! performs exactly one cycle against a memory image: fetch the 16-bit
//! word at the program counter, dispatch on its top four bits, mutate
//! registers, flags and possibly memory, and advance the program counter.
//! `SIMHALT` leaves the program counter unchanged, which is the halt
//! signal; an address outside the memory range is reported as a fault
//! with no state change. The whole cycle is specified by `step_spec`.

use vstd::prelude::*;

use crate::arith::{sgn16_low, signed16_low, wadd32, wrap32, wrap_to_u32, wsub32};
use crate::memory::{long_at, with_long, word_at, Memory, MEM_SIZE};

verus! {

/// What one execution step did: advanced normally, hit the halt opcode,
/// or touched an address outside the memory range (no state change).
#[derive(PartialEq, Eq, Structural, Clone, Copy, Debug)]
pub enum StepOutcome {
    Ran,
    Halted,
    AddressError,
}

/// The register file as the specification sees it.
#[verifier::ext_equal]
pub ghost struct CpuView {
    pub d: Seq<u32>,
    pub a: Seq<u32>,
    pub pc: u32,
    pub ccr: u8,
    pub ssp: u32,
    pub vbr: u32,
    pub sr: u16,
}

/// The outcome of one specified step: registers, memory, and what
/// happened.
#[verifier::ext_equal]
pub ghost struct Step {
    pub cpu: CpuView,
    pub mem: Seq<u8>,
    pub outcome: StepOutcome,
}

/// The condition-code register after a result: the zero flag (bit 2) set
/// exactly when the 32-bit result is zero, the negative flag (bit 3) set
/// exactly when it is negative; other bits unchanged.
pub open spec fn flags_for(ccr: u8, result: u32) -> u8 {
    let z = if result == 0 {
        ccr | 0x04
    } else {
        ccr & 0xFB
    };
    if result >= 0x8000_0000 {
        z | 0x08
    } else {
        z & 0xF7
    }
}

/// Whether a branch condition nibble holds under the flags: always for 0,
/// never for 1, carry tests for 2 to 5, zero tests for 6 and 7; nibbles
/// above 7 never branch in this subset.
pub open spec fn cond_holds(ccr: u8, condition: u16) -> bool {
    if condition == 0x0 {
        true
    } else if condition == 0x1 {
        false
    } else if condition == 0x2 {
        ccr & 0x01 != 0
    } else if condition == 0x3 {
        ccr & 0x01 == 0
    } else if condition == 0x4 {
        ccr & 0x01 == 0
    } else if condition == 0x5 {
        ccr & 0x01 != 0
    } else if condition == 0x6 {
        ccr & 0x04 == 0
    } else if condition == 0x7 {
        ccr & 0x04 != 0
    } else {
        false
    }
}

/// The step that only advances the program counter past one word.
pub open spec fn advance2(c: CpuView, m: Seq<u8>) -> Step {
    Step {
        cpu: CpuView { pc: wrap32(c.pc + 2), ..c },
        mem: m,
        outcome: StepOutcome::Ran,
    }
}

/// The step that changes nothing and reports an address fault.
pub open spec fn fault(c: CpuView, m: Seq<u8>) -> Step {
    Step { cpu: c, mem: m, outcome: StepOutcome::AddressError }
}

/// The miscellaneous group: `CMPI.L #imm, Dn` consumes an extension word
/// and sets flags from `Dn - imm`; `JMP` loads the program counter from
/// the word behind the opcode; `NOP` advances; `SIMHALT` leaves the
/// program counter unchanged; anything else advances with no effect.
pub open spec fn misc_spec(c: CpuView, m: Seq<u8>, inst: u16) -> Step {
    if inst / 8 == 0x190 {
        if c.pc + 3 < m.len() {
            let reg = (inst % 8) as int;
            let imm = word_at(m, c.pc + 2) as u32;
            let result = wrap32(c.d[reg] - imm);
            Step {
                cpu: CpuView { pc: wrap32(c.pc + 4), ccr: flags_for(c.ccr, result), ..c },
                mem: m,
                outcome: StepOutcome::Ran,
            }
        } else {
            fault(c, m)
        }
    } else if inst == 0x4EF8 {
        if c.pc + 3 < m.len() {
            Step {
                cpu: CpuView { pc: word_at(m, c.pc + 2) as u32, ..c },
                mem: m,
                outcome: StepOutcome::Ran,
            }
        } else {
            fault(c, m)
        }
    } else if inst == 0x4E71 {
        advance2(c, m)
    } else if inst == 0x4E72 {
        Step { cpu: c, mem: m, outcome: StepOutcome::Halted }
    } else {
        advance2(c, m)
    }
}

/// The move group: long-word immediate loads into a data or address
/// register (consuming an extension word, zero-extended), long-word
/// transfers between a data register and memory through `(An)`, the
/// register-to-register word `MOVE D0, D1`, and no effect otherwise.
pub open spec fn move_spec(c: CpuView, m: Seq<u8>, inst: u16) -> Step {
    let size = inst / 0x1000;
    let dest_reg = ((inst / 0x200) % 8) as int;
    let dest_mode = (inst / 0x40) % 8;
    let src_mode = (inst / 8) % 8;
    let src_reg = (inst % 8) as int;
    if size == 2 && dest_mode == 7 && src_mode == 7 && src_reg == 4 {
        if c.pc + 3 < m.len() {
            let imm = word_at(m, c.pc + 2) as u32;
            Step {
                cpu: CpuView { d: c.d.update(dest_reg, imm), pc: wrap32(c.pc + 4), ..c },
                mem: m,
                outcome: StepOutcome::Ran,
            }
        } else {
            fault(c, m)
        }
    } else if size == 2 && dest_mode == 1 && src_mode == 7 && src_reg == 4 {
        if c.pc + 3 < m.len() {
            let imm = word_at(m, c.pc + 2) as u32;
            Step {
                cpu: CpuView { a: c.a.update(dest_reg, imm), pc: wrap32(c.pc + 4), ..c },
                mem: m,
                outcome: StepOutcome::Ran,
            }
        } else {
            fault(c, m)
        }
    } else if size == 2 && dest_mode == 0 && src_mode == 2 {
        let address = c.a[src_reg];
        if address + 3 < m.len() {
            Step {
                cpu: CpuView {
                    d: c.d.update(dest_reg, long_at(m, address as int)),
                    pc: wrap32(c.pc + 2),
                    ..c
                },
                mem: m,
                outcome: StepOutcome::Ran,
            }
        } else {
            fault(c, m)
        }
    } else if size == 2 && dest_mode == 2 && src_mode == 0 {
        let address = c.a[dest_reg];
        if address + 3 < m.len() {
            Step {
                cpu: CpuView { pc: wrap32(c.pc + 2), ..c },
                mem: with_long(m, address as int, c.d[src_reg]),
                outcome: StepOutcome::Ran,
            }
        } else {
            fault(c, m)
        }
    } else if inst == 0x3200 {
        let v = c.d[0];
        Step {
            cpu: CpuView {
                d: c.d.update(1, v),
                ccr: flags_for(c.ccr, v),
                pc: wrap32(c.pc + 2),
                ..c
            },
            mem: m,
            outcome: StepOutcome::Ran,
        }
    } else {
        advance2(c, m)
    }
}

/// `ADDQ`/`SUBQ`: a three-bit immediate (0 standing for 8) added to or
/// subtracted from a data register, with flags.
pub open spec fn addq_subq_spec(c: CpuView, m: Seq<u8>, inst: u16) -> Step {
    let data = (inst / 0x200) % 8;
    let is_subq = (inst / 0x100) % 2 == 1;
    let reg = (inst % 8) as int;
    let immediate: int = if data == 0 {
        8
    } else {
        data as int
    };
    let result = if is_subq {
        wrap32(c.d[reg] - immediate)
    } else {
        wrap32(c.d[reg] + immediate)
    };
    Step {
        cpu: CpuView {
            d: c.d.update(reg, result),
            ccr: flags_for(c.ccr, result),
            pc: wrap32(c.pc + 2),
            ..c
        },
        mem: m,
        outcome: StepOutcome::Ran,
    }
}

/// `MOVEQ`: the low opcode byte sign-extended into a data register, with
/// flags.
pub open spec fn moveq_spec(c: CpuView, m: Seq<u8>, inst: u16) -> Step {
    let reg = ((inst / 0x200) % 8) as int;
    let low = inst % 0x100;
    let value: u32 = if low >= 0x80 {
        (low + 0xFFFF_FF00) as u32
    } else {
        low as u32
    };
    Step {
        cpu: CpuView {
            d: c.d.update(reg, value),
            ccr: flags_for(c.ccr, value),
            pc: wrap32(c.pc + 2),
            ..c
        },
        mem: m,
        outcome: StepOutcome::Ran,
    }
}

/// A branch: when the condition nibble holds, the sign-extended
/// displacement byte is added to the address of the following word.
pub open spec fn branch_spec(c: CpuView, m: Seq<u8>, inst: u16) -> Step {
    let condition = (inst / 0x100) % 16;
    let low = inst % 0x100;
    let disp: int = if low >= 0x80 {
        low - 0x100
    } else {
        low as int
    };
    let pc2 = if cond_holds(c.ccr, condition) {
        wrap32(c.pc + disp + 2)
    } else {
        wrap32(c.pc + 2)
    };
    Step { cpu: CpuView { pc: pc2, ..c }, mem: m, outcome: StepOutcome::Ran }
}

/// `SUB`/`CMP` on two data registers: both set flags from the
/// difference, `SUB` also stores it.
pub open spec fn sub_cmp_spec(c: CpuView, m: Seq<u8>, inst: u16) -> Step {
    let group = inst / 0x1000;
    let dest_reg = ((inst / 0x200) % 8) as int;
    let src_reg = (inst % 8) as int;
    let result = wrap32(c.d[dest_reg] - c.d[src_reg]);
    let d2 = if group == 0xB {
        c.d
    } else {
        c.d.update(dest_reg, result)
    };
    Step {
        cpu: CpuView { d: d2, ccr: flags_for(c.ccr, result), pc: wrap32(c.pc + 2), ..c },
        mem: m,
        outcome: StepOutcome::Ran,
    }
}

/// The `AND`/`MULS` group: only the two `MULS` forms act. Both multiply
/// the signed low 16 bits of their operands into a full 32-bit product;
/// the immediate form consumes an extension word.
pub open spec fn and_muls_spec(c: CpuView, m: Seq<u8>, inst: u16) -> Step {
    let dest_mode = (inst / 0x40) % 8;
    let src_mode = (inst / 8) % 8;
    let src_reg = (inst % 8) as int;
    let dest_reg = ((inst / 0x200) % 8) as int;
    if dest_mode == 7 && src_mode == 7 && src_reg == 4 {
        if c.pc + 3 < m.len() {
            let imm = word_at(m, c.pc + 2);
            let immv: int = if imm >= 0x8000 {
                imm - 0x1_0000
            } else {
                imm as int
            };
            let result = wrap32(sgn16_low(c.d[dest_reg]) * immv);
            Step {
                cpu: CpuView {
                    d: c.d.update(dest_reg, result),
                    ccr: flags_for(c.ccr, result),
                    pc: wrap32(c.pc + 4),
                    ..c
                },
                mem: m,
                outcome: StepOutcome::Ran,
            }
        } else {
            fault(c, m)
        }
    } else if dest_mode == 7 && src_mode == 0 {
        let result = wrap32(sgn16_low(c.d[src_reg]) * sgn16_low(c.d[dest_reg]));
        Step {
            cpu: CpuView {
                d: c.d.update(dest_reg, result),
                ccr: flags_for(c.ccr, result),
                pc: wrap32(c.pc + 2),
                ..c
            },
            mem: m,
            outcome: StepOutcome::Ran,
        }
    } else {
        advance2(c, m)
    }
}

/// `ADD` on two data registers: a wrapping 32-bit sum, stored and
/// flagged.
pub open spec fn add_spec(c: CpuView, m: Seq<u8>, inst: u16) -> Step {
    let dest_reg = ((inst / 0x200) % 8) as int;
    let src_reg = (inst % 8) as int;
    let result = wrap32(c.d[dest_reg] + c.d[src_reg]);
    Step {
        cpu: CpuView {
            d: c.d.update(dest_reg, result),
            ccr: flags_for(c.ccr, result),
            pc: wrap32(c.pc + 2),
            ..c
        },
        mem: m,
        outcome: StepOutcome::Ran,
    }
}

/// One full fetch-decode-execute cycle. A program counter at the edge of
/// memory is a fault with no state change; otherwise the fetched word's
/// top four bits select the handler.
#[verifier::opaque]
pub open spec fn step_spec(c: CpuView, m: Seq<u8>) -> Step {
    if !(c.pc + 1 < m.len()) {
        fault(c, m)
    } else {
        let inst = word_at(m, c.pc as int);
        let group = inst / 0x1000;
        if group == 0x0 || group == 0x4 {
            misc_spec(c, m, inst)
        } else if 0x1 <= group <= 0x3 {
            move_spec(c, m, inst)
        } else if group == 0x5 {
            addq_subq_spec(c, m, inst)
        } else if group == 0x6 {
            branch_spec(c, m, inst)
        } else if group == 0x7 {
            moveq_spec(c, m, inst)
        } else if group == 0x9 || group == 0xB {
            sub_cmp_spec(c, m, inst)
        } else if group == 0xC {
            and_muls_spec(c, m, inst)
        } else if group == 0xD {
            add_spec(c, m, inst)
        } else {
            advance2(c, m)
        }
    }
}

/// Up to `fuel` cycles: stop early at a halt or a fault, and report how
/// the last cycle ended (`Ran` when the budget was exhausted first).
pub open spec fn run_spec(c: CpuView, m: Seq<u8>, fuel: nat) -> Step
    decreases fuel,
{
    if fuel == 0 {
        Step { cpu: c, mem: m, outcome: StepOutcome::Ran }
    } else {
        let s = step_spec(c, m);
        if s.outcome != StepOutcome::Ran {
            s
        } else {
            run_spec(s.cpu, s.mem, (fuel - 1) as nat)
        }
    }
}

/// The processor: eight data registers, eight address registers, the
/// program counter, the condition codes, and the supervisor-mode state.
pub struct CPU {
    data_registers: [u32; 8],
    address_registers: [u32; 8],
    program_counter: u32,
    condition_code_register: u8,
    supervisor_stack_pointer: u32,
    vector_base_register: u32,
    status_register: u16,
}

impl View for CPU {
    type V = CpuView;

    closed spec fn view(&self) -> CpuView {
        CpuView {
            d: self.data_registers@,
            a: self.address_registers@,
            pc: self.program_counter,
            ccr: self.condition_code_register,
            ssp: self.supervisor_stack_pointer,
            vbr: self.vector_base_register,
            sr: self.status_register,
        }
    }
}

impl CPU {
    /// A fresh CPU with every register zero.
    pub fn new() -> (c: CPU)
        ensures
            c@.d =~= Seq::new(8, |i: int| 0u32),
            c@.a =~= Seq::new(8, |i: int| 0u32),
            c@.pc == 0,
            c@.ccr == 0,
            c@.ssp == 0,
            c@.vbr == 0,
            c@.sr == 0,
    {
        CPU {
            data_registers: [0; 8],
            address_registers: [0; 8],
            program_counter: 0,
            condition_code_register: 0,
            supervisor_stack_pointer: 0,
            vector_base_register: 0,
            status_register: 0,
        }
    }

    /// Zero the program counter and flags and put the status register
    /// into its fixed supervisor, interrupts-enabled value.
    pub fn reset(&mut self)
        ensures
            final(self)@ == (CpuView { pc: 0, ccr: 0, sr: 0x2700, ..old(self)@ }),
    {
        self.program_counter = 0;
        self.condition_code_register = 0;
        self.status_register = 0x2700;
    }

    pub fn get_pc(&self) -> (pc: u32)
        ensures
            pc == self@.pc,
    {
        self.program_counter
    }

    /// The value of data register `reg`, or 0 for an index past the file.
    pub fn get_data_register(&self, reg: usize) -> (v: u32)
        ensures
            v == if reg < 8 {
                self@.d[reg as int]
            } else {
                0u32
            },
    {
        if reg < 8 {
            self.data_registers[reg]
        } else {
            0
        }
    }

    /// The value of address register `reg`, or 0 for an index past the file.
    pub fn get_address_register(&self, reg: usize) -> (v: u32)
        ensures
            v == if reg < 8 {
                self@.a[reg as int]
            } else {
                0u32
            },
    {
        if reg < 8 {
            self.address_registers[reg]
        } else {
            0
        }
    }

    pub fn set_pc(&mut self, address: u32)
        ensures
            final(self)@ == (CpuView { pc: address, ..old(self)@ }),
    {
        self.program_counter = address;
    }

    pub fn get_ccr(&self) -> (ccr: u8)
        ensures
            ccr == self@.ccr,
    {
        self.condition_code_register
    }

    pub fn get_sr(&self) -> (sr: u16)
        ensures
            sr == self@.sr,
    {
        self.status_register
    }

    fn update_flags_for_result(&mut self, result: u32)
        ensures
            final(self)@ == (CpuView {
                ccr: flags_for(old(self)@.ccr, result),
                ..old(self)@
            }),
    {
        if result == 0 {
            self.condition_code_register = self.condition_code_register | 0x04;
        } else {
            self.condition_code_register = self.condition_code_register & 0xFB;
        }
        if result >= 0x8000_0000 {
            self.condition_code_register = self.condition_code_register | 0x08;
        } else {
            self.condition_code_register = self.condition_code_register & 0xF7;
        }
    }

    fn check_condition(&self, condition: u16) -> (r: bool)
        ensures
            r == cond_holds(self@.ccr, condition),
    {
        if condition == 0x0 {
            true
        } else if condition == 0x1 {
            false
        } else if condition == 0x2 {
            self.condition_code_register & 0x01 != 0
        } else if condition == 0x3 {
            self.condition_code_register & 0x01 == 0
        } else if condition == 0x4 {
            self.condition_code_register & 0x01 == 0
        } else if condition == 0x5 {
            self.condition_code_register & 0x01 != 0
        } else if condition == 0x6 {
            self.condition_code_register & 0x04 == 0
        } else if condition == 0x7 {
            self.condition_code_register & 0x04 != 0
        } else {
            false
        }
    }

    /// Perform one fetch-decode-execute cycle against `memory`, exactly
    /// as `step_spec` describes, and report how it ended.
    pub fn execute_instruction(&mut self, memory: &mut Memory) -> (outcome: StepOutcome)
        ensures
            final(self)@ == step_spec(old(self)@, old(memory)@).cpu,
            final(memory)@ == step_spec(old(self)@, old(memory)@).mem,
            outcome == step_spec(old(self)@, old(memory)@).outcome,
    {
        proof {
            use_type_invariant(&*memory);
            reveal(step_spec);
        }
        let pc = self.program_counter;
        if !(pc < (MEM_SIZE as u32) - 1) {
            return StepOutcome::AddressError;
        }
        let instruction = memory.read_word(pc);
        let group = instruction / 0x1000;
        if group == 0x0 || group == 0x4 {
            self.miscellaneous_instruction(instruction, memory)
        } else if 0x1 <= group && group <= 0x3 {
            self.move_instruction(instruction, memory)
        } else if group == 0x5 {
            self.addq_subq_instruction(instruction)
        } else if group == 0x6 {
            self.branch_instruction(instruction)
        } else if group == 0x7 {
            self.moveq_instruction(instruction)
        } else if group == 0x9 || group == 0xB {
            self.sub_cmp_instruction(instruction)
        } else if group == 0xC {
            self.and_instruction(instruction, memory)
        } else if group == 0xD {
            self.add_instruction(instruction)
        } else {
            self.unimplemented_instruction(instruction)
        }
    }

    /// Run up to `max_steps` cycles, stopping at a halt or fault, as
    /// `run_spec` describes.
    #[verifier::rlimit(50)]
    pub fn run(&mut self, memory: &mut Memory, max_steps: usize) -> (outcome: StepOutcome)
        ensures
            final(self)@ == run_spec(old(self)@, old(memory)@, max_steps as nat).cpu,
            final(memory)@ == run_spec(old(self)@, old(memory)@, max_steps as nat).mem,
            outcome == run_spec(old(self)@, old(memory)@, max_steps as nat).outcome,
    {
        let ghost target = run_spec(old(self)@, old(memory)@, max_steps as nat);
        let mut step: usize = 0;
        while step < max_steps
            invariant
                step <= max_steps,
                target == run_spec(old(self)@, old(memory)@, max_steps as nat),
                target == run_spec(self@, memory@, (max_steps - step) as nat),
            decreases max_steps - step,
        {
            let ghost c0 = self@;
            let ghost m0 = memory@;
            let ghost fuel = (max_steps - step) as nat;
            let outcome = self.execute_instruction(memory);
            proof {
                let s = step_spec(c0, m0);
                assert(run_spec(c0, m0, fuel) == if s.outcome != StepOutcome::Ran {
                    s
                } else {
                    run_spec(s.cpu, s.mem, (fuel - 1) as nat)
                });
            }
            if !matches!(outcome, StepOutcome::Ran) {
                return outcome;
            }
            step = step + 1;
        }
        StepOutcome::Ran
    }

    fn miscellaneous_instruction(&mut self, instruction: u16, memory: &mut Memory) -> (outcome:
        StepOutcome)
        requires
            old(self)@.pc + 1 < old(memory)@.len(),
            old(memory)@.len() == MEM_SIZE,
        ensures
            final(self)@ == misc_spec(old(self)@, old(memory)@, instruction).cpu,
            final(memory)@ == misc_spec(old(self)@, old(memory)@, instruction).mem,
            outcome == misc_spec(old(self)@, old(memory)@, instruction).outcome,
    {
        let pc = self.program_counter;
        if instruction / 8 == 0x190 {
            if !(pc < (MEM_SIZE as u32) - 3) {
                return StepOutcome::AddressError;
            }
            let reg = (instruction % 8) as usize;
            let immediate = memory.read_word(pc + 2) as u32;
            let result = wsub32(self.data_registers[reg], immediate);
            self.update_flags_for_result(result);
            self.program_counter = pc + 4;
            proof {
                crate::arith::lemma_wrap32_window(pc + 4);
            }
            StepOutcome::Ran
        } else if instruction == 0x4EF8 {
            if !(pc < (MEM_SIZE as u32) - 3) {
                return StepOutcome::AddressError;
            }
            let target = memory.read_word(pc + 2) as u32;
            self.program_counter = target;
            StepOutcome::Ran
        } else if instruction == 0x4E71 {
            self.program_counter = pc + 2;
            proof {
                crate::arith::lemma_wrap32_window(pc + 2);
            }
            StepOutcome::Ran
        } else if instruction == 0x4E72 {
            StepOutcome::Halted
        } else {
            self.program_counter = pc + 2;
            proof {
                crate::arith::lemma_wrap32_window(pc + 2);
            }
            StepOutcome::Ran
        }
    }

    fn move_instruction(&mut self, instruction: u16, memory: &mut Memory) -> (outcome: StepOutcome)
        requires
            old(self)@.pc + 1 < old(memory)@.len(),
            old(memory)@.len() == MEM_SIZE,
        ensures
            final(self)@ == move_spec(old(self)@, old(memory)@, instruction).cpu,
            final(memory)@ == move_spec(old(self)@, old(memory)@, instruction).mem,
            outcome == move_spec(old(self)@, old(memory)@, instruction).outcome,
    {
        let pc = self.program_counter;
        let size = instruction / 0x1000;
        let dest_reg = ((instruction / 0x200) % 8) as usize;
        let dest_mode = (instruction / 0x40) % 8;
        let src_mode = (instruction / 8) % 8;
        let src_reg = (instruction % 8) as usize;
        if size == 2 && dest_mode == 7 && src_mode == 7 && src_reg == 4 {
            if !(pc < (MEM_SIZE as u32) - 3) {
                return StepOutcome::AddressError;
            }
            let immediate = memory.read_word(pc + 2) as u32;
            self.data_registers[dest_reg] = immediate;
            self.program_counter = pc + 4;
            proof {
                crate::arith::lemma_wrap32_window(pc + 4);
            }
            StepOutcome::Ran
        } else if size == 2 && dest_mode == 1 && src_mode == 7 && src_reg == 4 {
            if !(pc < (MEM_SIZE as u32) - 3) {
                return StepOutcome::AddressError;
            }
            let immediate = memory.read_word(pc + 2) as u32;
            self.address_registers[dest_reg] = immediate;
            self.program_counter = pc + 4;
            proof {
                crate::arith::lemma_wrap32_window(pc + 4);
            }
            StepOutcome::Ran
        } else if size == 2 && dest_mode == 0 && src_mode == 2 {
            let address = self.address_registers[src_reg];
            if !(address < (MEM_SIZE as u32) - 3) {
                return StepOutcome::AddressError;
            }
            let value = memory.read_long(address);
            self.data_registers[dest_reg] = value;
            self.program_counter = pc + 2;
            proof {
                crate::arith::lemma_wrap32_window(pc + 2);
            }
            StepOutcome::Ran
        } else if size == 2 && dest_mode == 2 && src_mode == 0 {
            let address = self.address_registers[dest_reg];
            if !(address < (MEM_SIZE as u32) - 3) {
                return StepOutcome::AddressError;
            }
            let value = self.data_registers[src_reg];
            memory.write_long(address, value);
            self.program_counter = pc + 2;
            proof {
                crate::arith::lemma_wrap32_window(pc + 2);
            }
            StepOutcome::Ran
        } else if instruction == 0x3200 {
            let v = self.data_registers[0];
            self.data_registers[1] = v;
            self.update_flags_for_result(v);
            self.program_counter = pc + 2;
            proof {
                crate::arith::lemma_wrap32_window(pc + 2);
            }
            StepOutcome::Ran
        } else {
            self.program_counter = pc + 2;
            proof {
                crate::arith::lemma_wrap32_window(pc + 2);
            }
            StepOutcome::Ran
        }
    }

    fn addq_subq_instruction(&mut self, instruction: u16) -> (outcome: StepOutcome)
        requires
            old(self)@.pc + 1 < MEM_SIZE,
        ensures
            final(self)@ == addq_subq_spec(old(self)@, Seq::empty(), instruction).cpu,
            outcome == StepOutcome::Ran,
    {
        let pc = self.program_counter;
        let data = (instruction / 0x200) % 8;
        let is_subq = (instruction / 0x100) % 2 == 1;
        let reg = (instruction % 8) as usize;
        let immediate: u32 = if data == 0 {
            8
        } else {
            data as u32
        };
        let old_value = self.data_registers[reg];
        let new_value = if is_subq {
            wsub32(old_value, immediate)
        } else {
            wadd32(old_value, immediate)
        };
        self.data_registers[reg] = new_value;
        self.update_flags_for_result(new_value);
        self.program_counter = pc + 2;
        proof {
            crate::arith::lemma_wrap32_window(pc + 2);
        }
        StepOutcome::Ran
    }

    fn moveq_instruction(&mut self, instruction: u16) -> (outcome: StepOutcome)
        requires
            old(self)@.pc + 1 < MEM_SIZE,
        ensures
            final(self)@ == moveq_spec(old(self)@, Seq::empty(), instruction).cpu,
            outcome == StepOutcome::Ran,
    {
        let pc = self.program_counter;
        let register = ((instruction / 0x200) % 8) as usize;
        let low = instruction % 0x100;
        let value: u32 = if low >= 0x80 {
            low as u32 + 0xFFFF_FF00
        } else {
            low as u32
        };
        self.data_registers[register] = value;
        self.update_flags_for_result(value);
        self.program_counter = pc + 2;
        proof {
            crate::arith::lemma_wrap32_window(pc + 2);
        }
        StepOutcome::Ran
    }

    fn branch_instruction(&mut self, instruction: u16) -> (outcome: StepOutcome)
        requires
            old(self)@.pc + 1 < MEM_SIZE,
        ensures
            final(self)@ == branch_spec(old(self)@, Seq::empty(), instruction).cpu,
            outcome == StepOutcome::Ran,
    {
        let pc = self.program_counter;
        let condition = (instruction / 0x100) % 16;
        let low = instruction % 0x100;
        let displacement: i64 = if low >= 0x80 {
            (low as i64) - 0x100
        } else {
            low as i64
        };
        if self.check_condition(condition) {
            self.program_counter = wrap_to_u32((pc as i64) + displacement + 2);
        } else {
            self.program_counter = pc + 2;
            proof {
                crate::arith::lemma_wrap32_window(pc + 2);
            }
        }
        StepOutcome::Ran
    }

    fn unimplemented_instruction(&mut self, instruction: u16) -> (outcome: StepOutcome)
        requires
            old(self)@.pc + 1 < MEM_SIZE,
        ensures
            final(self)@ == advance2(old(self)@, Seq::empty()).cpu,
            outcome == StepOutcome::Ran,
    {
        let pc = self.program_counter;
        self.program_counter = pc + 2;
        proof {
            crate::arith::lemma_wrap32_window(pc + 2);
        }
        StepOutcome::Ran
    }

    fn sub_cmp_instruction(&mut self, instruction: u16) -> (outcome: StepOutcome)
        requires
            old(self)@.pc + 1 < MEM_SIZE,
        ensures
            final(self)@ == sub_cmp_spec(old(self)@, Seq::empty(), instruction).cpu,
            outcome == StepOutcome::Ran,
    {
        let pc = self.program_counter;
        let group = instruction / 0x1000;
        let dest_reg = ((instruction / 0x200) % 8) as usize;
        let source_reg = (instruction % 8) as usize;
        let result = wsub32(self.data_registers[dest_reg], self.data_registers[source_reg]);
        if group != 0xB {
            self.data_registers[dest_reg] = result;
        }
        self.update_flags_for_result(result);
        self.program_counter = pc + 2;
        proof {
            crate::arith::lemma_wrap32_window(pc + 2);
        }
        StepOutcome::Ran
    }

    fn and_instruction(&mut self, instruction: u16, memory: &mut Memory) -> (outcome: StepOutcome)
        requires
            old(self)@.pc + 1 < old(memory)@.len(),
            old(memory)@.len() == MEM_SIZE,
        ensures
            final(self)@ == and_muls_spec(old(self)@, old(memory)@, instruction).cpu,
            final(memory)@ == and_muls_spec(old(self)@, old(memory)@, instruction).mem,
            outcome == and_muls_spec(old(self)@, old(memory)@, instruction).outcome,
    {
        let pc = self.program_counter;
        let dest_mode = (instruction / 0x40) % 8;
        let src_mode = (instruction / 8) % 8;
        let src_reg = (instruction % 8) as usize;
        let dest_reg = ((instruction / 0x200) % 8) as usize;
        if dest_mode == 7 && src_mode == 7 && src_reg == 4 {
            if !(pc < (MEM_SIZE as u32) - 3) {
                return StepOutcome::AddressError;
            }
            let imm = memory.read_word(pc + 2);
            let immediate: i64 = if imm >= 0x8000 {
                (imm as i64) - 0x1_0000
            } else {
                imm as i64
            };
            let dest_value = signed16_low(self.data_registers[dest_reg]);
            proof {
                assert(-0x1_0000_0000 <= dest_value * immediate < 0x2_0000_0000) by (nonlinear_arith)
                    requires
                        -0x8000 <= dest_value <= 0x7FFF,
                        -0x8000 <= immediate <= 0x7FFF,
                ;
            }
            let result = wrap_to_u32(dest_value * immediate);
            self.data_registers[dest_reg] = result;
            self.update_flags_for_result(result);
            self.program_counter = pc + 4;
            proof {
                crate::arith::lemma_wrap32_window(pc + 4);
            }
            StepOutcome::Ran
        } else if dest_mode == 7 && src_mode == 0 {
            let source_value = signed16_low(self.data_registers[src_reg]);
            let dest_value = signed16_low(self.data_registers[dest_reg]);
            proof {
                assert(-0x1_0000_0000 <= source_value * dest_value < 0x2_0000_0000) by (nonlinear_arith)
                    requires
                        -0x8000 <= source_value <= 0x7FFF,
                        -0x8000 <= dest_value <= 0x7FFF,
                ;
            }
            let result = wrap_to_u32(source_value * dest_value);
            self.data_registers[dest_reg] = result;
            self.update_flags_for_result(result);
            self.program_counter = pc + 2;
            proof {
                crate::arith::lemma_wrap32_window(pc + 2);
            }
            StepOutcome::Ran
        } else {
            self.program_counter = pc + 2;
            proof {
                crate::arith::lemma_wrap32_window(pc + 2);
            }
            StepOutcome::Ran
        }
    }

    fn add_instruction(&mut self, instruction: u16) -> (outcome: StepOutcome)
        requires
            old(self)@.pc + 1 < MEM_SIZE,
        ensures
            final(self)@ == add_spec(old(self)@, Seq::empty(), instruction).cpu,
            outcome == StepOutcome::Ran,
    {
        let pc = self.program_counter;
        let dest_reg = ((instruction / 0x200) % 8) as usize;
        let source_reg = (instruction % 8) as usize;
        let result = wadd32(self.data_registers[dest_reg], self.data_registers[source_reg]);
        self.data_registers[dest_reg] = result;
        self.update_flags_for_result(result);
        self.program_counter = pc + 2;
        proof {
            crate::arith::lemma_wrap32_window(pc + 2);
        }
        StepOutcome::Ran
    }
}

} // verus!
