use vstd::prelude::*;

verus! {

/// Size of the address space, in bytes.
pub const MEMORY_SIZE: usize = 4096;

/// Number of return addresses the call stack can hold.
pub const STACK_SIZE: usize = 16;

/// Index of the flags register.
pub const FLAG: usize = 15;

/// A fatal condition that stops the interpreter.
#[derive(Debug, Clone, Copy, PartialEq, Eq, Structural)]
pub enum Fault {
    /// A call was made with a full stack.
    StackOverflow,
    /// A return was made with an empty stack.
    StackUnderflow,
    /// The opcode has no handler.
    Unimplemented(u16),
    /// The program counter does not address two bytes of memory.
    FetchOutOfRange(usize),
}

/// Interpreter state: registers, memory and call stack.
pub struct CPU {
    /// General-purpose registers; register 15 holds the flag.
    pub registers: [u8; 16],
    /// The address register `I`.
    pub index_register: u16,
    pub program_counter: usize,
    pub memory: [u8; 4096],
    /// Return addresses; the first `stack_pointer` entries are live.
    pub stack: [u16; 16],
    pub stack_pointer: usize,
}

/// The mathematical state of the interpreter.
pub struct CpuView {
    pub registers: Seq<u8>,
    pub index_register: u16,
    pub program_counter: int,
    pub memory: Seq<u8>,
    pub stack: Seq<u16>,
    pub stack_pointer: int,
}

impl View for CPU {
    type V = CpuView;

    open spec fn view(&self) -> CpuView {
        CpuView {
            registers: self.registers@,
            index_register: self.index_register,
            program_counter: self.program_counter as int,
            memory: self.memory@,
            stack: self.stack@,
            stack_pointer: self.stack_pointer as int,
        }
    }
}

/// Instruction family: bits 15 to 12.
pub open spec fn op_group(op: u16) -> int {
    op as int / 0x1000
}

/// First register operand: bits 11 to 8.
pub open spec fn op_x(op: u16) -> int {
    (op as int / 0x100) % 0x10
}

/// Second register operand: bits 7 to 4.
pub open spec fn op_y(op: u16) -> int {
    (op as int / 0x10) % 0x10
}

/// Sub-opcode: bits 3 to 0.
pub open spec fn op_d(op: u16) -> int {
    op as int % 0x10
}

/// Immediate byte: bits 7 to 0.
pub open spec fn op_nn(op: u16) -> u8 {
    (op as int % 0x100) as u8
}

/// Address: bits 11 to 0.
pub open spec fn op_nnn(op: u16) -> u16 {
    (op as int % 0x1000) as u16
}

/// Whether the opcode has a handler.
pub open spec fn is_implemented(op: u16) -> bool {
    let g = op_group(op);
    let d = op_d(op);
    ||| op == 0x0000
    ||| op == 0x00EE
    ||| 1 <= g <= 4
    ||| g == 6 || g == 7
    ||| (g == 5 || g == 9) && d == 0
    ||| g == 8 && (d <= 7 || d == 0xE)
    ||| 0xA <= g <= 0xC
}

/// The fatal condition, if any, that executing `op` in state `s` raises.
pub open spec fn fault_of(s: CpuView, op: u16) -> Option<Fault> {
    if !is_implemented(op) {
        Some(Fault::Unimplemented(op))
    } else if op == 0x00EE && s.stack_pointer == 0 {
        Some(Fault::StackUnderflow)
    } else if op_group(op) == 2 && s.stack_pointer >= STACK_SIZE {
        Some(Fault::StackOverflow)
    } else {
        None
    }
}

/// The registers after the arithmetic and logic opcode `8xyd`.
pub open spec fn alu_spec(r: Seq<u8>, x: int, y: int, d: int) -> Seq<u8> {
    let vx = r[x] as int;
    let vy = r[y] as int;
    if d == 0 {
        r.update(x, r[y])
    } else if d == 1 {
        r.update(x, r[x] | r[y])
    } else if d == 2 {
        r.update(x, r[x] & r[y])
    } else if d == 3 {
        r.update(x, r[x] ^ r[y])
    } else if d == 4 {
        r.update(x, ((vx + vy) % 256) as u8).update(15, if vx + vy > 255 { 1u8 } else { 0u8 })
    } else if d == 5 {
        r.update(x, ((vx - vy + 256) % 256) as u8).update(15, if vx < vy { 1u8 } else { 0u8 })
    } else if d == 6 {
        r.update(x, (vy / 2) as u8).update(15, (vy % 2) as u8)
    } else if d == 7 {
        r.update(15, if vy < vx { 0u8 } else { 1u8 }).update(x, ((vy - vx + 256) % 256) as u8)
    } else {
        r.update(x, ((vy * 2) % 256) as u8).update(15, (vy / 128) as u8)
    }
}

/// The state after executing an implemented opcode `op` that raises no fault,
/// where `rnd` is the random byte that `Cxnn` draws.
pub open spec fn execute_spec(s: CpuView, op: u16, rnd: u8) -> CpuView {
    let g = op_group(op);
    let x = op_x(op);
    let y = op_y(op);
    let nn = op_nn(op);
    let nnn = op_nnn(op);
    let next = CpuView { program_counter: s.program_counter + 2, ..s };
    let skip = CpuView { program_counter: s.program_counter + 4, ..s };
    if op == 0x00EE {
        CpuView {
            program_counter: s.stack[s.stack_pointer - 1] as int,
            stack_pointer: s.stack_pointer - 1,
            ..s
        }
    } else if g == 1 {
        CpuView { program_counter: nnn as int, ..s }
    } else if g == 2 {
        CpuView {
            stack: s.stack.update(s.stack_pointer, (s.program_counter + 2) as u16),
            stack_pointer: s.stack_pointer + 1,
            program_counter: nnn as int,
            ..s
        }
    } else if g == 3 {
        if s.registers[x] == nn { skip } else { next }
    } else if g == 4 {
        if s.registers[x] != nn { skip } else { next }
    } else if g == 5 {
        if s.registers[x] == s.registers[y] { skip } else { next }
    } else if g == 6 {
        CpuView { registers: s.registers.update(x, nn), ..next }
    } else if g == 7 {
        CpuView { registers: s.registers.update(x, ((s.registers[x] + nn) % 256) as u8), ..next }
    } else if g == 8 {
        CpuView { registers: alu_spec(s.registers, x, y, op_d(op)), ..next }
    } else if g == 9 {
        if s.registers[x] != s.registers[y] { skip } else { next }
    } else if g == 0xA {
        CpuView { index_register: nnn, ..next }
    } else if g == 0xB {
        CpuView { program_counter: s.registers[0] + nnn, ..s }
    } else if g == 0xC {
        CpuView { registers: s.registers.update(x, rnd & nn), ..next }
    } else {
        next
    }
}

/// The opcode stored big-endian at `pc`, if both of its bytes lie in memory.
pub open spec fn fetch_spec(s: CpuView, pc: int) -> Option<u16> {
    if 0 <= pc && pc + 1 < MEMORY_SIZE {
        Some((s.memory[pc] * 256 + s.memory[pc + 1]) as u16)
    } else {
        None
    }
}

/// One fetch-execute cycle from `s`, with `rnd` as the random byte: the next
/// state, and the opcode executed or the fault raised.
pub open spec fn step_spec(s: CpuView, rnd: u8) -> (CpuView, Result<u16, Fault>) {
    match fetch_spec(s, s.program_counter) {
        None => (s, Err(Fault::FetchOutOfRange(s.program_counter as usize))),
        Some(op) => match fault_of(s, op) {
            Some(f) => (CpuView { program_counter: s.program_counter + 2, ..s }, Err(f)),
            None => (execute_spec(s, op, rnd), Ok(op)),
        },
    }
}

/// At most `n` cycles from `s`, the `k`-th drawing `rnds[k]` as its random
/// byte, stopping after the halt opcode `0000` (`Ok(true)`), on a fault, or
/// when the budget is spent (`Ok(false)`).
pub open spec fn run_spec(s: CpuView, n: nat, rnds: Seq<u8>) -> (CpuView, Result<bool, Fault>)
    decreases n,
{
    if n == 0 {
        (s, Ok(false))
    } else {
        let (t, r) = step_spec(s, rnds[0]);
        match r {
            Err(f) => (t, Err(f)),
            Ok(op) => if op == 0 {
                (t, Ok(true))
            } else {
                run_spec(t, (n - 1) as nat, rnds.drop_first())
            },
        }
    }
}

proof fn lemma_fields(op: u16)
    ensures
        op >> 12u16 == op / 0x1000,
        (op & 0x0F00) >> 8u16 == (op / 0x100) % 0x10,
        (op & 0x00F0) >> 4u16 == (op / 0x10) % 0x10,
        op & 0x000F == op % 0x10,
        op & 0x00FF == op % 0x100,
        op & 0x0FFF == op % 0x1000,
{
    assert(op >> 12u16 == op / 0x1000) by (bit_vector);
    assert((op & 0x0F00) >> 8u16 == (op / 0x100) % 0x10) by (bit_vector);
    assert((op & 0x00F0) >> 4u16 == (op / 0x10) % 0x10) by (bit_vector);
    assert(op & 0x000F == op % 0x10) by (bit_vector);
    assert(op & 0x00FF == op % 0x100) by (bit_vector);
    assert(op & 0x0FFF == op % 0x1000) by (bit_vector);
}

/// Relies on rand::random: a byte from the thread-local generator, of which
/// nothing is known.
#[verifier::external_body]
fn random_byte() -> (r: u8) {
    rand::random::<u8>()
}

impl CPU {
    /// The stack pointer never exceeds the stack's capacity.
    pub open spec fn wf(&self) -> bool {
        self.stack_pointer <= STACK_SIZE
    }

    /// A machine with every register, memory cell and stack entry at zero.
    pub fn new() -> (c: CPU)
        ensures
            c.wf(),
            forall|i: int| 0 <= i < 16 ==> c.registers[i] == 0,
            forall|i: int| 0 <= i < MEMORY_SIZE ==> c.memory[i] == 0,
            forall|i: int| 0 <= i < STACK_SIZE ==> c.stack[i] == 0,
            c.index_register == 0,
            c.program_counter == 0,
            c.stack_pointer == 0,
    {
        CPU {
            registers: [0u8; 16],
            index_register: 0,
            program_counter: 0,
            memory: [0u8; 4096],
            stack: [0u16; 16],
            stack_pointer: 0,
        }
    }

    /// Reads the big-endian opcode at the program counter.
    pub fn read_operation(&self) -> (r: Result<u16, Fault>)
        ensures
            r == (match fetch_spec(self@, self.program_counter as int) {
                Some(op) => Ok(op),
                None => Err(Fault::FetchOutOfRange(self.program_counter)),
            }),
    {
        let p = self.program_counter;
        if p >= MEMORY_SIZE - 1 {
            return Err(Fault::FetchOutOfRange(p));
        }
        let op_byte1 = self.memory[p] as u16;
        let op_byte2 = self.memory[p + 1] as u16;
        Ok(op_byte1 * 256 + op_byte2)
    }

    /// Decodes and executes `opcode`, with `rnd` as the random byte of `Cxnn`.
    /// The program counter is first advanced past the instruction; a fault
    /// leaves the rest of the state as it was.
    pub fn execute(&mut self, opcode: u16, rnd: u8) -> (r: Result<(), Fault>)
        requires
            old(self).wf(),
            old(self).program_counter < MEMORY_SIZE,
        ensures
            final(self).wf(),
            r == (match fault_of(old(self)@, opcode) {
                Some(f) => Err(f),
                None => Ok(()),
            }),
            fault_of(old(self)@, opcode) is None ==> final(self)@ == execute_spec(
                old(self)@,
                opcode,
                rnd,
            ),
            fault_of(old(self)@, opcode) is Some ==> final(self)@ == (CpuView {
                program_counter: old(self)@.program_counter + 2,
                ..old(self)@
            }),
    {
        self.program_counter += 2;
        proof {
            lemma_fields(opcode);
        }
        let c = (opcode >> 12) as u8;
        let x = ((opcode & 0x0F00) >> 8) as u8;
        let y = ((opcode & 0x00F0) >> 4) as u8;
        let d = (opcode & 0x000F) as u8;
        let nn = (opcode & 0x00FF) as u8;
        let nnn = opcode & 0x0FFF;

        match (c, x, y, d) {
            (0, 0, 0, 0) => Ok(()),
            (0, 0, 0xE, 0xE) => self.ret(),
            (0x1, _, _, _) => {
                self.jump(nnn);
                Ok(())
            },
            (0x2, _, _, _) => self.call(nnn),
            (0x3, _, _, _) => {
                self.op_3xnn(x, nn);
                Ok(())
            },
            (0x4, _, _, _) => {
                self.op_4xnn(x, nn);
                Ok(())
            },
            (0x5, _, _, 0x0) => {
                self.op_5xy0(x, y);
                Ok(())
            },
            (0x6, _, _, _) => {
                self.op_6xnn(x, nn);
                Ok(())
            },
            (0x7, _, _, _) => {
                self.op_7xnn(x, nn);
                Ok(())
            },
            (0x8, _, _, 0x0) => {
                self.op_8xy0(x, y);
                Ok(())
            },
            (0x8, _, _, 0x1) => {
                self.op_8xy1(x, y);
                Ok(())
            },
            (0x8, _, _, 0x2) => {
                self.op_8xy2(x, y);
                Ok(())
            },
            (0x8, _, _, 0x3) => {
                self.op_8xy3(x, y);
                Ok(())
            },
            (0x8, _, _, 0x4) => {
                self.op_8xy4(x, y);
                Ok(())
            },
            (0x8, _, _, 0x5) => {
                self.op_8xy5(x, y);
                Ok(())
            },
            (0x8, _, _, 0x6) => {
                self.op_8xy6(x, y);
                Ok(())
            },
            (0x8, _, _, 0x7) => {
                self.op_8xy7(x, y);
                Ok(())
            },
            (0x8, _, _, 0xE) => {
                self.op_8xye(x, y);
                Ok(())
            },
            (0x9, _, _, 0x0) => {
                self.op_9xy0(x, y);
                Ok(())
            },
            (0xA, _, _, _) => {
                self.op_annn(nnn);
                Ok(())
            },
            (0xB, _, _, _) => {
                self.op_bnnn(nnn);
                Ok(())
            },
            (0xC, _, _, _) => {
                self.op_cxnn(x, nn, rnd);
                Ok(())
            },
            _ => Err(Fault::Unimplemented(opcode)),
        }
    }

    /// Executes `opcode`, drawing a random byte for `Cxnn`.
    pub fn run_operation(&mut self, opcode: u16) -> (r: Result<(), Fault>)
        requires
            old(self).wf(),
            old(self).program_counter < MEMORY_SIZE,
        ensures
            final(self).wf(),
            r == (match fault_of(old(self)@, opcode) {
                Some(f) => Err(f),
                None => Ok(()),
            }),
            fault_of(old(self)@, opcode) is None ==> exists|rnd: u8|
                final(self)@ == #[trigger] execute_spec(old(self)@, opcode, rnd),
            fault_of(old(self)@, opcode) is Some ==> final(self)@ == (CpuView {
                program_counter: old(self)@.program_counter + 2,
                ..old(self)@
            }),
    {
        let rnd: u8 = if opcode >> 12 == 0xC {
            random_byte()
        } else {
            0
        };
        let r = self.execute(opcode, rnd);
        assert(fault_of(old(self)@, opcode) is None ==> self@ == execute_spec(
            old(self)@,
            opcode,
            rnd,
        ));
        r
    }

    /// Fetches the opcode at the program counter and executes it; returns the
    /// opcode executed.
    pub fn step(&mut self) -> (r: Result<u16, Fault>)
        requires
            old(self).wf(),
        ensures
            final(self).wf(),
            exists|rnd: u8| #[trigger] step_spec(old(self)@, rnd) == (final(self)@, r),
    {
        let opcode = match self.read_operation() {
            Ok(op) => op,
            Err(f) => {
                assert(step_spec(old(self)@, 0) == (self@, Err::<u16, Fault>(f)));
                return Err(f);
            },
        };
        let ghost before = self@;
        let res = self.run_operation(opcode);
        let r = match res {
            Ok(()) => Ok(opcode),
            Err(f) => Err(f),
        };
        proof {
            if fault_of(before, opcode) is None {
                let rnd = choose|rnd: u8| self@ == #[trigger] execute_spec(before, opcode, rnd);
                assert(step_spec(before, rnd) == (self@, r));
            } else {
                assert(step_spec(before, 0) == (self@, r));
            }
        }
        r
    }

    /// Runs at most `max_steps` cycles. Returns `Ok(true)` after executing the
    /// halt opcode `0000`, `Ok(false)` when the budget is spent, and the fault
    /// that stopped it otherwise.
    pub fn run(&mut self, max_steps: usize) -> (r: Result<bool, Fault>)
        requires
            old(self).wf(),
        ensures
            final(self).wf(),
            exists|rnds: Seq<u8>|
                #[trigger] run_spec(old(self)@, max_steps as nat, rnds) == (final(self)@, r),
    {
        let ghost start = self@;
        let ghost mut used: Seq<u8> = Seq::empty();
        let mut i: usize = 0;
        while i < max_steps
            invariant
                self.wf(),
                i <= max_steps,
                start == old(self)@,
                forall|tail: Seq<u8>|
                    #[trigger] run_spec(start, max_steps as nat, used + tail) == run_spec(
                        self@,
                        (max_steps - i) as nat,
                        tail,
                    ),
            decreases max_steps - i,
        {
            let ghost before = self@;
            let res = self.step();
            let ghost rnd = choose|rnd: u8| #[trigger] step_spec(before, rnd) == (self@, res);
            proof {
                assert forall|tail: Seq<u8>|
                    #[trigger] run_spec(start, max_steps as nat, used.push(rnd) + tail)
                        == run_spec(before, (max_steps - i) as nat, seq![rnd] + tail) by {
                    assert(used.push(rnd) + tail =~= used + (seq![rnd] + tail));
                }
                assert forall|tail: Seq<u8>|
                    #[trigger] (seq![rnd] + tail).drop_first() == tail && (seq![rnd]
                        + tail)[0] == rnd by {
                    assert((seq![rnd] + tail).drop_first() =~= tail);
                }
                used = used.push(rnd);
            }
            match res {
                Err(f) => {
                    assert(run_spec(old(self)@, max_steps as nat, used + Seq::empty()) == (self@, Err::<bool, Fault>(f)));
                    return Err(f);
                },
                Ok(op) => {
                    if op == 0 {
                        assert(run_spec(old(self)@, max_steps as nat, used + Seq::empty()) == (self@, Ok::<bool, Fault>(true)));
                        return Ok(true);
                    }
                },
            }
            i += 1;
        }
        assert(run_spec(old(self)@, max_steps as nat, used + Seq::empty()) == (self@, Ok::<bool, Fault>(false)));
        Ok(false)
    }

    /// Pushes the program counter and jumps to `addr`; fails on a full stack.
    fn call(&mut self, addr: u16) -> (r: Result<(), Fault>)
        requires
            old(self).wf(),
            old(self).program_counter < 0x10000,
        ensures
            final(self).wf(),
            old(self).stack_pointer == STACK_SIZE ==> r == Err::<(), Fault>(Fault::StackOverflow)
                && final(self)@ == old(self)@,
            old(self).stack_pointer < STACK_SIZE ==> r == Ok::<(), Fault>(()) && final(self)@ == (
            CpuView {
                stack: old(self)@.stack.update(
                    old(self)@.stack_pointer,
                    old(self).program_counter as u16,
                ),
                stack_pointer: old(self)@.stack_pointer + 1,
                program_counter: addr as int,
                ..old(self)@
            }),
    {
        let sp = self.stack_pointer;
        if sp >= STACK_SIZE {
            return Err(Fault::StackOverflow);
        }
        self.stack[sp] = self.program_counter as u16;
        self.stack_pointer += 1;
        self.program_counter = addr as usize;
        Ok(())
    }

    /// Pops the program counter; fails on an empty stack.
    fn ret(&mut self) -> (r: Result<(), Fault>)
        requires
            old(self).wf(),
        ensures
            final(self).wf(),
            old(self).stack_pointer == 0 ==> r == Err::<(), Fault>(Fault::StackUnderflow)
                && final(self)@ == old(self)@,
            old(self).stack_pointer > 0 ==> r == Ok::<(), Fault>(()) && final(self)@ == (CpuView {
                program_counter: old(self)@.stack[old(self)@.stack_pointer - 1] as int,
                stack_pointer: old(self)@.stack_pointer - 1,
                ..old(self)@
            }),
    {
        if self.stack_pointer == 0 {
            return Err(Fault::StackUnderflow);
        }
        self.stack_pointer -= 1;
        self.program_counter = self.stack[self.stack_pointer] as usize;
        Ok(())
    }

    /// Sets the program counter to `addr`.
    fn jump(&mut self, addr: u16)
        ensures
            final(self)@ == (CpuView { program_counter: addr as int, ..old(self)@ }),
    {
        self.program_counter = addr as usize;
    }

    /// Skips the next instruction if register `x` equals `nn`.
    fn op_3xnn(&mut self, x: u8, nn: u8)
        requires
            x < 16,
            old(self).program_counter < 0x10000,
        ensures
            final(self)@ == (CpuView {
                program_counter: old(self)@.program_counter + if old(self).registers[x as int]
                    == nn {
                    2int
                } else {
                    0int
                },
                ..old(self)@
            }),
    {
        let value = self.registers[x as usize];
        if value == nn {
            self.program_counter += 2;
        }
    }

    /// Skips the next instruction if register `x` differs from `nn`.
    fn op_4xnn(&mut self, x: u8, nn: u8)
        requires
            x < 16,
            old(self).program_counter < 0x10000,
        ensures
            final(self)@ == (CpuView {
                program_counter: old(self)@.program_counter + if old(self).registers[x as int]
                    != nn {
                    2int
                } else {
                    0int
                },
                ..old(self)@
            }),
    {
        let value = self.registers[x as usize];
        if value != nn {
            self.program_counter += 2;
        }
    }

    /// Skips the next instruction if registers `x` and `y` are equal.
    fn op_5xy0(&mut self, x: u8, y: u8)
        requires
            x < 16,
            y < 16,
            old(self).program_counter < 0x10000,
        ensures
            final(self)@ == (CpuView {
                program_counter: old(self)@.program_counter + if old(self).registers[x as int]
                    == old(self).registers[y as int] {
                    2int
                } else {
                    0int
                },
                ..old(self)@
            }),
    {
        let vx = self.registers[x as usize];
        let vy = self.registers[y as usize];
        if vx == vy {
            self.program_counter += 2;
        }
    }

    /// Stores `nn` in register `x`.
    fn op_6xnn(&mut self, x: u8, nn: u8)
        requires
            x < 16,
        ensures
            final(self)@ == (CpuView {
                registers: old(self)@.registers.update(x as int, nn),
                ..old(self)@
            }),
    {
        self.registers[x as usize] = nn;
    }

    /// Adds `nn` to register `x`, wrapping, without touching the flag.
    fn op_7xnn(&mut self, x: u8, nn: u8)
        requires
            x < 16,
        ensures
            final(self)@ == (CpuView {
                registers: old(self)@.registers.update(
                    x as int,
                    ((old(self).registers[x as int] + nn) % 256) as u8,
                ),
                ..old(self)@
            }),
    {
        let vx = self.registers[x as usize];
        self.registers[x as usize] = ((vx as u16 + nn as u16) % 256) as u8;
    }

    /// Copies register `y` into register `x`.
    fn op_8xy0(&mut self, x: u8, y: u8)
        requires
            x < 16,
            y < 16,
        ensures
            final(self)@ == (CpuView {
                registers: alu_spec(old(self)@.registers, x as int, y as int, 0),
                ..old(self)@
            }),
    {
        self.registers[x as usize] = self.registers[y as usize];
    }

    /// Sets register `x` to `x | y`.
    fn op_8xy1(&mut self, x: u8, y: u8)
        requires
            x < 16,
            y < 16,
        ensures
            final(self)@ == (CpuView {
                registers: alu_spec(old(self)@.registers, x as int, y as int, 1),
                ..old(self)@
            }),
    {
        self.registers[x as usize] = self.registers[x as usize] | self.registers[y as usize];
    }

    /// Sets register `x` to `x & y`.
    fn op_8xy2(&mut self, x: u8, y: u8)
        requires
            x < 16,
            y < 16,
        ensures
            final(self)@ == (CpuView {
                registers: alu_spec(old(self)@.registers, x as int, y as int, 2),
                ..old(self)@
            }),
    {
        self.registers[x as usize] = self.registers[x as usize] & self.registers[y as usize];
    }

    /// Sets register `x` to `x ^ y`.
    fn op_8xy3(&mut self, x: u8, y: u8)
        requires
            x < 16,
            y < 16,
        ensures
            final(self)@ == (CpuView {
                registers: alu_spec(old(self)@.registers, x as int, y as int, 3),
                ..old(self)@
            }),
    {
        self.registers[x as usize] = self.registers[x as usize] ^ self.registers[y as usize];
    }

    /// Adds register `y` to register `x`, wrapping; the flag is 1 on carry.
    fn op_8xy4(&mut self, x: u8, y: u8)
        requires
            x < 16,
            y < 16,
        ensures
            final(self)@ == (CpuView {
                registers: alu_spec(old(self)@.registers, x as int, y as int, 4),
                ..old(self)@
            }),
    {
        let arg1 = self.registers[x as usize] as u16;
        let arg2 = self.registers[y as usize] as u16;
        let sum = arg1 + arg2;
        self.registers[x as usize] = (sum % 256) as u8;
        self.registers[FLAG] = if sum > 255 {
            1
        } else {
            0
        };
    }

    /// Subtracts register `y` from register `x`, wrapping; the flag is 1 on borrow.
    fn op_8xy5(&mut self, x: u8, y: u8)
        requires
            x < 16,
            y < 16,
        ensures
            final(self)@ == (CpuView {
                registers: alu_spec(old(self)@.registers, x as int, y as int, 5),
                ..old(self)@
            }),
    {
        let arg1 = self.registers[x as usize];
        let arg2 = self.registers[y as usize];
        self.registers[x as usize] = ((arg1 as u16 + 256 - arg2 as u16) % 256) as u8;
        self.registers[FLAG] = if arg1 < arg2 {
            1
        } else {
            0
        };
    }

    /// Stores register `y` shifted right by one in register `x`; the flag
    /// receives the bit shifted out.
    fn op_8xy6(&mut self, x: u8, y: u8)
        requires
            x < 16,
            y < 16,
        ensures
            final(self)@ == (CpuView {
                registers: alu_spec(old(self)@.registers, x as int, y as int, 6),
                ..old(self)@
            }),
    {
        let arg2 = self.registers[y as usize];
        self.registers[x as usize] = arg2 / 2;
        self.registers[FLAG] = arg2 % 2;
    }

    /// Sets register `x` to register `y` minus register `x`, wrapping; the
    /// flag is 0 on borrow and 1 otherwise.
    fn op_8xy7(&mut self, x: u8, y: u8)
        requires
            x < 16,
            y < 16,
        ensures
            final(self)@ == (CpuView {
                registers: alu_spec(old(self)@.registers, x as int, y as int, 7),
                ..old(self)@
            }),
    {
        let arg1 = self.registers[x as usize];
        let arg2 = self.registers[y as usize];
        self.registers[FLAG] = if arg2 < arg1 {
            0
        } else {
            1
        };
        self.registers[x as usize] = ((arg2 as u16 + 256 - arg1 as u16) % 256) as u8;
    }

    /// Stores register `y` shifted left by one in register `x`, wrapping; the
    /// flag receives the bit shifted out.
    fn op_8xye(&mut self, x: u8, y: u8)
        requires
            x < 16,
            y < 16,
        ensures
            final(self)@ == (CpuView {
                registers: alu_spec(old(self)@.registers, x as int, y as int, 0xE),
                ..old(self)@
            }),
    {
        let arg2 = self.registers[y as usize];
        self.registers[x as usize] = ((arg2 as u16 * 2) % 256) as u8;
        self.registers[FLAG] = arg2 / 128;
    }

    /// Skips the next instruction if registers `x` and `y` differ.
    fn op_9xy0(&mut self, x: u8, y: u8)
        requires
            x < 16,
            y < 16,
            old(self).program_counter < 0x10000,
        ensures
            final(self)@ == (CpuView {
                program_counter: old(self)@.program_counter + if old(self).registers[x as int]
                    != old(self).registers[y as int] {
                    2int
                } else {
                    0int
                },
                ..old(self)@
            }),
    {
        let vx = self.registers[x as usize];
        let vy = self.registers[y as usize];
        if vx != vy {
            self.program_counter += 2;
        }
    }

    /// Stores `nnn` in the index register.
    fn op_annn(&mut self, nnn: u16)
        ensures
            final(self)@ == (CpuView { index_register: nnn, ..old(self)@ }),
    {
        self.index_register = nnn;
    }

    /// Jumps to register 0 plus `nnn`.
    fn op_bnnn(&mut self, nnn: u16)
        ensures
            final(self)@ == (CpuView {
                program_counter: old(self).registers[0] + nnn,
                ..old(self)@
            }),
    {
        let v0 = self.registers[0];
        self.program_counter = v0 as usize + nnn as usize;
    }

    /// Stores `rnd & nn` in register `x`.
    fn op_cxnn(&mut self, x: u8, nn: u8, rnd: u8)
        requires
            x < 16,
        ensures
            final(self)@ == (CpuView {
                registers: old(self)@.registers.update(x as int, rnd & nn),
                ..old(self)@
            }),
    {
        self.registers[x as usize] = rnd & nn;
    }
}

} // verus!
