use vstd::prelude::*;
use crate::isa::{
    check_register_range, decode_opcode, decode_spec, field_nn, field_x, field_y, operands_ok,
    Instruction, RegisterId, REGISTER_COUNT,
};

verus! {

/// Settings of a machine.
pub struct Configuration {
    pub cycles_per_second: u128,
    pub initial_pc: u16,
    pub memory_size: u16,
    /// Path of the firmware image; empty for the built-in program.
    pub firmware_file: String,
    pub verbose: bool,
}

impl Configuration {
    pub fn default() -> (r: Self)
        ensures
            r.cycles_per_second == 32,
            r.initial_pc == 0,
            r.memory_size == 0x4000,
            r.firmware_file@.len() == 0,
            !r.verbose,
    {
        Configuration {
            cycles_per_second: 32,
            initial_pc: 0,
            memory_size: 0x4000,
            firmware_file: String::new(),
            verbose: false,
        }
    }

    /// Nanoseconds between two steps.
    pub fn period_ns(&self) -> (r: u128)
        requires
            self.cycles_per_second > 0,
        ensures
            r == 1_000_000_000u128 / self.cycles_per_second,
    {
        1_000_000_000 / self.cycles_per_second
    }
}

/// The program that a machine loads at reset.
pub struct Firmware {
    data: Vec<u8>,
    size: u16,
}

/// The built-in program: `0xDEAD` into `r0` and into `r1`, the address of
/// a `nop` into `r2`, then the `nop` and a jump back to it.
pub open spec fn default_firmware() -> Seq<u8> {
    seq![
        0xDEu8, 0x40, 0x81, 0x70, 0xAD, 0x40,
        0xDE, 0x41, 0x81, 0x71, 0xAD, 0x41,
        0x00, 0x42, 0x81, 0x72, 0x12, 0x42,
        0x00, 0x00,
        0x00, 0x62,
    ]
}

impl Firmware {
    pub closed spec fn contents(&self) -> Seq<u8> {
        self.data@
    }

    pub closed spec fn wf(&self) -> bool {
        self.data@.len() == self.size as nat
    }

    pub fn from_bytes(bytes: Vec<u8>) -> (r: Self)
        requires
            bytes@.len() <= 0xFFFF,
        ensures
            r.wf(),
            r.contents() == bytes@,
    {
        let size: u16 = bytes.len() as u16;
        Firmware { data: bytes, size }
    }

    pub fn default() -> (r: Self)
        ensures
            r.wf(),
            r.contents() == default_firmware(),
    {
        let data: Vec<u8> = vec![
            0xDE, 0x40, 0x81, 0x70, 0xAD, 0x40,
            0xDE, 0x41, 0x81, 0x71, 0xAD, 0x41,
            0x00, 0x42, 0x81, 0x72, 0x12, 0x42,
            0x00, 0x00,
            0x00, 0x62,
        ];
        assert(data@ =~= default_firmware());
        Firmware { data, size: 22 }
    }

    pub fn size(&self) -> (r: u16)
        requires
            self.wf(),
        ensures
            r == self.contents().len(),
    {
        self.size
    }
}

/// A byte-addressable memory of fixed size.
pub struct Memory {
    data: Vec<u8>,
    size: u16,
}

impl Memory {
    pub closed spec fn contents(&self) -> Seq<u8> {
        self.data@
    }

    pub closed spec fn wf(&self) -> bool {
        self.data@.len() == self.size as nat && self.size > 0
    }

    /// A zeroed memory of `alloc_size` bytes.
    pub fn new(alloc_size: u16) -> (r: Self)
        requires
            alloc_size > 0,
        ensures
            r.wf(),
            r.contents() == Seq::new(alloc_size as nat, |i: int| 0u8),
    {
        let mut data: Vec<u8> = Vec::new();
        let mut i: u16 = 0;
        while i < alloc_size
            invariant
                i <= alloc_size,
                data@ == Seq::new(i as nat, |k: int| 0u8),
            decreases alloc_size - i,
        {
            data.push(0);
            i = i + 1;
            assert(data@ =~= Seq::new(i as nat, |k: int| 0u8));
        }
        Memory { data, size: alloc_size }
    }
}

/// The register file: `R0..R7`, `SP`, `C0`, `C1` by index, the flag word and
/// the program counter.
pub struct Registers {
    file: Vec<u16>,
    fg: u16,
    pc: u16,
}

impl Registers {
    pub closed spec fn values(&self) -> Seq<u16> {
        self.file@
    }

    pub closed spec fn flags(&self) -> u16 {
        self.fg
    }

    pub closed spec fn counter(&self) -> u16 {
        self.pc
    }

    /// All registers zero.
    pub fn new() -> (r: Self)
        ensures
            r.values() == Seq::new(REGISTER_COUNT as nat, |i: int| 0u16),
            r.flags() == 0,
            r.counter() == 0,
    {
        let mut file: Vec<u16> = Vec::new();
        let mut i: usize = 0;
        while i < REGISTER_COUNT
            invariant
                i <= REGISTER_COUNT,
                file@ == Seq::new(i as nat, |k: int| 0u16),
            decreases REGISTER_COUNT - i,
        {
            file.push(0);
            i = i + 1;
            assert(file@ =~= Seq::new(i as nat, |k: int| 0u16));
        }
        Registers { file, fg: 0, pc: 0 }
    }
}

/// The faults an instruction can raise; each is recorded as a bit of `FG`.
#[derive(Clone, Copy, PartialEq, Eq, Structural, Debug)]
pub enum Exception {
    /// Illegal operand field or unknown opcode.
    IOP,
    /// Memory address out of range.
    SEG,
    /// Odd jump target.
    UNA,
}

/// The bit of `FG` that records an exception.
pub open spec fn exception_bit(e: Exception) -> u16 {
    match e {
        Exception::IOP => 0x8000,
        Exception::SEG => 0x4000,
        Exception::UNA => 0x2000,
    }
}

/// What an instruction reads and writes: the register file by index, the
/// flags, the program counter and the memory.
pub struct MachineState {
    pub regs: Seq<u16>,
    pub fg: u16,
    pub pc: u16,
    pub mem: Seq<u8>,
}

/// `v` modulo 2^16.
pub open spec fn wrap(v: int) -> u16 {
    (v % 0x10000) as u16
}

/// The word at `PC`, low byte first; 0 (`nop`) when it does not lie in memory.
pub open spec fn fetch_word(s: MachineState) -> u16 {
    if s.pc as nat + 1 < s.mem.len() {
        ((s.mem[s.pc + 1] as u16) << 8) | (s.mem[s.pc as int] as u16)
    } else {
        0
    }
}

/// The state with register `i` set to `v`.
pub open spec fn with_reg(s: MachineState, i: u16, v: u16) -> MachineState {
    MachineState { regs: s.regs.update(i as int, v), ..s }
}

/// The state with `PC` moved on by `d` bytes.
pub open spec fn advanced(s: MachineState, d: int) -> MachineState {
    MachineState { pc: wrap(s.pc + d), ..s }
}

/// The effect of one instruction word, `PC` included, or the fault it raises.
pub open spec fn execute(s: MachineState, w: u16) -> Result<MachineState, Exception> {
    let x = field_x(w);
    let y = field_y(w);
    let rx = s.regs[x as int];
    let ry = s.regs[y as int];
    match decode_spec(w) {
        None => Err(Exception::IOP),
        Some(i) => if !operands_ok(i, x, y) {
            Err(Exception::IOP)
        } else {
            match i {
                Instruction::NOP => Ok(advanced(s, 2)),
                Instruction::AND => Ok(advanced(with_reg(s, x, rx & ry), 2)),
                Instruction::NOT => Ok(advanced(with_reg(s, x, !rx), 2)),
                Instruction::ADD => Ok(advanced(with_reg(s, x, wrap(rx + ry)), 2)),
                Instruction::SUB => Ok(advanced(with_reg(s, x, wrap(rx - ry + 0x10000)), 2)),
                Instruction::INC => Ok(advanced(with_reg(s, x, wrap(rx + 1)), 2)),
                Instruction::DEC => Ok(advanced(with_reg(s, x, wrap(rx + 0xFFFF)), 2)),
                Instruction::LDB => if ry as nat >= s.mem.len() {
                    Err(Exception::SEG)
                } else {
                    Ok(advanced(with_reg(s, x, (rx & 0xFF00) | (s.mem[ry as int] as u16)), 2))
                },
                Instruction::LDW => if ry as nat + 1 >= s.mem.len() {
                    Err(Exception::SEG)
                } else {
                    Ok(
                        advanced(
                            with_reg(
                                s,
                                x,
                                ((s.mem[ry + 1] as u16) << 8) | (s.mem[ry as int] as u16),
                            ),
                            2,
                        ),
                    )
                },
                Instruction::MOV => Ok(advanced(with_reg(s, x, ry), 2)),
                Instruction::LDI => Ok(advanced(with_reg(s, x, (rx & 0xFF00) | field_nn(w)), 2)),
                Instruction::STB => if rx as nat >= s.mem.len() {
                    Err(Exception::SEG)
                } else {
                    Ok(advanced(MachineState { mem: s.mem.update(rx as int, (ry & 0xFF) as u8), ..s }, 2))
                },
                Instruction::STW => if rx as nat + 1 >= s.mem.len() {
                    Err(Exception::SEG)
                } else {
                    Ok(
                        advanced(
                            MachineState {
                                mem: s.mem.update(rx as int, (ry & 0xFF) as u8).update(
                                    rx + 1,
                                    (ry >> 8) as u8,
                                ),
                                ..s
                            },
                            2,
                        ),
                    )
                },
                Instruction::JMP => if rx % 2 != 0 {
                    Err(Exception::UNA)
                } else {
                    Ok(MachineState { pc: rx, ..s })
                },
                Instruction::JNZ => if rx % 2 != 0 {
                    Err(Exception::UNA)
                } else if ry == 0 {
                    Ok(MachineState { pc: rx, ..s })
                } else {
                    Ok(advanced(s, 2))
                },
                Instruction::SHR => Ok(advanced(with_reg(s, x, rx >> y), 2)),
                Instruction::SHL => Ok(advanced(with_reg(s, x, rx << y), 2)),
                Instruction::TEST => if s.fg & (1u16 << x) != 0 {
                    Ok(advanced(s, 4))
                } else {
                    Ok(advanced(s, 2))
                },
                Instruction::SETF => Ok(advanced(MachineState { fg: s.fg | (1u16 << x), ..s }, 2)),
                Instruction::CLRF => Ok(advanced(MachineState { fg: s.fg & !(1u16 << x), ..s }, 2)),
            }
        },
    }
}

/// One instruction cycle: the fetched word takes effect, or its fault is
/// recorded in `FG` and `PC` stays where it is.
pub open spec fn next_state(s: MachineState) -> MachineState {
    match execute(s, fetch_word(s)) {
        Ok(n) => n,
        Err(e) => MachineState { fg: s.fg | exception_bit(e), ..s },
    }
}

/// A machine: configuration, firmware, memory and registers.
pub struct VirtualMachine {
    config: Configuration,
    firmware: Firmware,
    mem: Memory,
    regs: Registers,
}

impl VirtualMachine {
    pub closed spec fn state(&self) -> MachineState {
        MachineState {
            regs: self.regs.file@,
            fg: self.regs.fg,
            pc: self.regs.pc,
            mem: self.mem.data@,
        }
    }

    pub closed spec fn program(&self) -> Seq<u8> {
        self.firmware.data@
    }

    /// The configuration the machine was made with.
    pub closed spec fn configuration(&self) -> Configuration {
        self.config
    }

    pub open spec fn initial_pc(&self) -> u16 {
        self.configuration().initial_pc
    }

    pub closed spec fn wf(&self) -> bool {
        &&& self.mem.wf()
        &&& self.firmware.wf()
        &&& self.regs.file@.len() == REGISTER_COUNT
        &&& self.mem.size == self.config.memory_size
    }

    /// The firmware fits in memory from the start address.
    pub open spec fn fits(&self) -> bool {
        self.initial_pc() as nat + self.program().len() <= self.state().mem.len()
    }

    /// Whether the firmware fits in memory from the start address, as `reset` needs.
    pub fn firmware_fits(&self) -> (r: bool)
        requires
            self.wf(),
        ensures
            r == self.fits(),
    {
        self.config.initial_pc as usize + self.firmware.data.len() <= self.mem.data.len()
    }

    /// A machine with zeroed memory and registers. Its firmware is the built-in
    /// program when no firmware file is configured, else `file_contents`.
    pub fn new(config: Configuration, file_contents: Vec<u8>) -> (r: Self)
        requires
            config.memory_size > 0,
            config.firmware_file@.len() > 0 ==> file_contents@.len() <= 0xFFFF,
        ensures
            r.wf(),
            r.program() == (if config.firmware_file@.len() == 0 {
                default_firmware()
            } else {
                file_contents@
            }),
            r.configuration() == config,
            r.state().regs == Seq::new(REGISTER_COUNT as nat, |i: int| 0u16),
            r.state().fg == 0,
            r.state().pc == 0,
            r.state().mem == Seq::new(config.memory_size as nat, |i: int| 0u8),
    {
        let firmware = if config.firmware_file.as_str().is_empty() {
            Firmware::default()
        } else {
            Firmware::from_bytes(file_contents)
        };
        let mem = Memory::new(config.memory_size);
        let regs = Registers::new();
        VirtualMachine { config, firmware, mem, regs }
    }

    /// Sets `PC` to the configured start and copies the firmware into memory there.
    pub fn reset(&mut self)
        requires
            old(self).wf(),
            old(self).fits(),
        ensures
            final(self).wf(),
            final(self).program() == old(self).program(),
            final(self).configuration() == old(self).configuration(),
            final(self).state().regs == old(self).state().regs,
            final(self).state().fg == old(self).state().fg,
            final(self).state().pc == old(self).initial_pc(),
            final(self).state().mem == Seq::new(
                old(self).state().mem.len(),
                |k: int|
                    if old(self).initial_pc() <= k < old(self).initial_pc() + old(self).program().len() {
                        old(self).program()[k - old(self).initial_pc()]
                    } else {
                        old(self).state().mem[k]
                    },
            ),
    {
        self.regs.pc = self.config.initial_pc;
        let start: usize = self.config.initial_pc as usize;
        let n: usize = self.firmware.data.len();
        let ghost before = self.mem.data@;
        let mut i: usize = 0;
        while i < n
            invariant
                self.wf(),
                start + n <= self.mem.data@.len(),
                n == self.firmware.data@.len(),
                start == self.config.initial_pc,
                self.regs.pc == self.config.initial_pc,
                self.firmware == old(self).firmware,
                self.config == old(self).config,
                self.regs.file == old(self).regs.file,
                self.regs.fg == old(self).regs.fg,
                before == old(self).mem.data@,
                i <= n,
                self.mem.data@.len() == before.len(),
                forall|k: int|
                    0 <= k < before.len() ==> self.mem.data@[k] == (if start <= k < start + i {
                        self.firmware.data@[k - start]
                    } else {
                        before[k]
                    }),
            decreases n - i,
        {
            let b: u8 = self.firmware.data[i];
            self.mem.data.set(start + i, b);
            i = i + 1;
        }
        assert(self.mem.data@ =~= Seq::new(
            before.len(),
            |k: int|
                if start <= k < start + n {
                    self.firmware.data@[k - start]
                } else {
                    before[k]
                },
        ));
    }

    pub fn register(&self, i: usize) -> (r: u16)
        requires
            self.wf(),
            i < REGISTER_COUNT,
        ensures
            r == self.state().regs[i as int],
    {
        self.regs.file[i]
    }

    pub fn set_register(&mut self, i: usize, v: u16)
        requires
            old(self).wf(),
            i < REGISTER_COUNT,
        ensures
            final(self).wf(),
            final(self).program() == old(self).program(),
            final(self).configuration() == old(self).configuration(),
            final(self).state() == with_reg(old(self).state(), i as u16, v),
    {
        self.regs.file.set(i, v);
    }

    pub fn pc(&self) -> (r: u16)
        ensures
            r == self.state().pc,
    {
        self.regs.pc
    }

    pub fn flags(&self) -> (r: u16)
        ensures
            r == self.state().fg,
    {
        self.regs.fg
    }

    pub fn memory(&self) -> (r: &Vec<u8>)
        ensures
            r@ == self.state().mem,
    {
        &self.mem.data
    }

    /// The word at `PC`, or 0 when `PC + 1` lies outside memory.
    pub fn fetch(&self) -> (r: u16)
        requires
            self.wf(),
        ensures
            r == fetch_word(self.state()),
    {
        let pc: usize = self.regs.pc as usize;
        if pc + 1 >= self.mem.data.len() {
            return 0;
        }
        let lo = self.mem.data[pc] as u16;
        let hi = self.mem.data[pc + 1] as u16;
        (hi << 8) | lo
    }

    fn execute_word(&mut self, w: u16) -> (r: Result<(), Exception>)
        requires
            old(self).wf(),
        ensures
            final(self).wf(),
            final(self).program() == old(self).program(),
            final(self).configuration() == old(self).configuration(),
            match execute(old(self).state(), w) {
                Ok(n) => r is Ok && final(self).state() == n,
                Err(e) => r == Err::<(), Exception>(e) && final(self).state() == old(self).state(),
            },
    {
        let ghost s = self.state();
        let x: u16 = (w & 0x0F00) >> 8;
        let y: u16 = (w & 0x00F0) >> 4;
        let nn: u16 = w & 0x00FF;
        assert(x <= 15 && y <= 15) by (bit_vector)
            requires
                x == (w & 0x0F00) >> 8,
                y == (w & 0x00F0) >> 4,
        ;
        let i = match decode_opcode(w) {
            Some(i) => i,
            None => {
                return Err(Exception::IOP);
            },
        };
        let ok: bool = match i {
            Instruction::AND | Instruction::ADD | Instruction::SUB => check_register_range(
                x,
                RegisterId::R7,
            ) && check_register_range(y, RegisterId::R7),
            Instruction::NOT | Instruction::LDI | Instruction::SHR | Instruction::SHL => check_register_range(
                x,
                RegisterId::R7,
            ),
            Instruction::INC | Instruction::DEC | Instruction::JMP => check_register_range(x, RegisterId::SP),
            Instruction::LDB | Instruction::LDW => check_register_range(x, RegisterId::R7)
                && check_register_range(y, RegisterId::SP),
            Instruction::MOV => check_register_range(x, RegisterId::C1) && check_register_range(
                y,
                RegisterId::C1,
            ),
            Instruction::STB | Instruction::STW | Instruction::JNZ => check_register_range(
                x,
                RegisterId::SP,
            ) && check_register_range(y, RegisterId::R7),
            Instruction::NOP | Instruction::TEST | Instruction::SETF | Instruction::CLRF => true,
        };
        if !ok {
            return Err(Exception::IOP);
        }
        let xi: usize = x as usize;
        let yi: usize = if y <= 10 { y as usize } else { 0 };
        let size: usize = self.mem.data.len();
        let pc2: u16 = self.regs.pc.wrapping_add(2);
        match i {
            Instruction::NOP => {},
            Instruction::AND => {
                let v = self.regs.file[xi] & self.regs.file[yi];
                self.regs.file.set(xi, v);
            },
            Instruction::NOT => {
                let v = !self.regs.file[xi];
                self.regs.file.set(xi, v);
            },
            Instruction::ADD => {
                let v = self.regs.file[xi].wrapping_add(self.regs.file[yi]);
                self.regs.file.set(xi, v);
            },
            Instruction::SUB => {
                let v = self.regs.file[xi].wrapping_sub(self.regs.file[yi]);
                self.regs.file.set(xi, v);
            },
            Instruction::INC => {
                let v = self.regs.file[xi].wrapping_add(1);
                self.regs.file.set(xi, v);
            },
            Instruction::DEC => {
                let v = self.regs.file[xi].wrapping_sub(1);
                self.regs.file.set(xi, v);
            },
            Instruction::LDB => {
                let address: usize = self.regs.file[yi] as usize;
                if address >= size {
                    return Err(Exception::SEG);
                }
                let v = (self.regs.file[xi] & 0xFF00) | self.mem.data[address] as u16;
                self.regs.file.set(xi, v);
            },
            Instruction::LDW => {
                let address: usize = self.regs.file[yi] as usize;
                if address + 1 >= size {
                    return Err(Exception::SEG);
                }
                let v = ((self.mem.data[address + 1] as u16) << 8) | (self.mem.data[address] as u16);
                self.regs.file.set(xi, v);
            },
            Instruction::MOV => {
                let v = self.regs.file[yi];
                self.regs.file.set(xi, v);
            },
            Instruction::LDI => {
                let v = (self.regs.file[xi] & 0xFF00) | nn;
                self.regs.file.set(xi, v);
            },
            Instruction::STB => {
                let address: usize = self.regs.file[xi] as usize;
                if address >= size {
                    return Err(Exception::SEG);
                }
                let b = #[verifier::truncate] ((self.regs.file[yi] & 0x00FF) as u8);
                self.mem.data.set(address, b);
            },
            Instruction::STW => {
                let address: usize = self.regs.file[xi] as usize;
                if address + 1 >= size {
                    return Err(Exception::SEG);
                }
                let v = self.regs.file[yi];
                self.mem.data.set(address, #[verifier::truncate] ((v & 0x00FF) as u8));
                self.mem.data.set(address + 1, #[verifier::truncate] ((v >> 8) as u8));
            },
            Instruction::JMP => {
                let address = self.regs.file[xi];
                if address % 2 != 0 {
                    return Err(Exception::UNA);
                }
                self.regs.pc = address;
                return Ok(());
            },
            Instruction::JNZ => {
                let address = self.regs.file[xi];
                if address % 2 != 0 {
                    return Err(Exception::UNA);
                }
                if self.regs.file[yi] == 0 {
                    self.regs.pc = address;
                    return Ok(());
                }
            },
            Instruction::SHR => {
                let v = self.regs.file[xi] >> y;
                self.regs.file.set(xi, v);
            },
            Instruction::SHL => {
                let v = self.regs.file[xi] << y;
                self.regs.file.set(xi, v);
            },
            Instruction::TEST => {
                if self.regs.fg & (1u16 << x) != 0 {
                    self.regs.pc = pc2.wrapping_add(2);
                    return Ok(());
                }
            },
            Instruction::SETF => {
                self.regs.fg = self.regs.fg | (1u16 << x);
            },
            Instruction::CLRF => {
                self.regs.fg = self.regs.fg & !(1u16 << x);
            },
        }
        self.regs.pc = pc2;
        Ok(())
    }

    /// Runs one instruction cycle. A fault leaves `PC` in place and sets its
    /// bit in `FG`; it is handed back as well.
    pub fn step(&mut self) -> (r: Result<(), Exception>)
        requires
            old(self).wf(),
        ensures
            final(self).wf(),
            final(self).program() == old(self).program(),
            final(self).configuration() == old(self).configuration(),
            final(self).state() == next_state(old(self).state()),
            match execute(old(self).state(), fetch_word(old(self).state())) {
                Ok(_) => r is Ok,
                Err(e) => r == Err::<(), Exception>(e),
            },
            pc_moves_evenly(old(self).state().pc, final(self).state().pc),
    {
        let w = self.fetch();
        let r = self.execute_word(w);
        match r {
            Ok(()) => {},
            Err(e) => {
                let bit: u16 = match e {
                    Exception::IOP => 0x8000,
                    Exception::SEG => 0x4000,
                    Exception::UNA => 0x2000,
                };
                self.regs.fg = self.regs.fg | bit;
            },
        }
        proof {
            lemma_step_moves_pc_evenly(old(self).state());
        }
        r
    }
}

/// `PC` went on by 0, 2 or 4 bytes (modulo 2^16), or was overwritten with an even address.
pub open spec fn pc_moves_evenly(before: u16, after: u16) -> bool {
    after == wrap(before + 0) || after == wrap(before + 2) || after == wrap(before + 4) || after % 2 == 0
}

/// A step moves `PC` on by an even amount, or overwrites it with an even value.
pub proof fn lemma_step_moves_pc_evenly(s: MachineState)
    ensures
        pc_moves_evenly(s.pc, next_state(s).pc),
{
}

/// The state after `n` instruction cycles.
pub open spec fn run_steps(s: MachineState, n: nat) -> MachineState
    decreases n,
{
    if n == 0 {
        s
    } else {
        run_steps(next_state(s), (n - 1) as nat)
    }
}

/// A `jmp r0` (bytes `00 60`) at `PC`, with `R0` holding `PC`, jumps to itself:
/// any number of cycles leaves the state as it is, and raises no flag.
pub proof fn lemma_jump_to_self_forever(s: MachineState, n: nat)
    requires
        s.regs.len() == REGISTER_COUNT,
        s.pc as nat + 1 < s.mem.len(),
        s.mem[s.pc as int] == 0x00,
        s.mem[s.pc + 1] == 0x60,
        s.regs[0] == s.pc,
        s.pc % 2 == 0,
    ensures
        run_steps(s, n) == s,
    decreases n,
{
    lemma_jmp_r0_word();
    assert(next_state(s) == s);
    if n > 0 {
        lemma_jump_to_self_forever(s, (n - 1) as nat);
    }
}

/// The same `jmp r0` with an odd `R0` faults on every cycle: `FG` gains the
/// unaligned-access bit, and nothing else changes.
pub proof fn lemma_jump_to_odd_forever(s: MachineState, n: nat)
    requires
        s.regs.len() == REGISTER_COUNT,
        s.pc as nat + 1 < s.mem.len(),
        s.mem[s.pc as int] == 0x00,
        s.mem[s.pc + 1] == 0x60,
        s.regs[0] % 2 == 1,
        n >= 1,
    ensures
        run_steps(s, n) == (MachineState { fg: s.fg | 0x2000, ..s }),
    decreases n,
{
    lemma_jmp_r0_word();
    let t = MachineState { fg: s.fg | 0x2000, ..s };
    assert(next_state(s) == t);
    assert(run_steps(s, n) == run_steps(t, (n - 1) as nat));
    if n == 1 {
        assert(run_steps(t, 0) == t);
    } else {
        lemma_jump_to_odd_forever(t, (n - 1) as nat);
        let f = s.fg;
        assert((f | 0x2000) | 0x2000 == f | 0x2000) by (bit_vector);
        assert((MachineState { fg: t.fg | 0x2000, ..t }) == t);
    }
}

proof fn lemma_jmp_r0_word()
    ensures
        ((0x60u8 as u16) << 8) | (0x00u8 as u16) == 0x6000,
        decode_spec(0x6000) == Some(Instruction::JMP),
        field_x(0x6000) == 0,
        field_y(0x6000) == 0,
{
    assert(((0x60u8 as u16) << 8) | (0x00u8 as u16) == 0x6000u16 && 0x6000u16 >> 12 == 6 && 0x6000u16
        & 3 == 0 && (0x6000u16 & 0x0F00) >> 8 == 0 && (0x6000u16 & 0x00F0) >> 4 == 0) by (bit_vector);
}

/// The decision of one turn of the paced run loop.
pub struct Pace {
    /// Nanoseconds owed to the schedule after this turn.
    pub delta: u128,
    /// Whether to run a step now.
    pub step: bool,
    /// Whether the loop is a whole period or more behind after the step.
    pub late: bool,
}

/// One turn of the paced loop: `elapsed` nanoseconds are added to what is owed
/// (saturating); a whole period owed runs one step and pays one period, and
/// never more than one step per turn.
pub fn pace(delta: u128, elapsed: u128, period: u128) -> (r: Pace)
    ensures
        ({
            let owed = if delta + elapsed > u128::MAX { u128::MAX as int } else { delta + elapsed };
            if owed >= period {
                r.step && r.delta == owed - period && r.late == (owed - period >= period)
            } else {
                !r.step && r.delta == owed && !r.late
            }
        }),
{
    let owed: u128 = if elapsed > u128::MAX - delta { u128::MAX } else { delta + elapsed };
    if owed >= period {
        let rest: u128 = owed - period;
        Pace { delta: rest, step: true, late: rest >= period }
    } else {
        Pace { delta: owed, step: false, late: false }
    }
}

} // verus!
