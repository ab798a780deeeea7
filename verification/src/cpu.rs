//! The CHIP-8 execution core: fetch, decode, execute.
//!
//! Each two-byte instruction word is decoded into a structured
//! [`Instr`], and the machine's whole behaviour is pinned down by the
//! specification function [`step`]: `execute` is proved to transform the
//! CPU, memory and display exactly as `step` says, and `tick` runs eleven
//! such steps and then counts the two timers down.
//!
//! Where the classic machine leaves behaviour undefined, this core wraps:
//! every memory address an instruction computes is reduced modulo 4096,
//! the program counter is kept below 4096, the call stack pointer wraps
//! modulo its 16 slots, and the key value taken from a register for the
//! key-skip instructions is masked to its low four bits.

use vstd::prelude::*;

use crate::display::Display;
use crate::keypad::Keypad;
use crate::memory::Memory;

verus! {

/// A decoded instruction: the opcode class with its operand fields.
/// Register indices (`x`, `y`) are always below 16, a 4-bit immediate is
/// below 16, and a 12-bit address is below 4096.
#[derive(Clone, Copy, Debug, PartialEq, Eq, Structural)]
pub enum Instr {
    /// 00E0: clear the display.
    Cls,
    /// 00EE: return from a subroutine.
    Ret,
    /// 1nnn: jump to nnn.
    Jump(u16),
    /// 2nnn: call the subroutine at nnn.
    Call(u16),
    /// 3xnn: skip the next instruction if Vx == nn.
    SkipEqByte(u8, u8),
    /// 4xnn: skip the next instruction if Vx != nn.
    SkipNeByte(u8, u8),
    /// 5xy0: skip the next instruction if Vx == Vy.
    SkipEqReg(u8, u8),
    /// 6xnn: Vx = nn.
    LoadByte(u8, u8),
    /// 7xnn: Vx = Vx + nn, wrapping, no flag.
    AddByte(u8, u8),
    /// 8xy0: Vx = Vy.
    Move(u8, u8),
    /// 8xy1: Vx |= Vy.
    Or(u8, u8),
    /// 8xy2: Vx &= Vy.
    And(u8, u8),
    /// 8xy3: Vx ^= Vy.
    Xor(u8, u8),
    /// 8xy4: Vx = Vx + Vy, VF = carry.
    Add(u8, u8),
    /// 8xy5: Vx = Vx - Vy, VF = 1 when there is no borrow.
    Sub(u8, u8),
    /// 8xy6: Vx >>= 1, VF = the bit shifted out.
    Shr(u8, u8),
    /// 8xy7: Vx = Vy - Vx, VF = 1 when there is no borrow.
    SubN(u8, u8),
    /// 8xyE: Vx <<= 1, VF = the bit shifted out.
    Shl(u8, u8),
    /// 9xy0: skip the next instruction if Vx != Vy.
    SkipNeReg(u8, u8),
    /// Annn: I = nnn.
    LoadIndex(u16),
    /// Bnnn: jump to nnn + V0.
    JumpV0(u16),
    /// Cxnn: Vx = random byte AND nn.
    Random(u8, u8),
    /// Dxyn: draw the n-row sprite at I to (Vx mod 64, Vy mod 32).
    Draw(u8, u8, u8),
    /// Ex9E: skip the next instruction if key Vx is pressed.
    SkipKey(u8),
    /// ExA1: skip the next instruction if key Vx is not pressed.
    SkipNotKey(u8),
    /// Fx07: Vx = DT.
    GetDelay(u8),
    /// Fx0A: wait for a key press; Vx = the lowest pressed key.
    WaitKey(u8),
    /// Fx15: DT = Vx.
    SetDelay(u8),
    /// Fx18: ST = Vx.
    SetSound(u8),
    /// Fx1E: I = I + Vx modulo 4096, VF = 1 when the raw sum exceeds 0xFFF.
    AddIndex(u8),
    /// Fx29: I = the font glyph address of the low nibble of Vx.
    LoadFont(u8),
    /// Fx33: store Vx's decimal digits at I, I+1, I+2.
    StoreBcd(u8),
    /// Fx55: store V0..Vx to memory starting at I.
    StoreRegs(u8),
    /// Fx65: load V0..Vx from memory starting at I.
    LoadRegs(u8),
    /// Any word no pattern above covers; it is executed as a no-op.
    Unknown(u16),
}

/// What the instruction word `w` decodes to.
#[verifier::opaque]
pub open spec fn spec_decode(w: u16) -> Instr {
    let x = ((w / 256) % 16) as u8;
    let y = ((w / 16) % 16) as u8;
    let n = (w % 16) as u8;
    let nn = (w % 256) as u8;
    let nnn = w % 4096;
    if w / 4096 == 0 {
        if w == 0x00E0 {
            Instr::Cls
        } else if w == 0x00EE {
            Instr::Ret
        } else {
            Instr::Unknown(w)
        }
    } else if w / 4096 == 1 {
        Instr::Jump(nnn)
    } else if w / 4096 == 2 {
        Instr::Call(nnn)
    } else if w / 4096 == 3 {
        Instr::SkipEqByte(x, nn)
    } else if w / 4096 == 4 {
        Instr::SkipNeByte(x, nn)
    } else if w / 4096 == 5 {
        if n == 0 {
            Instr::SkipEqReg(x, y)
        } else {
            Instr::Unknown(w)
        }
    } else if w / 4096 == 6 {
        Instr::LoadByte(x, nn)
    } else if w / 4096 == 7 {
        Instr::AddByte(x, nn)
    } else if w / 4096 == 8 {
        if n == 0 {
            Instr::Move(x, y)
        } else if n == 1 {
            Instr::Or(x, y)
        } else if n == 2 {
            Instr::And(x, y)
        } else if n == 3 {
            Instr::Xor(x, y)
        } else if n == 4 {
            Instr::Add(x, y)
        } else if n == 5 {
            Instr::Sub(x, y)
        } else if n == 6 {
            Instr::Shr(x, y)
        } else if n == 7 {
            Instr::SubN(x, y)
        } else if n == 0xE {
            Instr::Shl(x, y)
        } else {
            Instr::Unknown(w)
        }
    } else if w / 4096 == 9 {
        if n == 0 {
            Instr::SkipNeReg(x, y)
        } else {
            Instr::Unknown(w)
        }
    } else if w / 4096 == 0xA {
        Instr::LoadIndex(nnn)
    } else if w / 4096 == 0xB {
        Instr::JumpV0(nnn)
    } else if w / 4096 == 0xC {
        Instr::Random(x, nn)
    } else if w / 4096 == 0xD {
        Instr::Draw(x, y, n)
    } else if w / 4096 == 0xE {
        if nn == 0x9E {
            Instr::SkipKey(x)
        } else if nn == 0xA1 {
            Instr::SkipNotKey(x)
        } else {
            Instr::Unknown(w)
        }
    } else {
        if nn == 0x07 {
            Instr::GetDelay(x)
        } else if nn == 0x0A {
            Instr::WaitKey(x)
        } else if nn == 0x15 {
            Instr::SetDelay(x)
        } else if nn == 0x18 {
            Instr::SetSound(x)
        } else if nn == 0x1E {
            Instr::AddIndex(x)
        } else if nn == 0x29 {
            Instr::LoadFont(x)
        } else if nn == 0x33 {
            Instr::StoreBcd(x)
        } else if nn == 0x55 {
            Instr::StoreRegs(x)
        } else if nn == 0x65 {
            Instr::LoadRegs(x)
        } else {
            Instr::Unknown(w)
        }
    }
}

/// Splits an instruction word into its four nibbles and picks the opcode
/// class, exactly as [`spec_decode`] says.
pub fn decode(w: u16) -> (r: Instr)
    ensures
        r == spec_decode(w),
{
    proof {
        reveal(spec_decode);
        assert(w >> 12u16 == w / 4096) by (bit_vector);
        assert((w >> 8u16) & 0xF == (w / 256) % 16) by (bit_vector);
        assert((w >> 4u16) & 0xF == (w / 16) % 16) by (bit_vector);
        assert(w & 0xF == w % 16) by (bit_vector);
        assert(w & 0xFF == w % 256) by (bit_vector);
        assert(w & 0xFFF == w % 4096) by (bit_vector);
    }
    let n0 = w >> 12u16;
    let x = ((w >> 8u16) & 0xF) as u8;
    let y = ((w >> 4u16) & 0xF) as u8;
    let n = (w & 0xF) as u8;
    let nn = (w & 0xFF) as u8;
    let nnn = w & 0xFFF;
    if n0 == 0 {
        if w == 0x00E0 {
            Instr::Cls
        } else if w == 0x00EE {
            Instr::Ret
        } else {
            Instr::Unknown(w)
        }
    } else if n0 == 1 {
        Instr::Jump(nnn)
    } else if n0 == 2 {
        Instr::Call(nnn)
    } else if n0 == 3 {
        Instr::SkipEqByte(x, nn)
    } else if n0 == 4 {
        Instr::SkipNeByte(x, nn)
    } else if n0 == 5 {
        if n == 0 {
            Instr::SkipEqReg(x, y)
        } else {
            Instr::Unknown(w)
        }
    } else if n0 == 6 {
        Instr::LoadByte(x, nn)
    } else if n0 == 7 {
        Instr::AddByte(x, nn)
    } else if n0 == 8 {
        if n == 0 {
            Instr::Move(x, y)
        } else if n == 1 {
            Instr::Or(x, y)
        } else if n == 2 {
            Instr::And(x, y)
        } else if n == 3 {
            Instr::Xor(x, y)
        } else if n == 4 {
            Instr::Add(x, y)
        } else if n == 5 {
            Instr::Sub(x, y)
        } else if n == 6 {
            Instr::Shr(x, y)
        } else if n == 7 {
            Instr::SubN(x, y)
        } else if n == 0xE {
            Instr::Shl(x, y)
        } else {
            Instr::Unknown(w)
        }
    } else if n0 == 9 {
        if n == 0 {
            Instr::SkipNeReg(x, y)
        } else {
            Instr::Unknown(w)
        }
    } else if n0 == 0xA {
        Instr::LoadIndex(nnn)
    } else if n0 == 0xB {
        Instr::JumpV0(nnn)
    } else if n0 == 0xC {
        Instr::Random(x, nn)
    } else if n0 == 0xD {
        Instr::Draw(x, y, n)
    } else if n0 == 0xE {
        if nn == 0x9E {
            Instr::SkipKey(x)
        } else if nn == 0xA1 {
            Instr::SkipNotKey(x)
        } else {
            Instr::Unknown(w)
        }
    } else {
        if nn == 0x07 {
            Instr::GetDelay(x)
        } else if nn == 0x0A {
            Instr::WaitKey(x)
        } else if nn == 0x15 {
            Instr::SetDelay(x)
        } else if nn == 0x18 {
            Instr::SetSound(x)
        } else if nn == 0x1E {
            Instr::AddIndex(x)
        } else if nn == 0x29 {
            Instr::LoadFont(x)
        } else if nn == 0x33 {
            Instr::StoreBcd(x)
        } else if nn == 0x55 {
            Instr::StoreRegs(x)
        } else if nn == 0x65 {
            Instr::LoadRegs(x)
        } else {
            Instr::Unknown(w)
        }
    }
}

/// Every operand field a decoded instruction carries is in range:
/// register indices and 4-bit immediates below 16, addresses below 4096.
pub proof fn lemma_decode_bounds(w: u16)
    ensures
        match spec_decode(w) {
            Instr::Jump(nnn) => nnn < 4096,
            Instr::Call(nnn) => nnn < 4096,
            Instr::SkipEqByte(x, _) => x < 16,
            Instr::SkipNeByte(x, _) => x < 16,
            Instr::SkipEqReg(x, y) => x < 16 && y < 16,
            Instr::LoadByte(x, _) => x < 16,
            Instr::AddByte(x, _) => x < 16,
            Instr::Move(x, y) => x < 16 && y < 16,
            Instr::Or(x, y) => x < 16 && y < 16,
            Instr::And(x, y) => x < 16 && y < 16,
            Instr::Xor(x, y) => x < 16 && y < 16,
            Instr::Add(x, y) => x < 16 && y < 16,
            Instr::Sub(x, y) => x < 16 && y < 16,
            Instr::Shr(x, y) => x < 16 && y < 16,
            Instr::SubN(x, y) => x < 16 && y < 16,
            Instr::Shl(x, y) => x < 16 && y < 16,
            Instr::SkipNeReg(x, y) => x < 16 && y < 16,
            Instr::LoadIndex(nnn) => nnn < 4096,
            Instr::JumpV0(nnn) => nnn < 4096,
            Instr::Random(x, _) => x < 16,
            Instr::Draw(x, y, n) => x < 16 && y < 16 && n < 16,
            Instr::SkipKey(x) => x < 16,
            Instr::SkipNotKey(x) => x < 16,
            Instr::GetDelay(x) => x < 16,
            Instr::WaitKey(x) => x < 16,
            Instr::SetDelay(x) => x < 16,
            Instr::SetSound(x) => x < 16,
            Instr::AddIndex(x) => x < 16,
            Instr::LoadFont(x) => x < 16,
            Instr::StoreBcd(x) => x < 16,
            Instr::StoreRegs(x) => x < 16,
            Instr::LoadRegs(x) => x < 16,
            _ => true,
        },
{
    reveal(spec_decode);
}

/// The mathematical model of the CPU's private state.
#[verifier::ext_equal]
pub ghost struct CpuState {
    /// The 16 general registers V0..VF.
    pub v: Seq<u8>,
    /// The index register I.
    pub i: u16,
    /// The program counter.
    pub pc: u16,
    /// The stack pointer: the next free stack slot.
    pub sp: u16,
    /// The 16 return-address slots.
    pub stack: Seq<u16>,
    /// The delay timer.
    pub dt: u8,
    /// The sound timer.
    pub st: u8,
}

impl CpuState {
    /// Well-formedness: 16 registers, 16 stack slots, and every address
    /// (program counter, index register, stored return addresses) below
    /// 4096; the stack pointer indexes one of the 16 slots.
    pub open spec fn wf(self) -> bool {
        &&& self.v.len() == 16
        &&& self.stack.len() == 16
        &&& self.pc < 4096
        &&& self.i < 4096
        &&& self.sp < 16
        &&& forall|k: int| 0 <= k < 16 ==> self.stack[k] < 4096
    }
}

/// The big-endian instruction word fetched at `pc`: the high byte at `pc`,
/// the low byte at `pc + 1` (modulo the address space).
pub open spec fn spec_word(mem: Seq<u8>, pc: u16) -> u16 {
    (mem[pc as int] * 256 + mem[((pc as int) + 1) % 4096]) as u16
}

/// The program counter moved forward by two, modulo the address space.
pub open spec fn pc_plus_2(pc: u16) -> u16 {
    (((pc as int) + 2) % 4096) as u16
}

/// One timer count-down: down by one, never below zero.
pub open spec fn dec_timer(t: u8) -> u8 {
    if t > 0 {
        (t - 1) as u8
    } else {
        0
    }
}

/// Memory after registers `v[0]`, ..., `v[cnt - 1]` have been stored in
/// ascending order at addresses `i`, `i + 1`, ... (each modulo 4096).
pub open spec fn store_upto(mem: Seq<u8>, v: Seq<u8>, i: int, cnt: int) -> Seq<u8>
    decreases cnt,
{
    if cnt <= 0 {
        mem
    } else {
        store_upto(mem, v, i, cnt - 1).update((i + cnt - 1) % 4096, v[cnt - 1])
    }
}

/// Registers after `v[0]`, ..., `v[cnt - 1]` have been reloaded in
/// ascending order from addresses `i`, `i + 1`, ... (each modulo 4096).
pub open spec fn load_upto(v: Seq<u8>, mem: Seq<u8>, i: int, cnt: int) -> Seq<u8>
    decreases cnt,
{
    if cnt <= 0 {
        v
    } else {
        load_upto(v, mem, i, cnt - 1).update(cnt - 1, mem[(i + cnt - 1) % 4096])
    }
}

/// Whether sprite-row byte `b` has its bit for column `col` set; column 0
/// is the most significant bit.
pub open spec fn sprite_bit(b: u8, col: int) -> bool {
    (b >> ((7 - col) as u8)) & 1 == 1
}

/// The display and collision flag after the first `cols` bits of one
/// sprite row `b` have been applied at row `yrow`, columns `xpos`,
/// `xpos + 1`, ...: a set bit toggles its pixel and collides when the
/// pixel was already lit; bits that would land past column 63 are clipped.
pub open spec fn draw_cols(disp: Seq<bool>, b: u8, xpos: int, yrow: int, cols: int) -> (
    Seq<bool>,
    bool,
)
    decreases cols,
{
    if cols <= 0 {
        (disp, false)
    } else {
        let prev = draw_cols(disp, b, xpos, yrow, cols - 1);
        let c = cols - 1;
        if xpos + c >= 64 || !sprite_bit(b, c) {
            prev
        } else {
            let p = yrow * 64 + xpos + c;
            (prev.0.update(p, !prev.0[p]), prev.1 || prev.0[p])
        }
    }
}

/// The display and collision flag after the first `rows` rows of the
/// sprite at memory address `i` have been drawn at origin
/// (`xpos`, `ypos`); rows that would land past row 31 are clipped.
pub open spec fn draw_rows(
    disp: Seq<bool>,
    mem: Seq<u8>,
    i: u16,
    xpos: int,
    ypos: int,
    rows: int,
) -> (Seq<bool>, bool)
    decreases rows,
{
    if rows <= 0 {
        (disp, false)
    } else {
        let prev = draw_rows(disp, mem, i, xpos, ypos, rows - 1);
        let r = rows - 1;
        if ypos + r >= 32 {
            prev
        } else {
            let row = draw_cols(prev.0, mem[((i as int) + r) % 4096], xpos, ypos + r, 8);
            (row.0, prev.1 || row.1)
        }
    }
}

/// The lowest pressed key value at or above `k`, or 16 when none is.
pub open spec fn first_key(keys: Seq<bool>, k: int) -> int
    decreases 16 - k,
{
    if k < 0 || k >= 16 {
        16
    } else if keys[k] {
        k
    } else {
        first_key(keys, k + 1)
    }
}

/// One fetch-decode-execute step of the machine: from CPU state `s`,
/// memory `mem`, display `disp` and keypad `keys` to the next CPU state,
/// memory and display. `rnd` stands for the byte the random source hands
/// the Cxnn instruction; every other instruction ignores it.
pub open spec fn step(s: CpuState, mem: Seq<u8>, disp: Seq<bool>, keys: Seq<bool>, rnd: u8) -> (
    CpuState,
    Seq<u8>,
    Seq<bool>,
) {
    let w = spec_word(mem, s.pc);
    let f = CpuState { pc: pc_plus_2(s.pc), ..s };
    match spec_decode(w) {
        Instr::Cls => (f, mem, Seq::new(disp.len(), |p: int| false)),
        Instr::Ret => {
            let sp2 = (((f.sp as int) + 15) % 16) as u16;
            (CpuState { pc: f.stack[sp2 as int], sp: sp2, ..f }, mem, disp)
        },
        Instr::Jump(nnn) => (CpuState { pc: nnn, ..f }, mem, disp),
        Instr::Call(nnn) => (
            CpuState {
                stack: f.stack.update(f.sp as int, f.pc),
                sp: (((f.sp as int) + 1) % 16) as u16,
                pc: nnn,
                ..f
            },
            mem,
            disp,
        ),
        Instr::SkipEqByte(x, nn) => {
            if f.v[x as int] == nn {
                (CpuState { pc: pc_plus_2(f.pc), ..f }, mem, disp)
            } else {
                (f, mem, disp)
            }
        },
        Instr::SkipNeByte(x, nn) => {
            if f.v[x as int] != nn {
                (CpuState { pc: pc_plus_2(f.pc), ..f }, mem, disp)
            } else {
                (f, mem, disp)
            }
        },
        Instr::SkipEqReg(x, y) => {
            if f.v[x as int] == f.v[y as int] {
                (CpuState { pc: pc_plus_2(f.pc), ..f }, mem, disp)
            } else {
                (f, mem, disp)
            }
        },
        Instr::LoadByte(x, nn) => (CpuState { v: f.v.update(x as int, nn), ..f }, mem, disp),
        Instr::AddByte(x, nn) => (
            CpuState { v: f.v.update(x as int, ((f.v[x as int] + nn) % 256) as u8), ..f },
            mem,
            disp,
        ),
        Instr::Move(x, y) => (CpuState { v: f.v.update(x as int, f.v[y as int]), ..f }, mem, disp),
        Instr::Or(x, y) => (
            CpuState { v: f.v.update(x as int, f.v[x as int] | f.v[y as int]), ..f },
            mem,
            disp,
        ),
        Instr::And(x, y) => (
            CpuState { v: f.v.update(x as int, f.v[x as int] & f.v[y as int]), ..f },
            mem,
            disp,
        ),
        Instr::Xor(x, y) => (
            CpuState { v: f.v.update(x as int, f.v[x as int] ^ f.v[y as int]), ..f },
            mem,
            disp,
        ),
        Instr::Add(x, y) => {
            let sum = f.v[x as int] + f.v[y as int];
            let v2 = f.v.update(x as int, (sum % 256) as u8);
            (
                CpuState { v: v2.update(15, if sum > 255 { 1u8 } else { 0u8 }), ..f },
                mem,
                disp,
            )
        },
        Instr::Sub(x, y) => {
            let no_borrow: u8 = if f.v[x as int] >= f.v[y as int] { 1 } else { 0 };
            let v2 = f.v.update(x as int, ((f.v[x as int] - f.v[y as int]) % 256) as u8);
            (CpuState { v: v2.update(15, no_borrow), ..f }, mem, disp)
        },
        Instr::Shr(x, _y) => {
            let lsb = f.v[x as int] & 1;
            let v2 = f.v.update(x as int, f.v[x as int] / 2);
            (CpuState { v: v2.update(15, lsb), ..f }, mem, disp)
        },
        Instr::SubN(x, y) => {
            let no_borrow: u8 = if f.v[y as int] >= f.v[x as int] { 1 } else { 0 };
            let v2 = f.v.update(x as int, ((f.v[y as int] - f.v[x as int]) % 256) as u8);
            (CpuState { v: v2.update(15, no_borrow), ..f }, mem, disp)
        },
        Instr::Shl(x, _y) => {
            let msb = (f.v[x as int] & 0x80) >> 7u8;
            let v2 = f.v.update(x as int, ((f.v[x as int] * 2) % 256) as u8);
            (CpuState { v: v2.update(15, msb), ..f }, mem, disp)
        },
        Instr::SkipNeReg(x, y) => {
            if f.v[x as int] != f.v[y as int] {
                (CpuState { pc: pc_plus_2(f.pc), ..f }, mem, disp)
            } else {
                (f, mem, disp)
            }
        },
        Instr::LoadIndex(nnn) => (CpuState { i: nnn, ..f }, mem, disp),
        Instr::JumpV0(nnn) => (
            CpuState { pc: (((nnn as int) + f.v[0]) % 4096) as u16, ..f },
            mem,
            disp,
        ),
        Instr::Random(x, nn) => (CpuState { v: f.v.update(x as int, rnd & nn), ..f }, mem, disp),
        Instr::Draw(x, y, n) => {
            let xpos = (f.v[x as int] % 64) as int;
            let ypos = (f.v[y as int] % 32) as int;
            let out = draw_rows(disp, mem, f.i, xpos, ypos, n as int);
            (
                CpuState { v: f.v.update(15, if out.1 { 1u8 } else { 0u8 }), ..f },
                mem,
                out.0,
            )
        },
        Instr::SkipKey(x) => {
            if keys[(f.v[x as int] & 0xF) as int] {
                (CpuState { pc: pc_plus_2(f.pc), ..f }, mem, disp)
            } else {
                (f, mem, disp)
            }
        },
        Instr::SkipNotKey(x) => {
            if !keys[(f.v[x as int] & 0xF) as int] {
                (CpuState { pc: pc_plus_2(f.pc), ..f }, mem, disp)
            } else {
                (f, mem, disp)
            }
        },
        Instr::GetDelay(x) => (CpuState { v: f.v.update(x as int, f.dt), ..f }, mem, disp),
        Instr::WaitKey(x) => {
            let k = first_key(keys, 0);
            if k < 16 {
                (CpuState { v: f.v.update(x as int, k as u8), ..f }, mem, disp)
            } else {
                (CpuState { pc: (((f.pc as int) + 4094) % 4096) as u16, ..f }, mem, disp)
            }
        },
        Instr::SetDelay(x) => (CpuState { dt: f.v[x as int], ..f }, mem, disp),
        Instr::SetSound(x) => (CpuState { st: f.v[x as int], ..f }, mem, disp),
        Instr::AddIndex(x) => {
            let sum = f.i + f.v[x as int];
            (
                CpuState {
                    i: (sum % 4096) as u16,
                    v: f.v.update(15, if sum > 4095 { 1u8 } else { 0u8 }),
                    ..f
                },
                mem,
                disp,
            )
        },
        Instr::LoadFont(x) => (CpuState { i: ((f.v[x as int] & 0xF) * 5) as u16, ..f }, mem, disp),
        Instr::StoreBcd(x) => {
            let vx = f.v[x as int];
            let m2 = mem.update(((f.i as int) + 2) % 4096, (vx % 10) as u8).update(
                ((f.i as int) + 1) % 4096,
                ((vx / 10) % 10) as u8,
            ).update(f.i as int, (vx / 100) as u8);
            (f, m2, disp)
        },
        Instr::StoreRegs(x) => (f, store_upto(mem, f.v, f.i as int, (x as int) + 1), disp),
        Instr::LoadRegs(x) => (
            CpuState { v: load_upto(f.v, mem, f.i as int, (x as int) + 1), ..f },
            mem,
            disp,
        ),
        Instr::Unknown(_) => (f, mem, disp),
    }
}

/// Whether one step of the machine can take the first configuration to
/// the second: some byte from the random source makes [`step`] produce it.
pub open spec fn step_rel(
    c0: CpuState,
    m0: Seq<u8>,
    d0: Seq<bool>,
    c1: CpuState,
    m1: Seq<u8>,
    d1: Seq<bool>,
    keys: Seq<bool>,
) -> bool {
    exists|rnd: u8| (c1, m1, d1) == step(c0, m0, d0, keys, rnd)
}

/// Whether `n` steps of the machine can take the first configuration to
/// the second.
pub open spec fn steps_rel(
    c0: CpuState,
    m0: Seq<u8>,
    d0: Seq<bool>,
    c1: CpuState,
    m1: Seq<u8>,
    d1: Seq<bool>,
    keys: Seq<bool>,
    n: nat,
) -> bool
    decreases n,
{
    if n == 0 {
        c1 == c0 && m1 == m0 && d1 == d0
    } else {
        exists|c: CpuState, m: Seq<u8>, d: Seq<bool>|
            steps_rel(c0, m0, d0, c, m, d, keys, (n - 1) as nat) && step_rel(
                c,
                m,
                d,
                c1,
                m1,
                d1,
                keys,
            )
    }
}

proof fn lemma_step_witness(
    c0: CpuState,
    m0: Seq<u8>,
    d0: Seq<bool>,
    keys: Seq<bool>,
    rnd: u8,
    c1: CpuState,
    m1: Seq<u8>,
    d1: Seq<bool>,
)
    requires
        (c1, m1, d1) == step(c0, m0, d0, keys, rnd),
    ensures
        step_rel(c0, m0, d0, c1, m1, d1, keys),
{
}

/// The CPU: registers, index register, program counter, stack and timers.
pub struct CPU {
    /// The 16 general registers V0..VF; VF doubles as the flag register.
    pub v: [u8; 16],
    /// The index register I.
    pub i: u16,
    /// The program counter.
    pub pc: u16,
    /// The stack pointer: the next free stack slot.
    pub sp: u16,
    /// The 16 return-address slots.
    pub stack: [u16; 16],
    /// The delay timer.
    pub dt: u8,
    /// The sound timer.
    pub st: u8,
}

impl View for CPU {
    type V = CpuState;

    open spec fn view(&self) -> CpuState {
        CpuState {
            v: self.v@,
            i: self.i,
            pc: self.pc,
            sp: self.sp,
            stack: self.stack@,
            dt: self.dt,
            st: self.st,
        }
    }
}

impl CPU {
    /// A CPU at reset: all registers and timers zero, the program counter
    /// at the conventional load address 0x200.
    pub fn new() -> (c: CPU)
        ensures
            c@.wf(),
            c@.pc == 0x200,
            c@.i == 0,
            c@.sp == 0,
            c@.dt == 0,
            c@.st == 0,
            forall|k: int| 0 <= k < 16 ==> c@.v[k] == 0,
            forall|k: int| 0 <= k < 16 ==> c@.stack[k] == 0,
    {
        CPU { v: [0; 16], i: 0, pc: 0x200, sp: 0, stack: [0; 16], dt: 0, st: 0 }
    }

    /// Reads the two-byte instruction word at the program counter
    /// (big-endian) and advances the counter by two, modulo the address
    /// space.
    fn fetch_word(&mut self, memory: &Memory) -> (w: u16)
        requires
            old(self)@.wf(),
            memory@.len() == 4096,
        ensures
            final(self)@.wf(),
            w == spec_word(memory@, old(self)@.pc),
            final(self)@ == (CpuState { pc: pc_plus_2(old(self)@.pc), ..old(self)@ }),
    {
        let high = memory.read_byte(self.pc);
        let low = memory.read_byte((self.pc + 1) % 4096);
        let w = ((high as u16) << 8u16) | (low as u16);
        proof {
            assert(((high as u16) << 8u16) | (low as u16) == (high as u16) * 256 + (low as u16))
                by (bit_vector);
        }
        self.pc = (self.pc + 2) % 4096;
        w
    }

    /// Draws the `n`-row sprite at I with origin (Vx mod 64, Vy mod 32),
    /// clipping at the screen edges, and leaves the collision flag in VF.
    fn op_draw(&mut self, memory: &Memory, display: &mut Display, x: u8, y: u8, n: u8)
        requires
            old(self)@.wf(),
            memory@.len() == 4096,
            old(display)@.len() == 2048,
            x < 16,
            y < 16,
            n < 16,
        ensures
            final(display)@.len() == old(display)@.len(),
            final(self)@ == (CpuState {
                v: old(self)@.v.update(
                    15,
                    if draw_rows(
                        old(display)@,
                        memory@,
                        old(self)@.i,
                        (old(self)@.v[x as int] % 64) as int,
                        (old(self)@.v[y as int] % 32) as int,
                        n as int,
                    ).1 {
                        1u8
                    } else {
                        0u8
                    },
                ),
                ..old(self)@
            }),
            final(display)@ == draw_rows(
                old(display)@,
                memory@,
                old(self)@.i,
                (old(self)@.v[x as int] % 64) as int,
                (old(self)@.v[y as int] % 32) as int,
                n as int,
            ).0,
    {
        let ghost cf = self@;
        let ghost m0 = memory@;
        let ghost d0 = display@;
        let xpos = self.v[x as usize] % 64;
        let ypos = self.v[y as usize] % 32;
        let mut hit = false;
        let mut row: u8 = 0;
        while row < n
            invariant
                cf == self@,
                m0 == memory@,
                cf.wf(),
                m0.len() == 4096,
                d0.len() == 2048,
                row <= n,
                n < 16,
                x < 16,
                y < 16,
                xpos == cf.v[x as int] % 64,
                ypos == cf.v[y as int] % 32,
                display@.len() == d0.len(),
                display@ == draw_rows(d0, m0, cf.i, xpos as int, ypos as int, row as int).0,
                hit == draw_rows(d0, m0, cf.i, xpos as int, ypos as int, row as int).1,
            decreases n - row,
        {
            let ghost before_row = draw_rows(d0, m0, cf.i, xpos as int, ypos as int, row as int);
            if ypos + row < 32 {
                let sprite_byte = memory.read_byte((self.i + row as u16) % 4096);
                let mut col: u8 = 0;
                while col < 8
                    invariant
                        cf == self@,
                        m0 == memory@,
                        cf.wf(),
                        m0.len() == 4096,
                        d0.len() == 2048,
                        col <= 8,
                        row < n,
                        n < 16,
                        xpos < 64,
                        (ypos as int) + (row as int) < 32,
                        sprite_byte == m0[((cf.i as int) + (row as int)) % 4096],
                        before_row == draw_rows(d0, m0, cf.i, xpos as int, ypos as int, row as int),
                        display@.len() == d0.len(),
                        display@ == draw_cols(
                            before_row.0,
                            sprite_byte,
                            xpos as int,
                            ypos as int + row as int,
                            col as int,
                        ).0,
                        hit == (before_row.1 || draw_cols(
                            before_row.0,
                            sprite_byte,
                            xpos as int,
                            ypos as int + row as int,
                            col as int,
                        ).1),
                    decreases 8 - col,
                {
                    if xpos + col < 64 {
                        if (sprite_byte >> (7 - col)) & 1 == 1 {
                            let p: u16 = (ypos as u16 + row as u16) * 64 + (xpos as u16
                                + col as u16);
                            let lit = display.get_pixel(p);
                            if lit {
                                hit = true;
                            }
                            display.set_pixel(p, !lit);
                        }
                    }
                    col = col + 1;
                }
            }
            proof {
                assert(draw_rows(d0, m0, cf.i, xpos as int, ypos as int, row as int + 1).0
                    == display@);
                assert(draw_rows(d0, m0, cf.i, xpos as int, ypos as int, row as int + 1).1 == hit);
            }
            row = row + 1;
        }
        self.v[15] = if hit {
            1
        } else {
            0
        };
    }

    /// Stores V0..Vx to memory at I, I+1, ... (each address modulo 4096).
    fn op_store_regs(&self, memory: &mut Memory, x: u8)
        requires
            self@.wf(),
            old(memory)@.len() == 4096,
            x < 16,
        ensures
            final(memory)@.len() == old(memory)@.len(),
            final(memory)@ == store_upto(old(memory)@, self@.v, self@.i as int, (x as int) + 1),
    {
        let ghost m0 = memory@;
        let mut k: u8 = 0;
        while k <= x
            invariant
                self@.wf(),
                m0.len() == 4096,
                x < 16,
                k <= x + 1,
                memory@.len() == m0.len(),
                memory@ == store_upto(m0, self@.v, self@.i as int, k as int),
            decreases x + 1 - k,
        {
            memory.write_byte((self.i + k as u16) % 4096, self.v[k as usize]);
            k = k + 1;
        }
    }

    /// Loads V0..Vx from memory at I, I+1, ... (each address modulo 4096).
    fn op_load_regs(&mut self, memory: &Memory, x: u8)
        requires
            old(self)@.wf(),
            memory@.len() == 4096,
            x < 16,
        ensures
            final(self)@ == (CpuState {
                v: load_upto(old(self)@.v, memory@, old(self)@.i as int, (x as int) + 1),
                ..old(self)@
            }),
    {
        let ghost cf = self@;
        let mut k: u8 = 0;
        while k <= x
            invariant
                cf.wf(),
                memory@.len() == 4096,
                x < 16,
                k <= x + 1,
                self@ == (CpuState { v: load_upto(cf.v, memory@, cf.i as int, k as int), ..cf }),
            decreases x + 1 - k,
        {
            let b = memory.read_byte((self.i + k as u16) % 4096);
            self.v[k as usize] = b;
            k = k + 1;
        }
    }

    /// Runs one fetch-decode-execute step: exactly what [`step`] says,
    /// for some byte from the random source.
    pub fn execute(&mut self, memory: &mut Memory, display: &mut Display, keypad: &Keypad)
        requires
            old(self)@.wf(),
            old(memory)@.len() == 4096,
            old(display)@.len() == 2048,
            keypad@.len() == 16,
        ensures
            final(self)@.wf(),
            final(memory)@.len() == 4096,
            final(display)@.len() == 2048,
            step_rel(
                old(self)@,
                old(memory)@,
                old(display)@,
                final(self)@,
                final(memory)@,
                final(display)@,
                keypad@,
            ),
    {
        let ghost c0 = self@;
        let ghost m0 = memory@;
        let ghost d0 = display@;
        let ghost keys = keypad@;
        let w = self.fetch_word(memory);
        let instr = decode(w);
        match instr {
            Instr::Ret | Instr::Jump(_) | Instr::Call(_) | Instr::SkipEqByte(_, _) | Instr::SkipNeByte(_, _) | Instr::SkipEqReg(_, _) | Instr::SkipNeReg(_, _) | Instr::JumpV0(_) | Instr::Unknown(_) => {
                self.exec_control(instr, Ghost(c0), Ghost(m0), Ghost(d0), Ghost(keys));
            },
            Instr::LoadByte(_, _) | Instr::AddByte(_, _) | Instr::Move(_, _) | Instr::Or(_, _) | Instr::And(_, _) | Instr::Xor(_, _) | Instr::GetDelay(_) => {
                self.exec_alu_basic(instr, Ghost(c0), Ghost(m0), Ghost(d0), Ghost(keys));
            },
            Instr::Add(_, _) => {
                self.exec_add_flag(instr, Ghost(c0), Ghost(m0), Ghost(d0), Ghost(keys));
            },
            Instr::Sub(_, _) => {
                self.exec_sub_flag(instr, Ghost(c0), Ghost(m0), Ghost(d0), Ghost(keys));
            },
            Instr::SubN(_, _) => {
                self.exec_subn_flag(instr, Ghost(c0), Ghost(m0), Ghost(d0), Ghost(keys));
            },
            Instr::Shr(_, _) | Instr::Shl(_, _) => {
                self.exec_alu_shifts(instr, Ghost(c0), Ghost(m0), Ghost(d0), Ghost(keys));
            },
            Instr::Random(_, _) | Instr::SetDelay(_) | Instr::SetSound(_) => {
                self.exec_alu_effects(instr, Ghost(c0), Ghost(m0), Ghost(d0), Ghost(keys));
            },
            Instr::Cls | Instr::LoadIndex(_) | Instr::LoadFont(_) => {
                self.exec_screen_index(
                    memory,
                    display,
                    keypad,
                    instr,
                    Ghost(c0),
                    Ghost(m0),
                    Ghost(d0),
                    Ghost(keys),
                );
            },
            Instr::AddIndex(_) | Instr::SkipKey(_) | Instr::SkipNotKey(_) => {
                self.exec_addr_keys(
                    memory,
                    display,
                    keypad,
                    instr,
                    Ghost(c0),
                    Ghost(m0),
                    Ghost(d0),
                    Ghost(keys),
                );
            },
            Instr::WaitKey(_) => {
                self.exec_wait_key(
                    memory,
                    display,
                    keypad,
                    instr,
                    Ghost(c0),
                    Ghost(m0),
                    Ghost(d0),
                    Ghost(keys),
                );
            },
            Instr::Draw(_, _, _) => {
                self.exec_draw(
                    memory,
                    display,
                    keypad,
                    instr,
                    Ghost(c0),
                    Ghost(m0),
                    Ghost(d0),
                    Ghost(keys),
                );
            },
            Instr::StoreBcd(_) => {
                self.exec_store_bcd(
                    memory,
                    display,
                    keypad,
                    instr,
                    Ghost(c0),
                    Ghost(m0),
                    Ghost(d0),
                    Ghost(keys),
                );
            },
            Instr::StoreRegs(_) => {
                self.exec_store_regs(
                    memory,
                    display,
                    keypad,
                    instr,
                    Ghost(c0),
                    Ghost(m0),
                    Ghost(d0),
                    Ghost(keys),
                );
            },
            Instr::LoadRegs(_) => {
                self.exec_load_regs(
                    memory,
                    display,
                    keypad,
                    instr,
                    Ghost(c0),
                    Ghost(m0),
                    Ghost(d0),
                    Ghost(keys),
                );
            },
        }
    }

    /// The control-flow instructions: jumps, calls, returns and skips.
    #[verifier::rlimit(100)]
    fn exec_control(
        &mut self,
        instr: Instr,
        Ghost(c0): Ghost<CpuState>,
        Ghost(m0): Ghost<Seq<u8>>,
        Ghost(d0): Ghost<Seq<bool>>,
        Ghost(keys): Ghost<Seq<bool>>,
    )
        requires
            c0.wf(),
            old(self)@ == (CpuState { pc: pc_plus_2(c0.pc), ..c0 }),
            m0.len() == 4096,
            d0.len() == 2048,
            keys.len() == 16,
            instr == spec_decode(spec_word(m0, c0.pc)),
            instr matches (Instr::Ret | Instr::Jump(_) | Instr::Call(_) | Instr::SkipEqByte(_, _) | Instr::SkipNeByte(_, _) | Instr::SkipEqReg(_, _) | Instr::SkipNeReg(_, _) | Instr::JumpV0(_) | Instr::Unknown(_)),
        ensures
            final(self)@.wf(),
            step_rel(c0, m0, d0, final(self)@, m0, d0, keys),
    {
        proof {
            lemma_decode_bounds(spec_word(m0, c0.pc));
        }
        match instr {
            Instr::Ret => {
                let sp2 = (self.sp + 15) % 16;
                self.pc = self.stack[sp2 as usize];
                self.sp = sp2;
                proof {
                    lemma_step_witness(c0, m0, d0, keys, 0, self@, m0, d0);
                }
            },
            Instr::Jump(nnn) => {
                self.pc = nnn;
                proof {
                    lemma_step_witness(c0, m0, d0, keys, 0, self@, m0, d0);
                }
            },
            Instr::Call(nnn) => {
                self.stack[self.sp as usize] = self.pc;
                self.sp = (self.sp + 1) % 16;
                self.pc = nnn;
                proof {
                    lemma_step_witness(c0, m0, d0, keys, 0, self@, m0, d0);
                }
            },
            Instr::SkipEqByte(x, nn) => {
                if self.v[x as usize] == nn {
                    self.pc = (self.pc + 2) % 4096;
                }
                proof {
                    lemma_step_witness(c0, m0, d0, keys, 0, self@, m0, d0);
                }
            },
            Instr::SkipNeByte(x, nn) => {
                if self.v[x as usize] != nn {
                    self.pc = (self.pc + 2) % 4096;
                }
                proof {
                    lemma_step_witness(c0, m0, d0, keys, 0, self@, m0, d0);
                }
            },
            Instr::SkipEqReg(x, y) => {
                if self.v[x as usize] == self.v[y as usize] {
                    self.pc = (self.pc + 2) % 4096;
                }
                proof {
                    lemma_step_witness(c0, m0, d0, keys, 0, self@, m0, d0);
                }
            },
            Instr::SkipNeReg(x, y) => {
                if self.v[x as usize] != self.v[y as usize] {
                    self.pc = (self.pc + 2) % 4096;
                }
                proof {
                    lemma_step_witness(c0, m0, d0, keys, 0, self@, m0, d0);
                }
            },
            Instr::JumpV0(nnn) => {
                self.pc = (nnn + self.v[0] as u16) % 4096;
                proof {
                    lemma_step_witness(c0, m0, d0, keys, 0, self@, m0, d0);
                }
            },
            Instr::Unknown(_) => {
                proof {
                    lemma_step_witness(c0, m0, d0, keys, 0, self@, m0, d0);
                }
            },
            _ => {
                proof {
                    assert(false);
                }
            },
        }
    }

    /// The register loads, bitwise logic and the timer reads.
    #[verifier::rlimit(100)]
    fn exec_alu_basic(
        &mut self,
        instr: Instr,
        Ghost(c0): Ghost<CpuState>,
        Ghost(m0): Ghost<Seq<u8>>,
        Ghost(d0): Ghost<Seq<bool>>,
        Ghost(keys): Ghost<Seq<bool>>,
    )
        requires
            c0.wf(),
            old(self)@ == (CpuState { pc: pc_plus_2(c0.pc), ..c0 }),
            m0.len() == 4096,
            d0.len() == 2048,
            keys.len() == 16,
            instr == spec_decode(spec_word(m0, c0.pc)),
            instr matches (Instr::LoadByte(_, _) | Instr::AddByte(_, _) | Instr::Move(_, _) | Instr::Or(_, _) | Instr::And(_, _) | Instr::Xor(_, _) | Instr::GetDelay(_)),
        ensures
            final(self)@.wf(),
            step_rel(c0, m0, d0, final(self)@, m0, d0, keys),
    {
        proof {
            lemma_decode_bounds(spec_word(m0, c0.pc));
        }
        match instr {
            Instr::LoadByte(x, nn) => {
                self.v[x as usize] = nn;
                proof {
                    lemma_step_witness(c0, m0, d0, keys, 0, self@, m0, d0);
                }
            },
            Instr::AddByte(x, nn) => {
                let sum = self.v[x as usize] as u16 + nn as u16;
                self.v[x as usize] = (sum % 256) as u8;
                proof {
                    lemma_step_witness(c0, m0, d0, keys, 0, self@, m0, d0);
                }
            },
            Instr::Move(x, y) => {
                self.v[x as usize] = self.v[y as usize];
                proof {
                    lemma_step_witness(c0, m0, d0, keys, 0, self@, m0, d0);
                }
            },
            Instr::Or(x, y) => {
                self.v[x as usize] = self.v[x as usize] | self.v[y as usize];
                proof {
                    lemma_step_witness(c0, m0, d0, keys, 0, self@, m0, d0);
                }
            },
            Instr::And(x, y) => {
                self.v[x as usize] = self.v[x as usize] & self.v[y as usize];
                proof {
                    lemma_step_witness(c0, m0, d0, keys, 0, self@, m0, d0);
                }
            },
            Instr::Xor(x, y) => {
                self.v[x as usize] = self.v[x as usize] ^ self.v[y as usize];
                proof {
                    lemma_step_witness(c0, m0, d0, keys, 0, self@, m0, d0);
                }
            },
            Instr::GetDelay(x) => {
                self.v[x as usize] = self.dt;
                proof {
                    lemma_step_witness(c0, m0, d0, keys, 0, self@, m0, d0);
                }
            },
            _ => {
                proof {
                    assert(false);
                }
            },
        }
    }

    /// The flagged add: Vx + Vy with the carry in VF.
    #[verifier::rlimit(100)]
    fn exec_add_flag(
        &mut self,
        instr: Instr,
        Ghost(c0): Ghost<CpuState>,
        Ghost(m0): Ghost<Seq<u8>>,
        Ghost(d0): Ghost<Seq<bool>>,
        Ghost(keys): Ghost<Seq<bool>>,
    )
        requires
            c0.wf(),
            old(self)@ == (CpuState { pc: pc_plus_2(c0.pc), ..c0 }),
            m0.len() == 4096,
            d0.len() == 2048,
            keys.len() == 16,
            instr == spec_decode(spec_word(m0, c0.pc)),
            instr matches (Instr::Add(_, _)),
        ensures
            final(self)@.wf(),
            step_rel(c0, m0, d0, final(self)@, m0, d0, keys),
    {
        proof {
            lemma_decode_bounds(spec_word(m0, c0.pc));
        }
        match instr {
            Instr::Add(x, y) => {
                let sum = self.v[x as usize] as u16 + self.v[y as usize] as u16;
                self.v[x as usize] = (sum % 256) as u8;
                self.v[15] = if sum > 255 {
                    1
                } else {
                    0
                };
                proof {
                    lemma_step_witness(c0, m0, d0, keys, 0, self@, m0, d0);
                }
            },
            _ => {
                proof {
                    assert(false);
                }
            },
        }
    }

    /// The flagged subtraction Vx - Vy with the borrow flag in VF.
    #[verifier::rlimit(100)]
    fn exec_sub_flag(
        &mut self,
        instr: Instr,
        Ghost(c0): Ghost<CpuState>,
        Ghost(m0): Ghost<Seq<u8>>,
        Ghost(d0): Ghost<Seq<bool>>,
        Ghost(keys): Ghost<Seq<bool>>,
    )
        requires
            c0.wf(),
            old(self)@ == (CpuState { pc: pc_plus_2(c0.pc), ..c0 }),
            m0.len() == 4096,
            d0.len() == 2048,
            keys.len() == 16,
            instr == spec_decode(spec_word(m0, c0.pc)),
            instr matches (Instr::Sub(_, _)),
        ensures
            final(self)@.wf(),
            step_rel(c0, m0, d0, final(self)@, m0, d0, keys),
    {
        proof {
            lemma_decode_bounds(spec_word(m0, c0.pc));
        }
        match instr {
            Instr::Sub(x, y) => {
                let vx = self.v[x as usize];
                let vy = self.v[y as usize];
                let no_borrow: u8 = if vx >= vy {
                    1
                } else {
                    0
                };
                self.v[x as usize] = ((vx as u16 + 256 - vy as u16) % 256) as u8;
                self.v[15] = no_borrow;
                proof {
                    assert((vx as int + 256 - vy as int) % 256 == (vx as int - vy as int) % 256);
                    lemma_step_witness(c0, m0, d0, keys, 0, self@, m0, d0);
                }
            },
            _ => {
                proof {
                    assert(false);
                }
            },
        }
    }

    /// The reversed flagged subtraction Vy - Vx with the borrow flag in VF.
    #[verifier::rlimit(100)]
    fn exec_subn_flag(
        &mut self,
        instr: Instr,
        Ghost(c0): Ghost<CpuState>,
        Ghost(m0): Ghost<Seq<u8>>,
        Ghost(d0): Ghost<Seq<bool>>,
        Ghost(keys): Ghost<Seq<bool>>,
    )
        requires
            c0.wf(),
            old(self)@ == (CpuState { pc: pc_plus_2(c0.pc), ..c0 }),
            m0.len() == 4096,
            d0.len() == 2048,
            keys.len() == 16,
            instr == spec_decode(spec_word(m0, c0.pc)),
            instr matches (Instr::SubN(_, _)),
        ensures
            final(self)@.wf(),
            step_rel(c0, m0, d0, final(self)@, m0, d0, keys),
    {
        proof {
            lemma_decode_bounds(spec_word(m0, c0.pc));
        }
        match instr {
            Instr::SubN(x, y) => {
                let vx = self.v[x as usize];
                let vy = self.v[y as usize];
                let no_borrow: u8 = if vy >= vx {
                    1
                } else {
                    0
                };
                self.v[x as usize] = ((vy as u16 + 256 - vx as u16) % 256) as u8;
                self.v[15] = no_borrow;
                proof {
                    assert((vy as int + 256 - vx as int) % 256 == (vy as int - vx as int) % 256);
                    lemma_step_witness(c0, m0, d0, keys, 0, self@, m0, d0);
                }
            },
            _ => {
                proof {
                    assert(false);
                }
            },
        }
    }


    /// The two shifts, which capture the shifted-out bit in VF.
    #[verifier::rlimit(100)]
    fn exec_alu_shifts(
        &mut self,
        instr: Instr,
        Ghost(c0): Ghost<CpuState>,
        Ghost(m0): Ghost<Seq<u8>>,
        Ghost(d0): Ghost<Seq<bool>>,
        Ghost(keys): Ghost<Seq<bool>>,
    )
        requires
            c0.wf(),
            old(self)@ == (CpuState { pc: pc_plus_2(c0.pc), ..c0 }),
            m0.len() == 4096,
            d0.len() == 2048,
            keys.len() == 16,
            instr == spec_decode(spec_word(m0, c0.pc)),
            instr matches (Instr::Shr(_, _) | Instr::Shl(_, _)),
        ensures
            final(self)@.wf(),
            step_rel(c0, m0, d0, final(self)@, m0, d0, keys),
    {
        proof {
            lemma_decode_bounds(spec_word(m0, c0.pc));
        }
        match instr {
            Instr::Shr(x, _y) => {
                let vx = self.v[x as usize];
                let lsb = vx & 1;
                self.v[x as usize] = vx / 2;
                self.v[15] = lsb;
                proof {
                    lemma_step_witness(c0, m0, d0, keys, 0, self@, m0, d0);
                }
            },
            Instr::Shl(x, _y) => {
                let vx = self.v[x as usize];
                let msb = (vx & 0x80) >> 7u8;
                self.v[x as usize] = ((vx as u16 * 2) % 256) as u8;
                self.v[15] = msb;
                proof {
                    lemma_step_witness(c0, m0, d0, keys, 0, self@, m0, d0);
                }
            },
            _ => {
                proof {
                    assert(false);
                }
            },
        }
    }

    /// The random byte and the two timer writes.
    #[verifier::rlimit(100)]
    fn exec_alu_effects(
        &mut self,
        instr: Instr,
        Ghost(c0): Ghost<CpuState>,
        Ghost(m0): Ghost<Seq<u8>>,
        Ghost(d0): Ghost<Seq<bool>>,
        Ghost(keys): Ghost<Seq<bool>>,
    )
        requires
            c0.wf(),
            old(self)@ == (CpuState { pc: pc_plus_2(c0.pc), ..c0 }),
            m0.len() == 4096,
            d0.len() == 2048,
            keys.len() == 16,
            instr == spec_decode(spec_word(m0, c0.pc)),
            instr matches (Instr::Random(_, _) | Instr::SetDelay(_) | Instr::SetSound(_)),
        ensures
            final(self)@.wf(),
            step_rel(c0, m0, d0, final(self)@, m0, d0, keys),
    {
        proof {
            lemma_decode_bounds(spec_word(m0, c0.pc));
        }
        match instr {
            Instr::Random(x, nn) => {
                let r = random_byte();
                self.v[x as usize] = r & nn;
                proof {
                    lemma_step_witness(c0, m0, d0, keys, r, self@, m0, d0);
                }
            },
            Instr::SetDelay(x) => {
                self.dt = self.v[x as usize];
                proof {
                    lemma_step_witness(c0, m0, d0, keys, 0, self@, m0, d0);
                }
            },
            Instr::SetSound(x) => {
                self.st = self.v[x as usize];
                proof {
                    lemma_step_witness(c0, m0, d0, keys, 0, self@, m0, d0);
                }
            },
            _ => {
                proof {
                    assert(false);
                }
            },
        }
    }


    /// The screen clear and the index-register loads.
    #[verifier::rlimit(100)]
    fn exec_screen_index(
        &mut self,
        memory: &mut Memory,
        display: &mut Display,
        keypad: &Keypad,
        instr: Instr,
        Ghost(c0): Ghost<CpuState>,
        Ghost(m0): Ghost<Seq<u8>>,
        Ghost(d0): Ghost<Seq<bool>>,
        Ghost(keys): Ghost<Seq<bool>>,
    )
        requires
            c0.wf(),
            old(self)@ == (CpuState { pc: pc_plus_2(c0.pc), ..c0 }),
            old(memory)@ == m0,
            old(display)@ == d0,
            m0.len() == 4096,
            d0.len() == 2048,
            keypad@ == keys,
            keys.len() == 16,
            instr == spec_decode(spec_word(m0, c0.pc)),
            instr matches (Instr::Cls | Instr::LoadIndex(_) | Instr::LoadFont(_)),
        ensures
            final(self)@.wf(),
            final(memory)@.len() == 4096,
            final(display)@.len() == 2048,
            step_rel(c0, m0, d0, final(self)@, final(memory)@, final(display)@, keys),
    {
        proof {
            lemma_decode_bounds(spec_word(m0, c0.pc));
        }
        match instr {
            Instr::Cls => {
                display.clear();
                proof {
                    assert(display@ =~= Seq::new(d0.len(), |p: int| false));
                    lemma_step_witness(c0, m0, d0, keys, 0, self@, memory@, display@);
                }
            },
            Instr::LoadIndex(nnn) => {
                self.i = nnn;
                proof {
                    lemma_step_witness(c0, m0, d0, keys, 0, self@, memory@, display@);
                }
            },
            Instr::LoadFont(x) => {
                let vx = self.v[x as usize];
                let low = vx & 0xF;
                proof {
                    assert(low < 16) by (bit_vector)
                        requires
                            low == vx & 0xF,
                    ;
                }
                self.i = (low * 5) as u16;
                proof {
                    lemma_step_witness(c0, m0, d0, keys, 0, self@, memory@, display@);
                }
            },
            _ => {
                proof {
                    assert(false);
                }
            },
        }
    }

    /// The index add and the two key skips.
    #[verifier::rlimit(100)]
    fn exec_addr_keys(
        &mut self,
        memory: &mut Memory,
        display: &mut Display,
        keypad: &Keypad,
        instr: Instr,
        Ghost(c0): Ghost<CpuState>,
        Ghost(m0): Ghost<Seq<u8>>,
        Ghost(d0): Ghost<Seq<bool>>,
        Ghost(keys): Ghost<Seq<bool>>,
    )
        requires
            c0.wf(),
            old(self)@ == (CpuState { pc: pc_plus_2(c0.pc), ..c0 }),
            old(memory)@ == m0,
            old(display)@ == d0,
            m0.len() == 4096,
            d0.len() == 2048,
            keypad@ == keys,
            keys.len() == 16,
            instr == spec_decode(spec_word(m0, c0.pc)),
            instr matches (Instr::AddIndex(_) | Instr::SkipKey(_) | Instr::SkipNotKey(_)),
        ensures
            final(self)@.wf(),
            final(memory)@.len() == 4096,
            final(display)@.len() == 2048,
            step_rel(c0, m0, d0, final(self)@, final(memory)@, final(display)@, keys),
    {
        proof {
            lemma_decode_bounds(spec_word(m0, c0.pc));
        }
        match instr {
            Instr::AddIndex(x) => {
                let sum = self.i as u32 + self.v[x as usize] as u32;
                self.i = (sum % 4096) as u16;
                self.v[15] = if sum > 4095 {
                    1
                } else {
                    0
                };
                proof {
                    lemma_step_witness(c0, m0, d0, keys, 0, self@, memory@, display@);
                }
            },
            Instr::SkipKey(x) => {
                let vx = self.v[x as usize];
                let key = vx & 0xF;
                proof {
                    assert(key < 16) by (bit_vector)
                        requires
                            key == vx & 0xF,
                    ;
                }
                if keypad.is_index_pressed(key as usize) {
                    self.pc = (self.pc + 2) % 4096;
                }
                proof {
                    lemma_step_witness(c0, m0, d0, keys, 0, self@, memory@, display@);
                }
            },
            Instr::SkipNotKey(x) => {
                let vx = self.v[x as usize];
                let key = vx & 0xF;
                proof {
                    assert(key < 16) by (bit_vector)
                        requires
                            key == vx & 0xF,
                    ;
                }
                if !keypad.is_index_pressed(key as usize) {
                    self.pc = (self.pc + 2) % 4096;
                }
                proof {
                    lemma_step_witness(c0, m0, d0, keys, 0, self@, memory@, display@);
                }
            },
            _ => {
                proof {
                    assert(false);
                }
            },
        }
    }

    /// The blocking key wait.
    #[verifier::rlimit(100)]
    fn exec_wait_key(
        &mut self,
        memory: &mut Memory,
        display: &mut Display,
        keypad: &Keypad,
        instr: Instr,
        Ghost(c0): Ghost<CpuState>,
        Ghost(m0): Ghost<Seq<u8>>,
        Ghost(d0): Ghost<Seq<bool>>,
        Ghost(keys): Ghost<Seq<bool>>,
    )
        requires
            c0.wf(),
            old(self)@ == (CpuState { pc: pc_plus_2(c0.pc), ..c0 }),
            old(memory)@ == m0,
            old(display)@ == d0,
            m0.len() == 4096,
            d0.len() == 2048,
            keypad@ == keys,
            keys.len() == 16,
            instr == spec_decode(spec_word(m0, c0.pc)),
            instr matches (Instr::WaitKey(_)),
        ensures
            final(self)@.wf(),
            final(memory)@.len() == 4096,
            final(display)@.len() == 2048,
            step_rel(c0, m0, d0, final(self)@, final(memory)@, final(display)@, keys),
    {
        proof {
            lemma_decode_bounds(spec_word(m0, c0.pc));
        }
        match instr {
            Instr::WaitKey(x) => {
                let fk = find_first_key(keypad);
                if fk < 16 {
                    self.v[x as usize] = fk as u8;
                } else {
                    self.pc = (self.pc + 4094) % 4096;
                }
                proof {
                    lemma_step_witness(c0, m0, d0, keys, 0, self@, memory@, display@);
                }
            },
            _ => {
                proof {
                    assert(false);
                }
            },
        }
    }

    /// The sprite draw.
    #[verifier::rlimit(100)]
    fn exec_draw(
        &mut self,
        memory: &mut Memory,
        display: &mut Display,
        keypad: &Keypad,
        instr: Instr,
        Ghost(c0): Ghost<CpuState>,
        Ghost(m0): Ghost<Seq<u8>>,
        Ghost(d0): Ghost<Seq<bool>>,
        Ghost(keys): Ghost<Seq<bool>>,
    )
        requires
            c0.wf(),
            old(self)@ == (CpuState { pc: pc_plus_2(c0.pc), ..c0 }),
            old(memory)@ == m0,
            old(display)@ == d0,
            m0.len() == 4096,
            d0.len() == 2048,
            keypad@ == keys,
            keys.len() == 16,
            instr == spec_decode(spec_word(m0, c0.pc)),
            instr matches (Instr::Draw(_, _, _)),
        ensures
            final(self)@.wf(),
            final(memory)@.len() == 4096,
            final(display)@.len() == 2048,
            step_rel(c0, m0, d0, final(self)@, final(memory)@, final(display)@, keys),
    {
        proof {
            lemma_decode_bounds(spec_word(m0, c0.pc));
        }
        match instr {
            Instr::Draw(x, y, n) => {
                self.op_draw(memory, display, x, y, n);
                proof {
                    lemma_step_witness(c0, m0, d0, keys, 0, self@, memory@, display@);
                }
            },
            _ => {
                proof {
                    assert(false);
                }
            },
        }
    }

    /// The decimal-digit store.
    #[verifier::rlimit(100)]
    fn exec_store_bcd(
        &mut self,
        memory: &mut Memory,
        display: &mut Display,
        keypad: &Keypad,
        instr: Instr,
        Ghost(c0): Ghost<CpuState>,
        Ghost(m0): Ghost<Seq<u8>>,
        Ghost(d0): Ghost<Seq<bool>>,
        Ghost(keys): Ghost<Seq<bool>>,
    )
        requires
            c0.wf(),
            old(self)@ == (CpuState { pc: pc_plus_2(c0.pc), ..c0 }),
            old(memory)@ == m0,
            old(display)@ == d0,
            m0.len() == 4096,
            d0.len() == 2048,
            keypad@ == keys,
            keys.len() == 16,
            instr == spec_decode(spec_word(m0, c0.pc)),
            instr matches (Instr::StoreBcd(_)),
        ensures
            final(self)@.wf(),
            final(memory)@.len() == 4096,
            final(display)@.len() == 2048,
            step_rel(c0, m0, d0, final(self)@, final(memory)@, final(display)@, keys),
    {
        proof {
            lemma_decode_bounds(spec_word(m0, c0.pc));
        }
        match instr {
            Instr::StoreBcd(x) => {
                let vx = self.v[x as usize];
                memory.write_byte((self.i + 2) % 4096, vx % 10);
                memory.write_byte((self.i + 1) % 4096, (vx / 10) % 10);
                memory.write_byte(self.i, vx / 100);
                proof {
                    lemma_step_witness(c0, m0, d0, keys, 0, self@, memory@, display@);
                }
            },
            _ => {
                proof {
                    assert(false);
                }
            },
        }
    }

    /// The register block store.
    #[verifier::rlimit(100)]
    fn exec_store_regs(
        &mut self,
        memory: &mut Memory,
        display: &mut Display,
        keypad: &Keypad,
        instr: Instr,
        Ghost(c0): Ghost<CpuState>,
        Ghost(m0): Ghost<Seq<u8>>,
        Ghost(d0): Ghost<Seq<bool>>,
        Ghost(keys): Ghost<Seq<bool>>,
    )
        requires
            c0.wf(),
            old(self)@ == (CpuState { pc: pc_plus_2(c0.pc), ..c0 }),
            old(memory)@ == m0,
            old(display)@ == d0,
            m0.len() == 4096,
            d0.len() == 2048,
            keypad@ == keys,
            keys.len() == 16,
            instr == spec_decode(spec_word(m0, c0.pc)),
            instr matches (Instr::StoreRegs(_)),
        ensures
            final(self)@.wf(),
            final(memory)@.len() == 4096,
            final(display)@.len() == 2048,
            step_rel(c0, m0, d0, final(self)@, final(memory)@, final(display)@, keys),
    {
        proof {
            lemma_decode_bounds(spec_word(m0, c0.pc));
        }
        match instr {
            Instr::StoreRegs(x) => {
                self.op_store_regs(memory, x);
                proof {
                    lemma_step_witness(c0, m0, d0, keys, 0, self@, memory@, display@);
                }
            },
            _ => {
                proof {
                    assert(false);
                }
            },
        }
    }

    /// The register block load.
    #[verifier::rlimit(100)]
    fn exec_load_regs(
        &mut self,
        memory: &mut Memory,
        display: &mut Display,
        keypad: &Keypad,
        instr: Instr,
        Ghost(c0): Ghost<CpuState>,
        Ghost(m0): Ghost<Seq<u8>>,
        Ghost(d0): Ghost<Seq<bool>>,
        Ghost(keys): Ghost<Seq<bool>>,
    )
        requires
            c0.wf(),
            old(self)@ == (CpuState { pc: pc_plus_2(c0.pc), ..c0 }),
            old(memory)@ == m0,
            old(display)@ == d0,
            m0.len() == 4096,
            d0.len() == 2048,
            keypad@ == keys,
            keys.len() == 16,
            instr == spec_decode(spec_word(m0, c0.pc)),
            instr matches (Instr::LoadRegs(_)),
        ensures
            final(self)@.wf(),
            final(memory)@.len() == 4096,
            final(display)@.len() == 2048,
            step_rel(c0, m0, d0, final(self)@, final(memory)@, final(display)@, keys),
    {
        proof {
            lemma_decode_bounds(spec_word(m0, c0.pc));
        }
        match instr {
            Instr::LoadRegs(x) => {
                self.op_load_regs(memory, x);
                proof {
                    lemma_step_witness(c0, m0, d0, keys, 0, self@, memory@, display@);
                }
            },
            _ => {
                proof {
                    assert(false);
                }
            },
        }
    }





    /// One display frame's worth of work: exactly eleven instruction
    /// steps, then each timer counts down by one if it is above zero.
    pub fn tick(&mut self, memory: &mut Memory, display: &mut Display, keypad: &Keypad)
        requires
            old(self)@.wf(),
            old(memory)@.len() == 4096,
            old(display)@.len() == 2048,
            keypad@.len() == 16,
        ensures
            final(self)@.wf(),
            final(memory)@.len() == 4096,
            final(display)@.len() == 2048,
            exists|c: CpuState, m: Seq<u8>, d: Seq<bool>|
                steps_rel(old(self)@, old(memory)@, old(display)@, c, m, d, keypad@, 11)
                    && final(memory)@ == m && final(display)@ == d && final(self)@ == (CpuState {
                    dt: dec_timer(c.dt),
                    st: dec_timer(c.st),
                    ..c
                }),
    {
        let ghost c0 = self@;
        let ghost m0 = memory@;
        let ghost d0 = display@;
        let ghost keys = keypad@;
        let mut count: u8 = 0;
        while count < 11
            invariant
                count <= 11,
                self@.wf(),
                memory@.len() == 4096,
                display@.len() == 2048,
                keys == keypad@,
                keys.len() == 16,
                steps_rel(c0, m0, d0, self@, memory@, display@, keys, count as nat),
            decreases 11 - count,
        {
            let ghost cp = self@;
            let ghost mp = memory@;
            let ghost dp = display@;
            self.execute(memory, display, keypad);
            proof {
                assert(steps_rel(c0, m0, d0, self@, memory@, display@, keys, (count + 1) as nat))
                    by {
                    assert(steps_rel(c0, m0, d0, cp, mp, dp, keys, count as nat) && step_rel(
                        cp,
                        mp,
                        dp,
                        self@,
                        memory@,
                        display@,
                        keys,
                    ));
                };
            }
            count = count + 1;
        }
        let ghost cmid = self@;
        if self.dt > 0 {
            self.dt = self.dt - 1;
        }
        if self.st > 0 {
            self.st = self.st - 1;
        }
        proof {
            assert(self@ == (CpuState { dt: dec_timer(cmid.dt), st: dec_timer(cmid.st), ..cmid }));
        }
    }
}

/// The lowest pressed key value, or 16 when no key is pressed.
fn find_first_key(keypad: &Keypad) -> (r: usize)
    requires
        keypad@.len() == 16,
    ensures
        r == first_key(keypad@, 0),
{
    let mut found = false;
    let mut val: usize = 16;
    let mut k: usize = 0;
    while k < 16
        invariant
            k <= 16,
            keypad@.len() == 16,
            !found ==> val == 16 && first_key(keypad@, 0) == first_key(keypad@, k as int),
            found ==> (val < 16 && first_key(keypad@, 0) == val),
        decreases 16 - k,
    {
        if !found && keypad.is_index_pressed(k) {
            found = true;
            val = k;
        }
        k = k + 1;
    }
    val
}

/// Relies on rand::random: one byte from the thread-local random source.
/// Nothing is assumed of the value.
#[verifier::external_body]
fn random_byte() -> u8 {
    rand::random::<u8>()
}

} // verus!
