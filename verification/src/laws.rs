//! General laws of the execution core, each proved against the machine
//! model [`step`] or the specification functions it is built from.

use vstd::prelude::*;

use crate::cpu::CpuState;
use crate::cpu::Instr;
use crate::cpu::lemma_decode_bounds;
use crate::cpu::draw_cols;
use crate::cpu::draw_rows;
use crate::cpu::load_upto;
use crate::cpu::pc_plus_2;
use crate::cpu::spec_decode;
use crate::cpu::spec_word;
use crate::cpu::step;
use crate::cpu::sprite_bit;
use crate::cpu::store_upto;
use vstd::arithmetic::div_mod::lemma_mod_add_multiples_vanish;
use vstd::arithmetic::div_mod::lemma_mod_sub_multiples_vanish;
use vstd::arithmetic::div_mod::lemma_small_mod;

verus! {

/// The flagged add: for all 8-bit values a = Vx, b = Vy, the instruction
/// `ADD Vx, Vy` sets VF to 1 exactly when a + b > 255, and (for x other
/// than the flag register) leaves (a + b) mod 256 in Vx.
pub proof fn lemma_add_carry(
    s: CpuState,
    mem: Seq<u8>,
    disp: Seq<bool>,
    keys: Seq<bool>,
    rnd: u8,
    x: u8,
    y: u8,
)
    requires
        s.wf(),
        spec_decode(spec_word(mem, s.pc)) == Instr::Add(x, y),
    ensures
        step(s, mem, disp, keys, rnd).0.v[15] == if s.v[x as int] + s.v[y as int] > 255 {
            1u8
        } else {
            0u8
        },
        x != 15 ==> step(s, mem, disp, keys, rnd).0.v[x as int] == ((s.v[x as int]
            + s.v[y as int]) % 256) as u8,
{
    lemma_decode_bounds(spec_word(mem, s.pc));
}

/// The flagged subtraction: for all 8-bit values a = Vx, b = Vy, the
/// instruction `SUB Vx, Vy` sets VF to 1 exactly when a >= b (no borrow),
/// and (for x other than the flag register) leaves (a - b) mod 256 in Vx.
pub proof fn lemma_sub_borrow(
    s: CpuState,
    mem: Seq<u8>,
    disp: Seq<bool>,
    keys: Seq<bool>,
    rnd: u8,
    x: u8,
    y: u8,
)
    requires
        s.wf(),
        spec_decode(spec_word(mem, s.pc)) == Instr::Sub(x, y),
    ensures
        step(s, mem, disp, keys, rnd).0.v[15] == if s.v[x as int] >= s.v[y as int] {
            1u8
        } else {
            0u8
        },
        x != 15 ==> step(s, mem, disp, keys, rnd).0.v[x as int] == ((s.v[x as int]
            - s.v[y as int]) % 256) as u8,
{
    lemma_decode_bounds(spec_word(mem, s.pc));
}

/// The right shift captures the pre-shift least significant bit of Vx in
/// VF exactly, whatever the shifted result is.
pub proof fn lemma_shr_captures_lsb(
    s: CpuState,
    mem: Seq<u8>,
    disp: Seq<bool>,
    keys: Seq<bool>,
    rnd: u8,
    x: u8,
    y: u8,
)
    requires
        s.wf(),
        spec_decode(spec_word(mem, s.pc)) == Instr::Shr(x, y),
    ensures
        step(s, mem, disp, keys, rnd).0.v[15] == s.v[x as int] & 1,
        x != 15 ==> step(s, mem, disp, keys, rnd).0.v[x as int] == s.v[x as int] / 2,
{
    lemma_decode_bounds(spec_word(mem, s.pc));
}

/// The left shift captures the pre-shift most significant bit of Vx in
/// VF exactly, whatever the shifted result is.
pub proof fn lemma_shl_captures_msb(
    s: CpuState,
    mem: Seq<u8>,
    disp: Seq<bool>,
    keys: Seq<bool>,
    rnd: u8,
    x: u8,
    y: u8,
)
    requires
        s.wf(),
        spec_decode(spec_word(mem, s.pc)) == Instr::Shl(x, y),
    ensures
        step(s, mem, disp, keys, rnd).0.v[15] == (s.v[x as int] & 0x80) >> 7u8,
        x != 15 ==> step(s, mem, disp, keys, rnd).0.v[x as int] == ((s.v[x as int] * 2)
            % 256) as u8,
{
    lemma_decode_bounds(spec_word(mem, s.pc));
}

/// A call followed by a return restores the program counter to the
/// instruction immediately after the call, and the stack pointer to its
/// value before the call.
pub proof fn lemma_call_ret(
    s: CpuState,
    mem: Seq<u8>,
    disp: Seq<bool>,
    keys: Seq<bool>,
    r1: u8,
    r2: u8,
    nnn: u16,
)
    requires
        s.wf(),
        spec_decode(spec_word(mem, s.pc)) == Instr::Call(nnn),
        spec_decode(spec_word(step(s, mem, disp, keys, r1).1, nnn)) == Instr::Ret,
    ensures
        ({
            let mid = step(s, mem, disp, keys, r1);
            let fin = step(mid.0, mid.1, mid.2, keys, r2);
            fin.0.pc == pc_plus_2(s.pc) && fin.0.sp == s.sp
        }),
{
    lemma_decode_bounds(spec_word(mem, s.pc));
    let mid = step(s, mem, disp, keys, r1);
    assert(mid.0.sp == ((s.sp as int) + 1) % 16);
    assert(((s.sp as int) + 1) % 16 < 16);
    let sp2 = ((((s.sp as int) + 1) % 16) + 15) % 16;
    assert(sp2 == (16 + (s.sp as int)) % 16) by {
        if s.sp as int + 1 < 16 {
            lemma_small_mod((s.sp + 1) as nat, 16);
        } else {
            assert((s.sp as int + 1) % 16 == 0) by {
                lemma_mod_sub_multiples_vanish(s.sp as int + 1, 16);
                lemma_small_mod(0, 16);
            }
        }
    }
    assert((16 + (s.sp as int)) % 16 == s.sp as int) by {
        lemma_mod_add_multiples_vanish(s.sp as int, 16);
        lemma_small_mod(s.sp as nat, 16);
    }
}

/// One machine step changes the delay timer only through `LD DT, Vx` and
/// the sound timer only through `LD ST, Vx`: every other instruction
/// leaves both exactly as they were.
pub proof fn lemma_step_preserves_timers(
    s: CpuState,
    mem: Seq<u8>,
    disp: Seq<bool>,
    keys: Seq<bool>,
    rnd: u8,
)
    ensures
        !(spec_decode(spec_word(mem, s.pc)) matches Instr::SetDelay(_)) ==> step(
            s,
            mem,
            disp,
            keys,
            rnd,
        ).0.dt == s.dt,
        !(spec_decode(spec_word(mem, s.pc)) matches Instr::SetSound(_)) ==> step(
            s,
            mem,
            disp,
            keys,
            rnd,
        ).0.st == s.st,
{
}

/// Reading back through [`store_upto`]: the byte stored for register `k`
/// is found again at address (i + k) mod 4096, for every k below `cnt`.
proof fn lemma_store_upto_reads(mem: Seq<u8>, v: Seq<u8>, i: int, cnt: int, k: int)
    requires
        mem.len() == 4096,
        0 <= i < 4096,
        0 <= k < cnt <= 16,
    ensures
        store_upto(mem, v, i, cnt)[(i + k) % 4096] == v[k],
    decreases cnt,
{
    lemma_store_upto_len(mem, v, i, cnt - 1);
    if k == cnt - 1 {
    } else {
        lemma_wrap_distinct(i, k, cnt - 1);
        lemma_store_upto_reads(mem, v, i, cnt - 1, k);
    }
}

/// Storing any number of registers leaves the size of memory unchanged.
proof fn lemma_store_upto_len(mem: Seq<u8>, v: Seq<u8>, i: int, cnt: int)
    requires
        mem.len() == 4096,
    ensures
        store_upto(mem, v, i, cnt).len() == 4096,
    decreases cnt,
{
    if cnt > 0 {
        lemma_store_upto_len(mem, v, i, cnt - 1);
    }
}

/// Addresses (i + a) mod 4096 and (i + b) mod 4096 differ for distinct
/// small offsets a and b.
proof fn lemma_wrap_distinct(i: int, a: int, b: int)
    requires
        0 <= i < 4096,
        0 <= a < 16,
        0 <= b < 16,
        a != b,
    ensures
        (i + a) % 4096 != (i + b) % 4096,
{
    lemma_wrap_small(i + a);
    lemma_wrap_small(i + b);
}

/// For sums below twice the address space, the wrap is a single
/// subtraction.
proof fn lemma_wrap_small(z: int)
    requires
        0 <= z < 8192,
    ensures
        z % 4096 == if z < 4096 {
            z
        } else {
            z - 4096
        },
{
    if z < 4096 {
        lemma_small_mod(z as nat, 4096);
    } else {
        lemma_mod_sub_multiples_vanish(z, 4096);
        lemma_small_mod((z - 4096) as nat, 4096);
    }
}

/// What [`load_upto`] yields: registers below `cnt` come from memory,
/// the rest keep their old values.
proof fn lemma_load_upto_reads(v: Seq<u8>, mem: Seq<u8>, i: int, cnt: int)
    requires
        v.len() == 16,
        0 <= cnt <= 16,
    ensures
        load_upto(v, mem, i, cnt).len() == 16,
        forall|k: int|
            0 <= k < cnt ==> load_upto(v, mem, i, cnt)[k] == mem[(i + k) % 4096],
        forall|k: int| cnt <= k < 16 ==> load_upto(v, mem, i, cnt)[k] == v[k],
    decreases cnt,
{
    if cnt > 0 {
        lemma_load_upto_reads(v, mem, i, cnt - 1);
    }
}

/// Storing registers V0..Vx to memory at I and loading them back returns
/// every one of them unchanged: the load inverts the store.
pub proof fn lemma_store_load_roundtrip(mem: Seq<u8>, v: Seq<u8>, i: int, x: int)
    requires
        mem.len() == 4096,
        v.len() == 16,
        0 <= i < 4096,
        0 <= x < 16,
    ensures
        load_upto(v, store_upto(mem, v, i, x + 1), i, x + 1) == v,
{
    let stored = store_upto(mem, v, i, x + 1);
    assert forall|k: int| 0 <= k < x + 1 implies stored[(i + k) % 4096] == v[k] by {
        lemma_store_upto_reads(mem, v, i, x + 1, k);
    }
    lemma_load_upto_reads(v, stored, i, x + 1);
    assert(load_upto(v, stored, i, x + 1) =~= v);
}

/// Whether pixel `p` is one of the cells an `rows`-row sprite drawn at
/// (`xpos`, `ypos`) can reach after clipping at the screen edges.
pub open spec fn sprite_target(xpos: int, ypos: int, rows: int, p: int) -> bool {
    exists|r: int, c: int|
        #![trigger (ypos + r) * 64 + xpos + c]
        0 <= r < rows && ypos + r < 32 && 0 <= c < 8 && xpos + c < 64 && p == (ypos + r) * 64
            + xpos + c
}

/// What one sprite row does: each surviving bit lands as an exclusive or
/// on its own pixel, every other pixel keeps its value, and the collision
/// flag is set exactly when some surviving set bit meets a lit pixel.
/// Bits that would land past column 63 are clipped and change nothing.
proof fn lemma_draw_cols_spec(disp: Seq<bool>, b: u8, xpos: int, yrow: int, cols: int)
    requires
        disp.len() == 2048,
        0 <= xpos < 64,
        0 <= yrow < 32,
        0 <= cols <= 8,
    ensures
        ({
            let out = draw_cols(disp, b, xpos, yrow, cols);
            &&& out.0.len() == 2048
            &&& forall|c: int|
                0 <= c < cols && xpos + c < 64 ==> out.0[yrow * 64 + xpos + c] == (disp[yrow * 64
                    + xpos + c] != sprite_bit(b, c))
            &&& forall|p: int|
                0 <= p < 2048 && (p < yrow * 64 + xpos || p >= yrow * 64 + xpos + cols || p >= yrow
                    * 64 + 64) ==> out.0[p] == disp[p]
            &&& out.1 == exists|c: int|
                0 <= c < cols && xpos + c < 64 && sprite_bit(b, c) && disp[yrow * 64 + xpos + c]
        }),
    decreases cols,
{
    if cols > 0 {
        lemma_draw_cols_spec(disp, b, xpos, yrow, cols - 1);
        let prev = draw_cols(disp, b, xpos, yrow, cols - 1);
        let out = draw_cols(disp, b, xpos, yrow, cols);
        let c = cols - 1;
        let p = yrow * 64 + xpos + c;
        if xpos + c < 64 && sprite_bit(b, c) {
            assert(prev.0[p] == disp[p]);
            if disp[p] {
                assert(0 <= c < cols && xpos + c < 64 && sprite_bit(b, c) && disp[yrow * 64 + xpos
                    + c]);
            } else {
                assert(out.1 == prev.1);
                assert(out.1 == (exists|c2: int|
                    0 <= c2 < cols && xpos + c2 < 64 && sprite_bit(b, c2) && disp[yrow * 64 + xpos
                        + c2])) by {
                    if exists|c2: int|
                        0 <= c2 < cols && xpos + c2 < 64 && sprite_bit(b, c2) && disp[yrow * 64
                            + xpos + c2] {
                        let c2 = choose|c2: int|
                            0 <= c2 < cols && xpos + c2 < 64 && sprite_bit(b, c2) && disp[yrow * 64
                                + xpos + c2];
                        assert(c2 != c);
                        assert(0 <= c2 < cols - 1 && xpos + c2 < 64 && sprite_bit(b, c2)
                            && disp[yrow * 64 + xpos + c2]);
                    }
                }
            }
        } else {
            assert(out == prev);
            assert(out.1 == (exists|c2: int|
                0 <= c2 < cols && xpos + c2 < 64 && sprite_bit(b, c2) && disp[yrow * 64 + xpos
                    + c2])) by {
                if exists|c2: int|
                    0 <= c2 < cols && xpos + c2 < 64 && sprite_bit(b, c2) && disp[yrow * 64 + xpos
                        + c2] {
                    let c2 = choose|c2: int|
                        0 <= c2 < cols && xpos + c2 < 64 && sprite_bit(b, c2) && disp[yrow * 64
                            + xpos + c2];
                    assert(c2 != c);
                    assert(0 <= c2 < cols - 1 && xpos + c2 < 64 && sprite_bit(b, c2) && disp[yrow
                        * 64 + xpos + c2]);
                }
            }
        }
    }
}

/// What a whole sprite draw does, clipping included: a sprite row that
/// would land past row 31 and a bit that would land past column 63 are
/// dropped; every surviving set bit toggles exactly its own pixel; every
/// pixel outside the surviving cells keeps its value; and the collision
/// flag is set exactly when some surviving set bit meets a pixel that was
/// lit before the draw. Clipped cells never touch the collision flag.
pub proof fn lemma_draw_rows_spec(
    disp: Seq<bool>,
    mem: Seq<u8>,
    i: u16,
    xpos: int,
    ypos: int,
    rows: int,
)
    requires
        disp.len() == 2048,
        mem.len() == 4096,
        0 <= xpos < 64,
        0 <= ypos < 32,
        0 <= rows <= 16,
    ensures
        ({
            let out = draw_rows(disp, mem, i, xpos, ypos, rows);
            &&& out.0.len() == 2048
            &&& forall|r: int, c: int|
                #![trigger sprite_bit(mem[((i as int) + r) % 4096], c)]
                0 <= r < rows && ypos + r < 32 && 0 <= c < 8 && xpos + c < 64 ==> out.0[(ypos + r)
                    * 64 + xpos + c] == (disp[(ypos + r) * 64 + xpos + c] != sprite_bit(
                    mem[((i as int) + r) % 4096],
                    c,
                ))
            &&& forall|p: int|
                0 <= p < 2048 && !sprite_target(xpos, ypos, rows, p) ==> out.0[p] == disp[p]
            &&& out.1 == exists|r: int, c: int|
                #![trigger sprite_bit(mem[((i as int) + r) % 4096], c)]
                0 <= r < rows && ypos + r < 32 && 0 <= c < 8 && xpos + c < 64 && sprite_bit(
                    mem[((i as int) + r) % 4096],
                    c,
                ) && disp[(ypos + r) * 64 + xpos + c]
        }),
    decreases rows,
{
    if rows > 0 {
        lemma_draw_rows_spec(disp, mem, i, xpos, ypos, rows - 1);
        let prev = draw_rows(disp, mem, i, xpos, ypos, rows - 1);
        let out = draw_rows(disp, mem, i, xpos, ypos, rows);
        let r = rows - 1;
        let pr = (exists|r2: int, c2: int|
            #![trigger sprite_bit(mem[((i as int) + r2) % 4096], c2)]
            0 <= r2 < rows - 1 && ypos + r2 < 32 && 0 <= c2 < 8 && xpos + c2 < 64 && sprite_bit(
                mem[((i as int) + r2) % 4096],
                c2,
            ) && disp[(ypos + r2) * 64 + xpos + c2]);
        let cur = (exists|r2: int, c2: int|
            #![trigger sprite_bit(mem[((i as int) + r2) % 4096], c2)]
            0 <= r2 < rows && ypos + r2 < 32 && 0 <= c2 < 8 && xpos + c2 < 64 && sprite_bit(
                mem[((i as int) + r2) % 4096],
                c2,
            ) && disp[(ypos + r2) * 64 + xpos + c2]);
        assert(forall|p: int|
            0 <= p < 2048 && !sprite_target(xpos, ypos, rows, p) ==> !sprite_target(
                xpos,
                ypos,
                rows - 1,
                p,
            ));
        if ypos + r >= 32 {
            assert(out == prev);
            assert(pr == cur) by {
                if cur {
                    let (r2, c2) = choose|r2: int, c2: int|
                        #![trigger sprite_bit(mem[((i as int) + r2) % 4096], c2)]
                        0 <= r2 < rows && ypos + r2 < 32 && 0 <= c2 < 8 && xpos + c2 < 64
                            && sprite_bit(mem[((i as int) + r2) % 4096], c2) && disp[(ypos + r2)
                            * 64 + xpos + c2];
                    assert(r2 != r);
                }
            }
        } else {
            let b = mem[((i as int) + r) % 4096];
            let yr = ypos + r;
            lemma_draw_cols_spec(prev.0, b, xpos, yr, 8);
            let rowout = draw_cols(prev.0, b, xpos, yr, 8);
            // a pixel of the newly drawn row was untouched by the earlier rows
            assert(forall|c: int|
                #![trigger sprite_target(xpos, ypos, rows - 1, yr * 64 + xpos + c)]
                0 <= c < 8 && xpos + c < 64 ==> !sprite_target(xpos, ypos, rows - 1, yr * 64 + xpos
                    + c));
            assert(forall|c: int|
                #![trigger prev.0[yr * 64 + xpos + c]]
                0 <= c < 8 && xpos + c < 64 ==> prev.0[yr * 64 + xpos + c] == disp[yr * 64 + xpos
                    + c]);
            assert(out.0 == rowout.0);
            assert(out.1 == (prev.1 || rowout.1));
            assert forall|p: int|
                0 <= p < 2048 && !sprite_target(xpos, ypos, rows, p) implies out.0[p]
                == disp[p] by {
                if yr * 64 + xpos <= p < yr * 64 + xpos + 8 && p < yr * 64 + 64 {
                    let c = p - (yr * 64 + xpos);
                    assert(0 <= rows - 1 < rows && ypos + (rows - 1) < 32 && 0 <= c < 8 && xpos + c
                        < 64 && p == (ypos + (rows - 1)) * 64 + xpos + c);
                    assert(sprite_target(xpos, ypos, rows, p));
                } else {
                    assert(rowout.0[p] == prev.0[p]);
                }
            }
            assert(forall|r2: int, c2: int|
                #![trigger sprite_bit(mem[((i as int) + r2) % 4096], c2)]
                0 <= r2 < rows && ypos + r2 < 32 && 0 <= c2 < 8 && xpos + c2 < 64 ==> out.0[(ypos
                    + r2) * 64 + xpos + c2] == (disp[(ypos + r2) * 64 + xpos + c2] != sprite_bit(
                    mem[((i as int) + r2) % 4096],
                    c2,
                ))) by {
                assert(forall|r2: int, c2: int|
                    #![trigger (ypos + r2) * 64 + xpos + c2]
                    0 <= r2 < rows - 1 && ypos + r2 < 32 && 0 <= c2 < 8 && xpos + c2 < 64
                        ==> (ypos + r2) * 64 + xpos + c2 < yr * 64 + xpos);
            }
            assert(out.1 == cur) by {
                if out.1 {
                    if prev.1 {
                        let (r2, c2) = choose|r2: int, c2: int|
                            #![trigger sprite_bit(mem[((i as int) + r2) % 4096], c2)]
                            0 <= r2 < rows - 1 && ypos + r2 < 32 && 0 <= c2 < 8 && xpos + c2 < 64
                                && sprite_bit(mem[((i as int) + r2) % 4096], c2) && disp[(ypos
                                + r2) * 64 + xpos + c2];
                        assert(0 <= r2 < rows && ypos + r2 < 32 && 0 <= c2 < 8 && xpos + c2 < 64
                            && sprite_bit(mem[((i as int) + r2) % 4096], c2) && disp[(ypos + r2)
                            * 64 + xpos + c2]);
                    } else {
                        let c2 = choose|c2: int|
                            0 <= c2 < 8 && xpos + c2 < 64 && sprite_bit(b, c2) && prev.0[yr * 64
                                + xpos + c2];
                        assert(disp[(ypos + r) * 64 + xpos + c2]);
                        assert(0 <= r < rows && ypos + r < 32 && 0 <= c2 < 8 && xpos + c2 < 64
                            && sprite_bit(mem[((i as int) + r) % 4096], c2) && disp[(ypos + r) * 64
                            + xpos + c2]);
                    }
                }
                if cur {
                    let (r2, c2) = choose|r2: int, c2: int|
                        #![trigger sprite_bit(mem[((i as int) + r2) % 4096], c2)]
                        0 <= r2 < rows && ypos + r2 < 32 && 0 <= c2 < 8 && xpos + c2 < 64
                            && sprite_bit(mem[((i as int) + r2) % 4096], c2) && disp[(ypos + r2)
                            * 64 + xpos + c2];
                    if r2 < rows - 1 {
                        assert(prev.1);
                    } else {
                        assert(prev.0[yr * 64 + xpos + c2] == disp[yr * 64 + xpos + c2]);
                        assert(rowout.1);
                    }
                }
            }
        }
    }
}

/// Drawing the same sprite twice at the same fully-on-screen location
/// restores the display exactly as it was, and the second draw's
/// collision flag reflects the pixels the first draw left lit.
pub proof fn lemma_draw_twice_restores(
    disp: Seq<bool>,
    mem: Seq<u8>,
    i: u16,
    xpos: int,
    ypos: int,
    rows: int,
)
    requires
        disp.len() == 2048,
        mem.len() == 4096,
        0 <= xpos,
        xpos + 8 <= 64,
        0 <= ypos < 32,
        0 <= rows <= 16,
        ypos + rows <= 32,
    ensures
        ({
            let first = draw_rows(disp, mem, i, xpos, ypos, rows);
            let second = draw_rows(first.0, mem, i, xpos, ypos, rows);
            &&& second.0 == disp
            &&& second.1 == exists|r: int, c: int|
                #![trigger sprite_bit(mem[((i as int) + r) % 4096], c)]
                0 <= r < rows && 0 <= c < 8 && sprite_bit(mem[((i as int) + r) % 4096], c)
                    && first.0[(ypos + r) * 64 + xpos + c]
        }),
{
    let first = draw_rows(disp, mem, i, xpos, ypos, rows);
    let second = draw_rows(first.0, mem, i, xpos, ypos, rows);
    lemma_draw_rows_spec(disp, mem, i, xpos, ypos, rows);
    lemma_draw_rows_spec(first.0, mem, i, xpos, ypos, rows);
    assert(second.0 =~= disp) by {
        assert(forall|p: int|
            0 <= p < 2048 && !sprite_target(xpos, ypos, rows, p) ==> second.0[p] == disp[p]);
        assert(forall|p: int| 0 <= p < 2048 && sprite_target(xpos, ypos, rows, p)
            ==> second.0[p] == disp[p]) by {
            assert forall|p: int|
                0 <= p < 2048 && sprite_target(xpos, ypos, rows, p) implies second.0[p]
                == disp[p] by {
                let (r, c) = choose|r: int, c: int|
                    #![trigger (ypos + r) * 64 + xpos + c]
                    0 <= r < rows && ypos + r < 32 && 0 <= c < 8 && xpos + c < 64 && p == (ypos
                        + r) * 64 + xpos + c;
                assert(first.0[p] == (disp[p] != sprite_bit(mem[((i as int) + r) % 4096], c)));
                assert(second.0[p] == (first.0[p] != sprite_bit(mem[((i as int) + r) % 4096], c)));
            }
        }
    }
}

} // verus!
