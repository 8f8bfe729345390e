use vstd::prelude::*;

use crate::display::{collides, drawn, flip, hits, sprite_bit, sprite_col, toggled};
use crate::cpu::{
    execute_spec, fault_of, op_group, op_d, op_nn, op_x, op_y, CpuView, Fault, STACK_SIZE,
};

verus! {

/// Whether the skip opcode `op` (`3xnn`, `4xnn`, `5xy0`, `9xy0`) skips in state `s`.
pub open spec fn skip_taken(s: CpuView, op: u16) -> bool {
    let g = op_group(op);
    let vx = s.registers[op_x(op)];
    let vy = s.registers[op_y(op)];
    if g == 3 {
        vx == op_nn(op)
    } else if g == 4 {
        vx != op_nn(op)
    } else if g == 5 {
        vx == vy
    } else {
        vx != vy
    }
}

/// `n` executions in a row of the same opcode, starting from `s`.
pub open spec fn repeat_op(s: CpuView, op: u16, n: nat) -> CpuView
    decreases n,
{
    if n == 0 {
        s
    } else {
        execute_spec(repeat_op(s, op, (n - 1) as nat), op, 0)
    }
}

/// For every register `x` and byte `n`, `6xnn` raises no fault, leaves `n` in
/// register `x`, and advances the program counter by exactly 2.
pub proof fn lemma_load_immediate(s: CpuView, x: u8, n: u8, rnd: u8)
    requires
        x < 16,
        s.registers.len() == 16,
    ensures
        fault_of(s, (0x6000 + x * 0x100 + n) as u16) is None,
        execute_spec(s, (0x6000 + x * 0x100 + n) as u16, rnd).registers[x as int] == n,
        execute_spec(s, (0x6000 + x * 0x100 + n) as u16, rnd).program_counter
            == s.program_counter + 2,
{
    let op = (0x6000 + x * 0x100 + n) as u16;
    assert(op_group(op) == 6);
    assert(op_x(op) == x);
    assert(op_nn(op) == n);
}

/// A skip opcode raises no fault and advances the program counter by 4 when
/// its condition holds, by 2 otherwise.
pub proof fn lemma_skip(s: CpuView, op: u16, rnd: u8)
    requires
        op_group(op) == 3 || op_group(op) == 4 || ((op_group(op) == 5 || op_group(op) == 9)
            && op_d(op) == 0),
        s.registers.len() == 16,
    ensures
        fault_of(s, op) is None,
        execute_spec(s, op, rnd).program_counter == s.program_counter + if skip_taken(s, op) {
            4int
        } else {
            2int
        },
        execute_spec(s, op, rnd).registers == s.registers,
{
}

/// A call `2nnn` followed by the return `00EE` comes back to the instruction
/// after the call, with the stack pointer and the registers as they were.
pub proof fn lemma_call_return(s: CpuView, addr: u16, r1: u8, r2: u8)
    requires
        addr < 0x1000,
        0 <= s.stack_pointer < STACK_SIZE,
        s.stack.len() == STACK_SIZE,
        0 <= s.program_counter < 0x1000,
    ensures
        fault_of(s, (0x2000 + addr) as u16) is None,
        execute_spec(s, (0x2000 + addr) as u16, r1).program_counter == addr,
        fault_of(execute_spec(s, (0x2000 + addr) as u16, r1), 0x00EE) is None,
        execute_spec(execute_spec(s, (0x2000 + addr) as u16, r1), 0x00EE, r2).program_counter
            == s.program_counter + 2,
        execute_spec(execute_spec(s, (0x2000 + addr) as u16, r1), 0x00EE, r2).stack_pointer
            == s.stack_pointer,
        execute_spec(execute_spec(s, (0x2000 + addr) as u16, r1), 0x00EE, r2).registers
            == s.registers,
{
    let op = (0x2000 + addr) as u16;
    assert(op_group(op) == 2);
    let t = execute_spec(s, op, r1);
    assert(t.stack[s.stack_pointer] == (s.program_counter + 2) as u16);
}

/// A call overflows exactly when the stack holds 16 entries, and a return
/// underflows exactly when it is empty.
pub proof fn lemma_stack_faults(s: CpuView, op: u16)
    requires
        op_group(op) == 2,
        0 <= s.stack_pointer <= STACK_SIZE,
    ensures
        fault_of(s, op) == Some(Fault::StackOverflow) <==> s.stack_pointer == STACK_SIZE,
        fault_of(s, op) is None <==> s.stack_pointer < STACK_SIZE,
        fault_of(s, 0x00EE) == Some(Fault::StackUnderflow) <==> s.stack_pointer == 0,
        fault_of(s, 0x00EE) is None <==> s.stack_pointer > 0,
{
}

proof fn lemma_call_depth_at(s: CpuView, op: u16, k: nat)
    requires
        op_group(op) == 2,
        s.stack_pointer == 0,
        k <= STACK_SIZE,
    ensures
        repeat_op(s, op, k).stack_pointer == k,
    decreases k,
{
    if k > 0 {
        lemma_call_depth_at(s, op, (k - 1) as nat);
    }
}

/// From an empty stack, sixteen calls in a row succeed and the seventeenth
/// overflows.
pub proof fn lemma_call_depth(s: CpuView, op: u16)
    requires
        op_group(op) == 2,
        s.stack_pointer == 0,
    ensures
        forall|k: nat| k < STACK_SIZE ==> fault_of(#[trigger] repeat_op(s, op, k), op) is None,
        fault_of(repeat_op(s, op, STACK_SIZE as nat), op) == Some(Fault::StackOverflow),
{
    assert forall|k: nat| k < STACK_SIZE implies fault_of(#[trigger] repeat_op(s, op, k), op)
        is None by {
        lemma_call_depth_at(s, op, k);
    }
    lemma_call_depth_at(s, op, STACK_SIZE as nat);
}

/// Drawing the same sprite twice at the same origin leaves every pixel as it was.
pub proof fn lemma_draw_twice(g: Seq<Seq<u8>>, x: int, y: int, sprite: Seq<u8>)
    requires
        g.len() == 32,
        forall|r: int| 0 <= r < 32 ==> #[trigger] g[r].len() == 64,
    ensures
        drawn(drawn(g, x, y, sprite), x, y, sprite) == g,
{
    let once = drawn(g, x, y, sprite);
    let twice = drawn(once, x, y, sprite);
    assert forall|r: int| 0 <= r < 32 implies #[trigger] twice[r] =~= g[r] by {
        assert forall|c: int| 0 <= c < 64 implies twice[r][c] == g[r][c] by {
            let v = g[r][c];
            assert((v ^ 1) ^ 1 == v) by (bit_vector);
        }
    }
    assert(twice =~= g);
}

proof fn lemma_hits_one_row(sprite: Seq<u8>, k: int, ym: int, j: int, i: u8)
    requires
        0 <= ym < 32,
        0 <= j < 32,
        0 <= k <= 32,
        k <= sprite.len(),
    ensures
        hits(sprite, k, ym, (ym + j) % 32, i) == (j < k && sprite_bit(sprite[j], i)),
    decreases k,
{
    if k > 0 {
        lemma_hits_one_row(sprite, k - 1, ym, j, i);
    }
}

/// On a clear screen, drawing a sprite of at most 32 rows that has a set bit
/// reports no collision, and drawing it again at the same origin reports one.
pub proof fn lemma_redraw_collides(g: Seq<Seq<u8>>, x: int, y: int, sprite: Seq<u8>)
    requires
        0 <= x,
        0 <= y,
        g.len() == 32,
        forall|r: int, c: int| 0 <= r < 32 && 0 <= c < 64 ==> #[trigger] g[r][c] == 0,
        forall|r: int| 0 <= r < 32 ==> #[trigger] g[r].len() == 64,
        sprite.len() <= 32,
        exists|j: int, i: u8| 0 <= j < sprite.len() && i < 8 && #[trigger] sprite_bit(sprite[j], i),
    ensures
        !collides(g, x, y, sprite),
        collides(drawn(g, x, y, sprite), x, y, sprite),
{
    let xm = x % 64;
    let ym = y % 32;
    assert forall|j: int, i: u8|
        0 <= j < sprite.len() && i < 8 && #[trigger] sprite_bit(sprite[j], i) implies flip(
        g[(ym + j) % 32][(xm + i) % 64],
        hits(sprite, j, ym, (ym + j) % 32, i),
    ) != 1 by {
        lemma_hits_one_row(sprite, j, ym, j, i);
    }
    let (j, i) = choose|j: int, i: u8|
        0 <= j < sprite.len() && i < 8 && #[trigger] sprite_bit(sprite[j], i);
    let r = (ym + j) % 32;
    let c = (xm + i) % 64;
    lemma_hits_one_row(sprite, j, ym, j, i);
    lemma_hits_one_row(sprite, sprite.len() as int, ym, j, i);
    assert(sprite_col(xm, c) == i);
    assert(toggled(sprite, xm, ym, r, c));
    assert(0u8 ^ 1u8 == 1u8) by (bit_vector);
    assert(drawn(g, x, y, sprite)[r][c] == 1);
}

} // verus!
