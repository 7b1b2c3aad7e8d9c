//! Cross-cutting guarantees, stated and proved over the assembler's and
//! CPU's specifications: branch displacements round-trip through encoding
//! and execution, emitted data words compose back into their declared
//! values, and blank or comment lines leave the output untouched.

use vstd::prelude::*;

use crate::arith::{lemma_wrap32_window, low_byte_u16, sgn32, wrap32, hi16, lo16};
use crate::assembler::{assemble_spec, data_words, p1_lines, p1_step, p1_tail, pass1_init, Pass1};
use crate::cpu::{branch_spec, cond_holds, CpuView};
use crate::encode::{branch_disp_spec, enc_branch};
use crate::instruction::InstrView;
use crate::labels::{lookup, LabelsView};
use crate::memory::{lemma_long_store_fetch, long_at, with_long, with_word};
use crate::syntax::{data_directive_spec, kw_dc_dot, kw_dc_l, kw_ds_dot, kw_ds_l};
use crate::text::{contains_seq, matches_at, trim, upper_seq, SEMICOLON};

verus! {

/// Encoding a branch word and decoding its fields are inverse: the top
/// nibble reads 6, the condition nibble and displacement byte read back
/// exactly.
pub proof fn lemma_branch_word_fields(condition: u16, lowb: u16)
    requires
        condition <= 0xF,
        lowb < 0x100,
    ensures
        (0x6000u16 | (condition << 8) | lowb) / 0x1000 == 6,
        ((0x6000u16 | (condition << 8) | lowb) / 0x100) % 16 == condition,
        (0x6000u16 | (condition << 8) | lowb) % 0x100 == lowb,
{
    assert((0x6000u16 | (condition << 8) | lowb) / 0x1000 == 6 && ((0x6000u16 | (condition << 8)
        | lowb) / 0x100) % 16 == condition && (0x6000u16 | (condition << 8) | lowb) % 0x100
        == lowb) by (bit_vector)
        requires
            condition <= 0xF,
            lowb < 0x100,
    ;
}

/// For every branch condition and every label in displacement range: the
/// assembler takes the displacement relative to the word after the
/// branch, and executing the encoded branch word adds it back, so a taken
/// branch reproduces the label's address exactly and an untaken one falls
/// through to the next word.
pub proof fn lemma_branch_round_trip(
    labels: LabelsView,
    iv: InstrView,
    c: CpuView,
    m: Seq<u8>,
    condition: u16,
)
    requires
        condition <= 0xF,
        iv.operands.len() >= 1,
        iv.address == c.pc,
        lookup(labels, iv.operands[0]) is Some,
        -128 <= sgn32(lookup(labels, iv.operands[0])->Some_0) - sgn32(c.pc) - 2 <= 127,
    ensures
        ({
            let target = lookup(labels, iv.operands[0])->Some_0;
            let disp = sgn32(target) - sgn32(c.pc) - 2;
            let word = 0x6000u16 | (condition << 8) | low_byte_u16(disp as i8);
            branch_disp_spec(labels, iv.operands[0], c.pc) == Some(disp) && enc_branch(
                labels,
                iv,
                condition,
            ) == Some((word, None::<u16>)) && branch_spec(c, m, word).cpu.pc == (
            if cond_holds(c.ccr, condition) {
                target
            } else {
                wrap32(c.pc + 2)
            })
        }),
{
    let target = lookup(labels, iv.operands[0])->Some_0;
    let disp = sgn32(target) - sgn32(c.pc) - 2;
    let lowb = low_byte_u16(disp as i8);
    let word = 0x6000u16 | (condition << 8) | lowb;
    lemma_branch_word_fields(condition, lowb);
    let low = word % 0x100;
    let decoded: int = if low >= 0x80 {
        low - 0x100
    } else {
        low as int
    };
    assert(decoded == disp);
    let value = c.pc + disp + 2;
    assert(value == target + (c.pc - sgn32(c.pc)) - (target - sgn32(target)));
    lemma_wrap32_window(value);
}

/// The data stream has two words per recorded value: the value's high
/// half at its address, its low half two bytes further.
pub proof fn lemma_data_words_shape(data: Seq<(u32, u32)>)
    ensures
        data_words(data).len() == 2 * data.len(),
        forall|i: int|
            0 <= i < data.len() ==> #[trigger] data_words(data)[2 * i] == (
                data[i].0,
                hi16(data[i].1),
            ) && data_words(data)[2 * i + 1] == (wrap32(data[i].0 + 2), lo16(data[i].1)),
    decreases data.len(),
{
    if data.len() > 0 {
        let rest = data.drop_first();
        lemma_data_words_shape(rest);
        assert forall|i: int|
            0 <= i < data.len() implies #[trigger] data_words(data)[2 * i] == (
            data[i].0,
            hi16(data[i].1),
        ) && data_words(data)[2 * i + 1] == (wrap32(data[i].0 + 2), lo16(data[i].1)) by {
            if i > 0 {
                let j = i - 1;
                assert(data_words(rest)[2 * j] == (rest[j].0, hi16(rest[j].1)));
                assert(data_words(rest)[2 * j + 1] == (wrap32(rest[j].0 + 2), lo16(rest[j].1)));
                assert(data_words(data)[2 * i] == data_words(rest)[2 * i - 2]);
                assert(2 * i - 2 == 2 * j);
                assert(data_words(data)[2 * i + 1] == data_words(rest)[2 * j + 1]);
                assert(rest[j] == data[i]);
            }
        }
    }
}

/// Loading the two big-endian words the assembler emits for one declared
/// long-word value into memory composes, through the memory's long-word
/// read, back into exactly that value.
pub proof fn lemma_data_value_composes(m: Seq<u8>, a: u32, v: u32)
    requires
        a + 3 < m.len(),
        m.len() <= 0x1_0000_0000,
    ensures
        wrap32(a + 2) == a + 2,
        long_at(with_word(with_word(m, a as int, hi16(v)), a + 2, lo16(v)), a as int) == v,
{
    lemma_wrap32_window(a + 2);
    assert(with_word(with_word(m, a as int, hi16(v)), a + 2, lo16(v)) == with_long(
        m,
        a as int,
        v,
    ));
    lemma_long_store_fetch(m, a as int, v);
}

/// A `DS.L` directive line defines no value but reserves four bytes: the
/// first pass records no data for it and places the next symbol four
/// bytes further.
pub proof fn lemma_ds_long_reserves(st: Pass1, line: Seq<u8>)
    requires
        contains_seq(upper_seq(line), kw_ds_l()),
        !contains_seq(upper_seq(line), kw_dc_dot()),
        !contains_seq(upper_seq(line), kw_dc_l()),
    ensures
        p1_tail(st, line).addr == wrap32(st.addr + 4),
        p1_tail(st, line).data == st.data,
        p1_tail(st, line).instrs == st.instrs,
{
    let up = upper_seq(line);
    let i = choose|i: int| matches_at(up, kw_ds_l(), i);
    assert(matches_at(up, kw_ds_dot(), i)) by {
        assert(up.subrange(i, i + 3) =~= up.subrange(i, i + 4).subrange(0, 3));
        assert(up.subrange(i, i + 4).subrange(0, 3) =~= kw_ds_dot());
    }
    assert(data_directive_spec(line).size == 4);
    assert(data_directive_spec(line).value is None);
}

proof fn lemma_p1_lines_shifted(st: Pass1, lines: Seq<Seq<u8>>, i: int, k: int)
    requires
        0 <= i < lines.len(),
        i <= k <= lines.len() - 1,
    ensures
        p1_lines(st, lines.remove(i), k) == p1_lines(st, lines, k + 1),
    decreases lines.len() - k,
{
    let rem = lines.remove(i);
    if k < rem.len() {
        assert(rem[k] == lines[k + 1]);
        let sb = p1_step(st, lines[k + 1]);
        if !sb.1 {
            lemma_p1_lines_shifted(sb.0, lines, i, k + 1);
        }
    }
}

proof fn lemma_p1_lines_skip_removed(st: Pass1, lines: Seq<Seq<u8>>, i: int, k: int)
    requires
        0 <= k <= i < lines.len(),
        trim(lines[i]).len() == 0 || trim(lines[i])[0] == SEMICOLON,
    ensures
        p1_lines(st, lines, k) == p1_lines(st, lines.remove(i), k),
    decreases i - k,
{
    let rem = lines.remove(i);
    if k == i {
        assert(p1_step(st, lines[i]) == (st, false));
        lemma_p1_lines_shifted(st, lines, i, i);
    } else {
        assert(rem[k] == lines[k]);
        let sb = p1_step(st, lines[k]);
        if !sb.1 {
            lemma_p1_lines_skip_removed(sb.0, lines, i, k + 1);
        }
    }
}

/// A blank line, or one whose first non-space character starts a
/// comment, contributes nothing: removing it leaves the assembled
/// machine-word stream unchanged, wherever in the program it stands.
pub proof fn lemma_skipped_line_vanishes(lines: Seq<Seq<u8>>, i: int)
    requires
        0 <= i < lines.len(),
        trim(lines[i]).len() == 0 || trim(lines[i])[0] == SEMICOLON,
    ensures
        assemble_spec(lines) == assemble_spec(lines.remove(i)),
{
    lemma_p1_lines_skip_removed(pass1_init(), lines, i, 0);
}

} // verus!
