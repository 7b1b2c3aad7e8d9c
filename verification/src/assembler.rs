//! The two-pass assembler. The first pass scans the source lines in
//! order, collecting labels, data directives and sized instructions while
//! tracking the current address; the second pass emits data values and
//! encoded instructions as an ordered stream of (address, word) pairs.
//! A line that fails to encode contributes nothing; the rest of the
//! program is still assembled.

use vstd::prelude::*;

use crate::arith::{hi16, hi16_of, lo16, lo16_of, wadd32, wrap32};
use crate::encode::{encode_instruction, encode_spec};
use crate::instruction::{parse_instruction, parse_instruction_spec, InstrView, SourceInstr};
use crate::labels::{bind, table_bind, table_view, LabelsView};
use crate::syntax::{
    data_directive_spec, kw_dc_dot, kw_ds_dot, kw_end, kw_org, org_spec,
    parse_data_directive_with_value, parse_org_directive,
};
use crate::text::{
    contains_byte, contains_bytes, contains_seq, find_byte, find_idx, has_prefix,
    starts_with_bytes, sub_bytes, to_upper, trim, trim_bytes, upper_seq, COLON, SEMICOLON,
};
use vstd::string::StringSliceAdditionalSpecFns;

verus! {

/// The state the first pass threads through the source lines.
#[verifier::ext_equal]
pub ghost struct Pass1 {
    /// The address the next directive or instruction is placed at.
    pub addr: u32,
    /// Labels bound so far, in insertion order.
    pub labels: LabelsView,
    /// Parsed instructions, in source order.
    pub instrs: Seq<InstrView>,
    /// Initialized data from `DC` directives: (address, value).
    pub data: Seq<(u32, u32)>,
}

/// The first pass starts at address zero with everything empty.
pub open spec fn pass1_init() -> Pass1 {
    Pass1 { addr: 0, labels: Seq::empty(), instrs: Seq::empty(), data: Seq::empty() }
}

/// A data or instruction line, after any leading label was peeled off.
/// A line holding `DC.` or `DS.` is a data directive: it may bind a
/// label, record an initial value, and advances the address by its size.
/// Anything else is parsed as an instruction of two or four bytes.
pub open spec fn p1_tail(st: Pass1, line: Seq<u8>) -> Pass1 {
    let up = upper_seq(line);
    if contains_seq(up, kw_dc_dot()) || contains_seq(up, kw_ds_dot()) {
        let d = data_directive_spec(line);
        let labels2 = if d.name.len() > 0 {
            bind(st.labels, d.name, st.addr)
        } else {
            st.labels
        };
        let data2 = match d.value {
            Some(v) => st.data.push((st.addr, v)),
            None => st.data,
        };
        Pass1 { addr: wrap32(st.addr + d.size), labels: labels2, instrs: st.instrs, data: data2 }
    } else {
        let inst = parse_instruction_spec(line, st.addr);
        Pass1 {
            addr: wrap32(st.addr + inst.size),
            labels: st.labels,
            instrs: st.instrs.push(inst),
            data: st.data,
        }
    }
}

/// One source line in the first pass. Blank lines and `;` comments are
/// skipped. A line starting `END` (any case) stops the scan. `ORG` moves
/// the current address. A `:` binds the trimmed text before it as a label
/// at the current address; text after the colon continues as a directive
/// or instruction on the same address. The second component reports the
/// stop.
pub open spec fn p1_step(st: Pass1, raw: Seq<u8>) -> (Pass1, bool) {
    let line = trim(raw);
    if line.len() == 0 || line[0] == SEMICOLON {
        (st, false)
    } else if has_prefix(upper_seq(line), kw_end()) {
        (st, true)
    } else if has_prefix(upper_seq(line), kw_org()) {
        let st2 = match org_spec(line) {
            Some(a) => Pass1 { addr: a, labels: st.labels, instrs: st.instrs, data: st.data },
            None => st,
        };
        (st2, false)
    } else if contains_byte(line, COLON) {
        let e = find_idx(line, COLON);
        let name = trim(line.subrange(0, e));
        let st1 = Pass1 {
            addr: st.addr,
            labels: bind(st.labels, name, st.addr),
            instrs: st.instrs,
            data: st.data,
        };
        let rest = trim(line.subrange(e + 1, line.len() as int));
        if rest.len() == 0 {
            (st1, false)
        } else {
            (p1_tail(st1, rest), false)
        }
    } else {
        (p1_tail(st, line), false)
    }
}

/// The first pass over the lines from index `i` on.
pub open spec fn p1_lines(st: Pass1, lines: Seq<Seq<u8>>, i: int) -> Pass1
    decreases lines.len() - i,
{
    if i < 0 || i >= lines.len() {
        st
    } else {
        let sb = p1_step(st, lines[i]);
        if sb.1 {
            sb.0
        } else {
            p1_lines(sb.0, lines, i + 1)
        }
    }
}

/// The second pass's data output: each recorded value split into two
/// big-endian 16-bit words at its address and two bytes past it.
pub open spec fn data_words(data: Seq<(u32, u32)>) -> Seq<(u32, u16)>
    decreases data.len(),
{
    if data.len() == 0 {
        Seq::empty()
    } else {
        let a = data[0].0;
        let v = data[0].1;
        seq![(a, hi16(v)), (wrap32(a + 2), lo16(v))] + data_words(data.drop_first())
    }
}

/// The second pass's code output: each instruction that encodes yields
/// its opcode word at its address, and its extension word two bytes past
/// it; one that does not encode yields nothing.
pub open spec fn code_words(labels: LabelsView, instrs: Seq<InstrView>) -> Seq<(u32, u16)>
    decreases instrs.len(),
{
    if instrs.len() == 0 {
        Seq::empty()
    } else {
        let inst = instrs[0];
        let head: Seq<(u32, u16)> = match encode_spec(labels, inst) {
            None => Seq::empty(),
            Some((code, None)) => seq![(inst.address, code)],
            Some((code, Some(ext))) => seq![(inst.address, code), (wrap32(inst.address + 2), ext)],
        };
        head + code_words(labels, instrs.drop_first())
    }
}

/// What `assemble` returns for the given source lines: data words first,
/// then the encoded instructions, each against the finished label table.
pub open spec fn assemble_spec(lines: Seq<Seq<u8>>) -> Seq<(u32, u16)> {
    let st = p1_lines(pass1_init(), lines, 0);
    data_words(st.data) + code_words(st.labels, st.instrs)
}

/// The UTF-8 bytes of each source line.
pub open spec fn line_views(lines: Seq<&str>) -> Seq<Seq<u8>> {
    Seq::new(lines.len(), |i: int| lines[i].spec_bytes())
}

/// The two-pass assembler. Each `assemble` call starts from a clean label
/// table and instruction list.
pub struct Assembler {
    labels: Vec<(Vec<u8>, u32)>,
    instructions: Vec<SourceInstr>,
}

/// What the assembler retains after a call: the label table and the
/// parsed instructions of the most recent `assemble`.
#[verifier::ext_equal]
pub ghost struct AssemblerView {
    pub labels: LabelsView,
    pub instrs: Seq<InstrView>,
}

impl View for Assembler {
    type V = AssemblerView;

    closed spec fn view(&self) -> AssemblerView {
        AssemblerView { labels: table_view(self.labels@), instrs: self.instructions.deep_view() }
    }
}

impl DeepView for SourceInstr {
    type V = InstrView;

    open spec fn deep_view(&self) -> InstrView {
        self@
    }
}

impl Assembler {
    /// A fresh assembler with no labels and no instructions.
    pub fn new() -> (a: Assembler)
        ensures
            a@.labels.len() == 0,
            a@.instrs.len() == 0,
    {
        Assembler { labels: Vec::new(), instructions: Vec::new() }
    }

    /// Assemble the source lines into an ordered stream of
    /// (address, 16-bit word) pairs: the two passes described by
    /// `assemble_spec`, starting from a clean slate. Afterwards the
    /// assembler holds the labels and instructions of this run.
    pub fn assemble(&mut self, assembly_lines: &[&str]) -> (machine_code: Vec<(u32, u16)>)
        ensures
            machine_code@ == assemble_spec(line_views(assembly_lines@)),
            final(self)@.labels == p1_lines(
                pass1_init(),
                line_views(assembly_lines@),
                0,
            ).labels,
            final(self)@.instrs == p1_lines(
                pass1_init(),
                line_views(assembly_lines@),
                0,
            ).instrs,
    {
        let ghost lv = line_views(assembly_lines@);
        self.instructions = Vec::new();
        self.labels = Vec::new();
        let mut current_address: u32 = 0;
        let mut data_values: Vec<(u32, u32)> = Vec::new();
        let ghost final_st = p1_lines(pass1_init(), lv, 0);
        proof {
            assert(AssemblerView {
                labels: table_view(self.labels@),
                instrs: self.instructions.deep_view(),
            }.labels =~= pass1_init().labels);
            assert(self.instructions.deep_view() =~~= pass1_init().instrs);
            assert(data_values@ =~= pass1_init().data);
            assert(Pass1 {
                addr: current_address,
                labels: table_view(self.labels@),
                instrs: self.instructions.deep_view(),
                data: data_values@,
            } =~~= pass1_init());
        }
        let mut i: usize = 0;
        while i < assembly_lines.len()
            invariant_except_break
                i <= assembly_lines@.len(),
                lv == line_views(assembly_lines@),
                final_st == p1_lines(
                    Pass1 {
                        addr: current_address,
                        labels: table_view(self.labels@),
                        instrs: self.instructions.deep_view(),
                        data: data_values@,
                    },
                    lv,
                    i as int,
                ),
            ensures
                final_st == (Pass1 {
                    addr: current_address,
                    labels: table_view(self.labels@),
                    instrs: self.instructions.deep_view(),
                    data: data_values@,
                }),
            decreases assembly_lines@.len() - i,
        {
            let ghost st_before = Pass1 {
                addr: current_address,
                labels: table_view(self.labels@),
                instrs: self.instructions.deep_view(),
                data: data_values@,
            };
            let raw: &str = assembly_lines[i];
            let bytes: &[u8] = raw.as_bytes();
            proof {
                assert(bytes@ == lv[i as int]);
            }
            let line = trim_bytes(bytes);
            let ghost lview = line@;
            let mut stop = false;
            if line.len() == 0 || line[0] == SEMICOLON {
                // comment or blank line
            } else {
                let up = to_upper(line.as_slice());
                let end_kw = [69u8, 78, 68];
                let org_kw = [79u8, 82, 71];
                proof {
                    assert(end_kw@ =~= kw_end());
                    assert(org_kw@ =~= kw_org());
                }
                if starts_with_bytes(up.as_slice(), end_kw.as_slice()) {
                    stop = true;
                } else if starts_with_bytes(up.as_slice(), org_kw.as_slice()) {
                    match parse_org_directive(line.as_slice()) {
                        Some(a) => {
                            current_address = a;
                        },
                        None => {},
                    }
                } else {
                    let mut work = line;
                    let mut skip = false;
                    match find_byte(work.as_slice(), COLON) {
                        Some(e) => {
                            let before = sub_bytes(work.as_slice(), 0, e);
                            let name = trim_bytes(before.as_slice());
                            table_bind(&mut self.labels, name, current_address);
                            let after = sub_bytes(work.as_slice(), e + 1, work.len());
                            let rest = trim_bytes(after.as_slice());
                            if rest.len() == 0 {
                                skip = true;
                            } else {
                                work = rest;
                            }
                        },
                        None => {},
                    }
                    if !skip {
                        let wup = to_upper(work.as_slice());
                        let dc_dot = [68u8, 67, 46];
                        let ds_dot = [68u8, 83, 46];
                        proof {
                            assert(dc_dot@ =~= kw_dc_dot());
                            assert(ds_dot@ =~= kw_ds_dot());
                        }
                        if contains_bytes(wup.as_slice(), dc_dot.as_slice()) || contains_bytes(
                            wup.as_slice(),
                            ds_dot.as_slice(),
                        ) {
                            let (name, size, value) = parse_data_directive_with_value(
                                work.as_slice(),
                            );
                            if name.len() > 0 {
                                table_bind(&mut self.labels, name, current_address);
                            }
                            match value {
                                Some(v) => {
                                    data_values.push((current_address, v));
                                },
                                None => {},
                            }
                            current_address = wadd32(current_address, size);
                        } else {
                            let inst = parse_instruction(work.as_slice(), current_address);
                            let ghost iv = inst@;
                            current_address = wadd32(current_address, inst.size);
                            let ghost old_instrs = self.instructions.deep_view();
                            self.instructions.push(inst);
                            proof {
                                assert(self.instructions.deep_view() =~~= old_instrs.push(iv));
                            }
                        }
                    }
                }
            }
            proof {
                let st_after = Pass1 {
                    addr: current_address,
                    labels: table_view(self.labels@),
                    instrs: self.instructions.deep_view(),
                    data: data_values@,
                };
                assert(p1_step(st_before, lv[i as int]) == (st_after, stop)) by {
                    assert(trim(lv[i as int]) == lview);
                    assert(st_after =~~= p1_step(st_before, lv[i as int]).0);
                }
            }
            if stop {
                break ;
            }
            i = i + 1;
        }
        let mut machine_code: Vec<(u32, u16)> = Vec::new();
        let ghost dv = data_values@;
        let mut k: usize = 0;
        proof {
            assert(dv.skip(0) =~= dv);
        }
        while k < data_values.len()
            invariant
                k <= data_values@.len(),
                dv == data_values@,
                data_words(dv) == machine_code@ + data_words(dv.skip(k as int)),
            decreases data_values@.len() - k,
        {
            let (addr, value) = data_values[k];
            machine_code.push((addr, hi16_of(value)));
            machine_code.push((wadd32(addr, 2), lo16_of(value)));
            proof {
                assert(dv.skip(k as int)[0] == dv[k as int]);
                assert(dv.skip(k as int).drop_first() =~= dv.skip(k + 1));
            }
            k = k + 1;
        }
        proof {
            assert(dv.skip(dv.len() as int).len() == 0);
            assert(machine_code@ =~= machine_code@ + data_words(dv.skip(dv.len() as int)));
            assert(machine_code@ == data_words(final_st.data));
        }
        let ghost iv = self.instructions.deep_view();
        let ghost emitted_data = machine_code@;
        let mut k: usize = 0;
        proof {
            assert(iv.skip(0) =~= iv);
        }
        while k < self.instructions.len()
            invariant
                k <= self.instructions@.len(),
                iv == self.instructions.deep_view(),
                iv.len() == self.instructions@.len(),
                forall|j: int|
                    0 <= j < self.instructions@.len() ==> iv[j] == self.instructions@[j]@,
                table_view(self.labels@) == final_st.labels,
                emitted_data + code_words(final_st.labels, iv) == machine_code@ + code_words(
                    final_st.labels,
                    iv.skip(k as int),
                ),
            decreases self.instructions@.len() - k,
        {
            let r = encode_instruction(&self.labels, &self.instructions[k]);
            let ghost before = machine_code@;
            let addr = self.instructions[k].address;
            match r {
                Some((code, ext)) => {
                    machine_code.push((addr, code));
                    match ext {
                        Some(e) => {
                            machine_code.push((wadd32(addr, 2), e));
                        },
                        None => {},
                    }
                },
                None => {},
            }
            proof {
                assert(iv.skip(k as int)[0] == iv[k as int]);
                assert(iv.skip(k as int).drop_first() =~= iv.skip(k + 1));
                let head: Seq<(u32, u16)> = match encode_spec(final_st.labels, iv[k as int]) {
                    None => Seq::empty(),
                    Some((code, None)) => seq![(iv[k as int].address, code)],
                    Some((code, Some(ext))) => seq![
                        (iv[k as int].address, code),
                        (wrap32(iv[k as int].address + 2), ext),
                    ],
                };
                assert(machine_code@ =~= before + head);
                assert(before + (head + code_words(final_st.labels, iv.skip(k + 1))) =~= (before
                    + head) + code_words(final_st.labels, iv.skip(k + 1)));
            }
            k = k + 1;
        }
        proof {
            assert(iv.skip(iv.len() as int).len() == 0);
            assert(machine_code@ + code_words(final_st.labels, iv.skip(iv.len() as int))
                =~= machine_code@);
            assert(machine_code@ == assemble_spec(lv));
        }
        machine_code
    }
}

/// The uppercase hexadecimal digits of `v`, most significant first;
/// empty for zero.
pub open spec fn hex_digits(v: nat) -> Seq<u8>
    decreases v,
{
    if v == 0 {
        Seq::empty()
    } else {
        hex_digits(v / 16).push(hex_digit_byte((v % 16) as u8))
    }
}

/// The ASCII byte of one hexadecimal digit value, uppercase.
pub open spec fn hex_digit_byte(d: u8) -> u8 {
    if d < 10 {
        (48 + d) as u8
    } else {
        (55 + d) as u8
    }
}

/// `v` in uppercase hexadecimal, zero-padded to at least six digits.
pub open spec fn hex6(v: u32) -> Seq<u8> {
    let ds = hex_digits(v as nat);
    if ds.len() >= 6 {
        ds
    } else {
        Seq::new((6 - ds.len()) as nat, |i: int| 48u8) + ds
    }
}

/// A byte string read as characters, one character per byte.
pub open spec fn chars_of_bytes(s: Seq<u8>) -> Seq<char> {
    s.map_values(|b: u8| b as char)
}

/// One listing line per label: its name, a colon, and its address in
/// six-digit hexadecimal.
pub open spec fn label_lines(labels: LabelsView) -> Seq<char>
    decreases labels.len(),
{
    if labels.len() == 0 {
        Seq::empty()
    } else {
        chars_of_bytes(labels[0].0) + ": "@ + chars_of_bytes(hex6(labels[0].1)) + "\n"@
            + label_lines(labels.drop_first())
    }
}

/// The whole listing: a heading, and when any labels exist, a labels
/// section with one line per label in the order they were bound.
pub open spec fn listing_of(labels: LabelsView) -> Seq<char> {
    let base = "=== Assembly Listing ===\n"@;
    if labels.len() == 0 {
        base + "\n"@
    } else {
        base + "\n=== Labels ===\n"@ + label_lines(labels) + "\n"@
    }
}

/// Relies on `String::push`: appends exactly the one character.
#[verifier::external_body]
fn push_char(s: &mut String, c: char)
    ensures
        final(s)@ == old(s)@.push(c),
{
    s.push(c);
}

fn hex_digits_of(v: u32) -> (r: Vec<u8>)
    ensures
        r@ == hex_digits(v as nat),
    decreases v,
{
    if v == 0 {
        Vec::new()
    } else {
        let d = (v % 16) as u8;
        let byte = if d < 10 {
            48 + d
        } else {
            55 + d
        };
        let mut r = hex_digits_of(v / 16);
        r.push(byte);
        r
    }
}

fn hex6_of(v: u32) -> (r: Vec<u8>)
    ensures
        r@ == hex6(v),
{
    let ds = hex_digits_of(v);
    if ds.len() >= 6 {
        proof {
            assert(ds@ =~= hex6(v));
        }
        ds
    } else {
        let mut r: Vec<u8> = Vec::new();
        let pad = 6 - ds.len();
        let mut i: usize = 0;
        while i < pad
            invariant
                i <= pad,
                r@ == Seq::new(i as nat, |k: int| 48u8),
            decreases pad - i,
        {
            r.push(48);
            proof {
                assert(r@ =~= Seq::new((i + 1) as nat, |k: int| 48u8));
            }
            i = i + 1;
        }
        crate::text::push_all(&mut r, ds.as_slice());
        r
    }
}

fn push_bytes_as_chars(out: &mut String, s: &[u8])
    ensures
        final(out)@ == old(out)@ + chars_of_bytes(s@),
{
    let mut i: usize = 0;
    proof {
        assert(out@ =~= out@ + chars_of_bytes(s@.subrange(0, 0)));
    }
    while i < s.len()
        invariant
            i <= s@.len(),
            out@ == old(out)@ + chars_of_bytes(s@.subrange(0, i as int)),
        decreases s@.len() - i,
    {
        push_char(out, s[i] as char);
        proof {
            assert(old(out)@ + chars_of_bytes(s@.subrange(0, i + 1)) =~= (old(out)@
                + chars_of_bytes(s@.subrange(0, i as int))).push(s@[i as int] as char));
        }
        i = i + 1;
    }
    proof {
        assert(s@.subrange(0, s@.len() as int) =~= s@);
    }
}

impl Assembler {
    /// Append the assembly listing of the most recent `assemble` call to
    /// `output`: the heading and, when labels were bound, one line per
    /// label with its address.
    pub fn print_assembly_to_string(&self, output: &mut String)
        ensures
            final(output)@ == old(output)@ + listing_of(self@.labels),
    {
        output.append("=== Assembly Listing ===\n");
        if self.labels.len() == 0 {
            output.append("\n");
            proof {
                assert(final(output)@ =~= old(output)@ + listing_of(self@.labels));
            }
            return ;
        }
        output.append("\n=== Labels ===\n");
        let ghost lv = table_view(self.labels@);
        let ghost base = output@;
        let mut i: usize = 0;
        proof {
            assert(lv.skip(0) =~= lv);
            assert(base + label_lines(lv.skip(0)) =~= base + label_lines(lv));
        }
        while i < self.labels.len()
            invariant
                i <= self.labels@.len(),
                lv == table_view(self.labels@),
                lv.len() == self.labels@.len(),
                forall|k: int|
                    0 <= k < self.labels@.len() ==> lv[k] == (self.labels@[k].0@, self.labels@[k].1),
                output@ + label_lines(lv.skip(i as int)) == base + label_lines(lv),
            decreases self.labels@.len() - i,
        {
            let ghost before = output@;
            push_bytes_as_chars(output, self.labels[i].0.as_slice());
            output.append(": ");
            let hexed = hex6_of(self.labels[i].1);
            push_bytes_as_chars(output, hexed.as_slice());
            output.append("\n");
            proof {
                assert(lv.skip(i as int)[0] == lv[i as int]);
                assert(lv.skip(i as int).drop_first() =~= lv.skip(i + 1));
                let line = chars_of_bytes(lv[i as int].0) + ": "@ + chars_of_bytes(
                    hex6(lv[i as int].1),
                ) + "\n"@;
                assert(output@ =~= before + line);
                assert(before + (line + label_lines(lv.skip(i + 1))) =~= (before + line)
                    + label_lines(lv.skip(i + 1)));
            }
            i = i + 1;
        }
        proof {
            assert(lv.skip(lv.len() as int).len() == 0);
            assert(output@ + label_lines(lv.skip(lv.len() as int)) =~= output@);
        }
        output.append("\n");
        proof {
            assert(final(output)@ =~= old(output)@ + listing_of(self@.labels));
        }
    }
}

} // verus!
