//! A source line parsed into an instruction: mnemonic, operand strings,
//! and the size the instruction occupies, two bytes or four when a
//! trailing extension word will be needed.

use vstd::prelude::*;

use crate::syntax::{join_sp, join_with_space, lemma_parts_view, mnemonic_of, mnemonic_tag,
    Mnemonic};
use crate::text::{find_byte, find_idx, split_on, split_on_byte, split_ws, split_ws_bytes,
    sub_bytes, to_upper, trim, trim_bytes, upper_seq, COMMA, DOT, HASH, LPAREN};

verus! {

/// What the assembler keeps of one parsed instruction line.
#[verifier::ext_equal]
pub ghost struct InstrView {
    pub address: u32,
    pub mnemonic: Seq<u8>,
    pub operands: Seq<Seq<u8>>,
    pub size: u32,
}

/// A parsed instruction: its address, upper-cased mnemonic, operand
/// strings in order, and size in bytes (2, or 4 with an extension word).
pub struct SourceInstr {
    pub address: u32,
    pub mnemonic: Vec<u8>,
    pub operands: Vec<Vec<u8>>,
    pub size: u32,
}

impl View for SourceInstr {
    type V = InstrView;

    open spec fn view(&self) -> InstrView {
        InstrView {
            address: self.address,
            mnemonic: self.mnemonic@,
            operands: self.operands.deep_view(),
            size: self.size,
        }
    }
}

/// The mnemonic part of the first token: everything before the first
/// `.`, upper-cased.
pub open spec fn mnemonic_text(head: Seq<u8>) -> Seq<u8> {
    upper_seq(head.subrange(0, find_idx(head, DOT)))
}

/// Whether the first token carries the long-word suffix: the text between
/// the first `.` and the next `.` (or the end) is exactly `L`.
pub open spec fn has_l_suffix(head: Seq<u8>) -> bool {
    let e = find_idx(head, DOT);
    e < head.len() && {
        let rest = head.subrange(e + 1, head.len() as int);
        rest.subrange(0, find_idx(rest, DOT)) == seq![76u8]
    }
}

/// Comma-separated segments turned into operands: each trimmed, empties
/// discarded, order kept.
pub open spec fn operands_of(segs: Seq<Seq<u8>>) -> Seq<Seq<u8>>
    decreases segs.len(),
{
    if segs.len() == 0 {
        Seq::empty()
    } else {
        let t = trim(segs[0]);
        let rest = operands_of(segs.drop_first());
        if t.len() > 0 {
            seq![t] + rest
        } else {
            rest
        }
    }
}

/// The operands of an instruction line: all tokens after the first are
/// rejoined with single spaces and split on commas.
pub open spec fn instr_operands(parts: Seq<Seq<u8>>) -> Seq<Seq<u8>> {
    if parts.len() > 1 {
        operands_of(split_on(join_sp(parts.drop_first()), COMMA))
    } else {
        Seq::empty()
    }
}

/// Every operand is nonempty.
pub proof fn lemma_operands_nonempty(segs: Seq<Seq<u8>>)
    ensures
        forall|k: int|
            0 <= k < operands_of(segs).len() ==> (#[trigger] operands_of(segs)[k]).len() > 0,
    decreases segs.len(),
{
    if segs.len() > 0 {
        let t = trim(segs[0]);
        let rest = operands_of(segs.drop_first());
        lemma_operands_nonempty(segs.drop_first());
        if t.len() > 0 {
            assert forall|k: int|
                0 <= k < operands_of(segs).len() implies (#[trigger] operands_of(segs)[k]).len()
                > 0 by {
                if k == 0 {
                    assert(operands_of(segs)[0] == t);
                } else {
                    assert(operands_of(segs)[k] == rest[k - 1]);
                }
            }
        }
    }
}

/// The size in bytes an instruction occupies. A long-word `MOVE`/`MOVEA`
/// whose source is an immediate or a bare label, or whose destination is
/// a bare label, takes an extension word, as do a long-word `CMP` and a
/// `MULS` with an immediate source; everything else is one word.
pub open spec fn instr_size(mnemonic: Seq<u8>, l_suffix: bool, operands: Seq<Seq<u8>>) -> u32 {
    if operands.len() >= 2 {
        let src = operands[0];
        let dst = operands[operands.len() - 1];
        let m = mnemonic_of(mnemonic);
        if (m == Mnemonic::Move || m == Mnemonic::Movea) && l_suffix {
            if src[0] == HASH || (src[0] != 68 && src[0] != 65 && src[0] != LPAREN) {
                4
            } else if dst[0] != 68 && dst[0] != 65 && dst[0] != LPAREN {
                4
            } else {
                2
            }
        } else if m == Mnemonic::Cmp && l_suffix && src[0] == HASH {
            4
        } else if m == Mnemonic::Muls && src[0] == HASH {
            4
        } else {
            2
        }
    } else {
        2
    }
}

/// How one instruction line is read.
pub open spec fn parse_instruction_spec(line: Seq<u8>, address: u32) -> InstrView {
    let parts = split_ws(line);
    if parts.len() == 0 {
        InstrView { address, mnemonic: Seq::empty(), operands: Seq::empty(), size: 2 }
    } else {
        let head = parts[0];
        let m = mnemonic_text(head);
        let ops = instr_operands(parts);
        InstrView { address, mnemonic: m, operands: ops, size: instr_size(m, has_l_suffix(head), ops) }
    }
}

/// Parse one instruction line at the given address.
pub fn parse_instruction(line: &[u8], address: u32) -> (inst: SourceInstr)
    ensures
        inst@ == parse_instruction_spec(line@, address),
        forall|k: int|
            0 <= k < inst@.operands.len() ==> (#[trigger] inst@.operands[k]).len() > 0,
{
    let parts = split_ws_bytes(line);
    proof {
        lemma_parts_view(&parts);
    }
    if parts.len() == 0 {
        let inst = SourceInstr { address, mnemonic: Vec::new(), operands: Vec::new(), size: 2 };
        proof {
            assert(inst@ =~~= parse_instruction_spec(line@, address));
        }
        return inst;
    }
    let head = parts[0].as_slice();
    let e = match find_byte(head, DOT) {
        Some(i) => i,
        None => head.len(),
    };
    let mn_raw = sub_bytes(head, 0, e);
    let mnemonic = to_upper(mn_raw.as_slice());
    let l_suffix: bool = if e < head.len() {
        let rest = sub_bytes(head, e + 1, head.len());
        let e2 = match find_byte(rest.as_slice(), DOT) {
            Some(i) => i,
            None => rest.len(),
        };
        let suffix = sub_bytes(rest.as_slice(), 0, e2);
        proof {
            assert(suffix@ =~= head@.subrange(e + 1, head@.len() as int).subrange(
                0,
                find_idx(head@.subrange(e + 1, head@.len() as int), DOT),
            ));
        }
        if suffix.len() == 1 && suffix[0] == 76 {
            proof {
                assert(suffix@ =~= seq![76u8]);
            }
            true
        } else {
            proof {
                assert(suffix@ != seq![76u8]);
            }
            false
        }
    } else {
        false
    };
    proof {
        assert(l_suffix == has_l_suffix(head@));
    }
    let mut operands: Vec<Vec<u8>> = Vec::new();
    if parts.len() > 1 {
        proof {
            assert(parts.deep_view().skip(1) =~= parts.deep_view().drop_first());
        }
        let joined = join_with_space(&parts, 1);
        let segs = split_on_byte(joined.as_slice(), COMMA);
        proof {
            lemma_parts_view(&segs);
        }
        let ghost sv = segs.deep_view();
        let mut i: usize = 0;
        proof {
            assert(sv.skip(0) =~= sv);
            assert(operands.deep_view() =~~= Seq::<Seq<u8>>::empty());
        }
        while i < segs.len()
            invariant
                i <= segs@.len(),
                sv == segs.deep_view(),
                sv.len() == segs@.len(),
                forall|k: int| 0 <= k < segs@.len() ==> sv[k] == segs@[k]@,
                operands_of(sv) == operands.deep_view() + operands_of(sv.skip(i as int)),
                forall|k: int|
                    0 <= k < operands@.len() ==> (#[trigger] operands@[k])@.len() > 0,
            decreases segs@.len() - i,
        {
            let t = trim_bytes(segs[i].as_slice());
            proof {
                assert(sv.skip(i as int)[0] == sv[i as int]);
                assert(sv.skip(i as int).drop_first() =~= sv.skip(i + 1));
            }
            if t.len() > 0 {
                let ghost tv = t@;
                let ghost old_ops = operands.deep_view();
                operands.push(t);
                proof {
                    assert(operands.deep_view() =~~= old_ops + seq![tv]);
                    assert(old_ops + (seq![tv] + operands_of(sv.skip(i + 1))) =~= (old_ops + seq![
                        tv,
                    ]) + operands_of(sv.skip(i + 1)));
                }
            }
            i = i + 1;
        }
        proof {
            assert(sv.skip(sv.len() as int).len() == 0);
            assert(operands.deep_view() =~= operands.deep_view() + operands_of(
                sv.skip(sv.len() as int),
            ));
        }
    }
    proof {
        lemma_parts_view(&operands);
        lemma_operands_nonempty(split_on(join_sp(parts.deep_view().drop_first()), COMMA));
        assert(operands.deep_view() == instr_operands(parts.deep_view()));
    }
    let size: u32 = if operands.len() >= 2 {
        let tag = mnemonic_tag(mnemonic.as_slice());
        let src = operands[0].as_slice();
        let dst = operands[operands.len() - 1].as_slice();
        if (tag == Mnemonic::Move || tag == Mnemonic::Movea) && l_suffix {
            if src[0] == HASH || (src[0] != 68 && src[0] != 65 && src[0] != LPAREN) {
                4
            } else if dst[0] != 68 && dst[0] != 65 && dst[0] != LPAREN {
                4
            } else {
                2
            }
        } else if tag == Mnemonic::Cmp && l_suffix && src[0] == HASH {
            4
        } else if tag == Mnemonic::Muls && src[0] == HASH {
            4
        } else {
            2
        }
    } else {
        2
    };
    let inst = SourceInstr { address, mnemonic, operands, size };
    proof {
        assert(inst@ =~~= parse_instruction_spec(line@, address));
    }
    inst
}

} // verus!
