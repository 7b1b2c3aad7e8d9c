//! The symbol table built during the assembler's first pass: label names
//! (byte strings, case-sensitive) bound to 32-bit addresses. Binding a
//! name again replaces its address; lookup finds the unique binding.

use vstd::prelude::*;

use crate::text::bytes_eq;

verus! {

/// A label table as the specification sees it: bindings in insertion order.
pub type LabelsView = Seq<(Seq<u8>, u32)>;

/// The address bound to `name`, if any.
pub open spec fn lookup(labels: LabelsView, name: Seq<u8>) -> Option<u32>
    decreases labels.len(),
{
    if labels.len() == 0 {
        None
    } else if labels[0].0 == name {
        Some(labels[0].1)
    } else {
        lookup(labels.drop_first(), name)
    }
}

/// `labels` with `name` bound to `addr`: the existing binding is replaced
/// in place, a new name is appended.
pub open spec fn bind(labels: LabelsView, name: Seq<u8>, addr: u32) -> LabelsView
    decreases labels.len(),
{
    if labels.len() == 0 {
        seq![(name, addr)]
    } else if labels[0].0 == name {
        seq![(name, addr)] + labels.drop_first()
    } else {
        seq![labels[0]] + bind(labels.drop_first(), name, addr)
    }
}

/// After `bind`, looking the name up returns the new address, and every
/// other name keeps its binding.
pub proof fn lemma_bind_lookup(labels: LabelsView, name: Seq<u8>, addr: u32, other: Seq<u8>)
    ensures
        lookup(bind(labels, name, addr), name) == Some(addr),
        other != name ==> lookup(bind(labels, name, addr), other) == lookup(labels, other),
    decreases labels.len(),
{
    let b = bind(labels, name, addr);
    if labels.len() == 0 {
        assert(b[0] == (name, addr));
        assert(b.drop_first().len() == 0);
    } else if labels[0].0 == name {
        assert(b[0] == (name, addr));
        assert(b.drop_first() =~= labels.drop_first());
    } else {
        lemma_bind_lookup(labels.drop_first(), name, addr, other);
        assert(b[0] == labels[0]);
        assert(b.drop_first() =~= bind(labels.drop_first(), name, addr));
        if other != name {
            assert(lookup(b, other) == lookup(labels, other)) by {
                if labels[0].0 == other {
                    assert(lookup(b, other) == Some(b[0].1));
                } else {
                    assert(lookup(b, other) == lookup(b.drop_first(), other));
                }
            }
        }
    }
}

/// The view of the executable label table.
pub open spec fn table_view(labels: Seq<(Vec<u8>, u32)>) -> LabelsView {
    labels.map_values(|p: (Vec<u8>, u32)| (p.0@, p.1))
}

proof fn lemma_bind_at(labels: LabelsView, name: Seq<u8>, addr: u32, i: int)
    requires
        0 <= i <= labels.len(),
        forall|k: int| 0 <= k < i ==> labels[k].0 != name,
        i == labels.len() || labels[i].0 == name,
    ensures
        i < labels.len() ==> bind(labels, name, addr) =~= labels.update(i, (name, addr)),
        i == labels.len() ==> bind(labels, name, addr) =~= labels.push((name, addr)),
    decreases i,
{
    if labels.len() > 0 {
        if i == 0 {
            if i < labels.len() {
                assert(bind(labels, name, addr) =~= labels.update(0, (name, addr)));
            }
        } else {
            let t = labels.drop_first();
            lemma_bind_at(t, name, addr, i - 1);
        }
    }
}

/// Bind `name` to `addr` in the executable table.
pub fn table_bind(labels: &mut Vec<(Vec<u8>, u32)>, name: Vec<u8>, addr: u32)
    ensures
        table_view(final(labels)@) == bind(table_view(old(labels)@), name@, addr),
{
    let ghost lv = table_view(labels@);
    let mut i: usize = 0;
    while i < labels.len()
        invariant
            labels@ == old(labels)@,
            lv == table_view(labels@),
            i <= labels@.len(),
            lv.len() == labels@.len(),
            forall|k: int| 0 <= k < labels@.len() ==> lv[k] == (labels@[k].0@, labels@[k].1),
            forall|k: int| 0 <= k < i ==> lv[k].0 != name@,
        decreases labels@.len() - i,
    {
        if bytes_eq(labels[i].0.as_slice(), name.as_slice()) {
            proof {
                lemma_bind_at(lv, name@, addr, i as int);
            }
            let ghost nv = name@;
            labels[i] = (name, addr);
            proof {
                assert(table_view(labels@) =~= lv.update(i as int, (nv, addr)));
            }
            return ;
        }
        i = i + 1;
    }
    proof {
        lemma_bind_at(lv, name@, addr, lv.len() as int);
    }
    let ghost nv = name@;
    labels.push((name, addr));
    proof {
        assert(table_view(labels@) =~= lv.push((nv, addr)));
    }
}

/// Look `name` up in the executable table.
pub fn table_lookup(labels: &Vec<(Vec<u8>, u32)>, name: &[u8]) -> (r: Option<u32>)
    ensures
        r == lookup(table_view(labels@), name@),
{
    let ghost lv = table_view(labels@);
    proof {
        lemma_lookup_at_start(lv, name@);
    }
    let mut i: usize = 0;
    while i < labels.len()
        invariant
            lv == table_view(labels@),
            i <= labels@.len(),
            lv.len() == labels@.len(),
            forall|k: int| 0 <= k < labels@.len() ==> lv[k] == (labels@[k].0@, labels@[k].1),
            forall|k: int| 0 <= k < i ==> lv[k].0 != name@,
            lookup(lv, name@) == lookup(lv.skip(i as int), name@),
        decreases labels@.len() - i,
    {
        if bytes_eq(labels[i].0.as_slice(), name) {
            proof {
                assert(lv.skip(i as int)[0] == lv[i as int]);
            }
            return Some(labels[i].1);
        }
        proof {
            assert(lv.skip(i as int).drop_first() =~= lv.skip(i + 1));
        }
        i = i + 1;
    }
    proof {
        assert(lv.skip(lv.len() as int).len() == 0);
    }
    None
}

proof fn lemma_lookup_at_start(lv: LabelsView, name: Seq<u8>)
    ensures
        lookup(lv, name) == lookup(lv.skip(0), name),
{
    assert(lv.skip(0) =~= lv);
}

} // verus!
