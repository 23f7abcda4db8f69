//! Properties of the library that span several of its operations.
use crate::design::{EntityDesc, LlhdType};
use crate::module::{
    first_index_of, lemma_first_index_of, lemma_first_index_of_absent, lemma_first_index_of_found,
    Module, TypeKind, Wire, WireRef,
};
use crate::semantics::{entities_result, module_of, summary_of, wires_at, ModuleSummary};
use crate::text::{
    assigns_text, connection_text, file_text, header_text, instance_text, instances_text,
    module_text, wires_text,
};
use crate::writer::{
    decimal, digit_char, inst_name_result, instance_wf, module_wf, type_matches, writable,
    writer_wf,
};
use vstd::prelude::*;

verus! {

/// Looking `x` up after appending `y`: an earlier occurrence of `x` still
/// comes first; otherwise `x` is found at the new position exactly when
/// `y` is `x`.
pub proof fn law_first_index_after_push<T>(s: Seq<T>, x: T, y: T)
    ensures
        first_index_of(s.push(y), x) == (if first_index_of(s, x) is Some {
            first_index_of(s, x)
        } else if y == x {
            Some(s.len() as int)
        } else {
            None
        }),
{
    let t = s.push(y);
    if first_index_of(s, x) is Some {
        lemma_first_index_of_found(s, x);
        let j = first_index_of(s, x).unwrap();
        assert(t[j] == x);
        lemma_first_index_of(t, x, j);
    } else {
        assert forall|k: int| 0 <= k < s.len() implies s[k] != x by {
            if s[k] == x {
                reveal(first_index_of);
                assert(s.contains(x));
            }
        }
        if y == x {
            lemma_first_index_of(t, x, s.len() as int);
        } else {
            lemma_first_index_of_absent(t, x);
        }
    }
}

/// A wire appended to a module (as `Module::wire_push` appends it) is
/// found by the reference returned, and by its name unless an earlier wire
/// carries that name; the lookup of any other name is unchanged.
pub proof fn law_wire_lookup_after_push(before: Module, after: Module, w: Wire, r: WireRef, name: Seq<char>)
    requires
        r.id == before.wires@.len(),
        after.wires@.len() == before.wires@.len() + 1,
        after.wires@.take(before.wires@.len() as int) == before.wires@,
        after.wires@[r.id as int].name == w.name,
    ensures
        after.valid_wire(r),
        after.wire_name(r) == w.name@,
        after.first_wire_named(name) == (if before.first_wire_named(name) is Some {
            before.first_wire_named(name)
        } else if w.name@ == name {
            Some(r.id as int)
        } else {
            None
        }),
{
    assert(after.wire_names() =~= before.wire_names().push(w.name@)) by {
        assert forall|j: int| 0 <= j < before.wires@.len() implies after.wires@[j] == before.wires@[j] by {
            assert(after.wires@[j] == after.wires@.take(before.wires@.len() as int)[j]);
        }
    }
    law_first_index_after_push(before.wire_names(), name, w.name@);
}

/// A module appended to a list of modules (as `VlogWriter::module_push`
/// appends it) is found by its name unless an earlier module carries that
/// name; the lookup of any other name is unchanged.
pub proof fn law_module_lookup_after_push(before: Seq<Module>, m: Module, name: Seq<char>)
    ensures
        first_index_of(crate::writer::module_names(before.push(m)), name) == (if first_index_of(
            crate::writer::module_names(before),
            name,
        ) is Some {
            first_index_of(crate::writer::module_names(before), name)
        } else if m.name@ == name {
            Some(before.len() as int)
        } else {
            None
        }),
{
    assert(crate::writer::module_names(before.push(m)) =~= crate::writer::module_names(before).push(
        m.name@,
    ));
    law_first_index_after_push(crate::writer::module_names(before), name, m.name@);
}

/// An LLHD type has at most one Verilog type: two Verilog types that both
/// describe `t` are equal.
pub proof fn law_type_is_unique(t: LlhdType, k1: TypeKind, k2: TypeKind)
    requires
        type_matches(t, k1),
        type_matches(t, k2),
    ensures
        k1 == k2,
    decreases t,
{
    match t {
        LlhdType::Int(n) => {},
        LlhdType::Signal(inner) => {
            law_type_is_unique(*inner, k1, k2);
        },
        LlhdType::Vector(n, inner) => {
            law_type_is_unique(*inner, element_type(k1), element_type(k2));
        },
        LlhdType::Unsupported => {},
    }
}

/// The element type of a Verilog vector type.
spec fn element_type(k: TypeKind) -> TypeKind {
    match k {
        TypeKind::Vector(_, e) => *e,
        TypeKind::Scalar => TypeKind::Scalar,
    }
}

/// A signal has the Verilog type of the data it carries, and fails the
/// same way.
pub proof fn law_signal_is_transparent(t: LlhdType, k: TypeKind)
    ensures
        type_matches(LlhdType::Signal(Box::new(t)), k) == type_matches(t, k),
        crate::writer::type_error(LlhdType::Signal(Box::new(t))) == crate::writer::type_error(t),
{
}

/// Two numbers with the same decimal representation are equal.
pub proof fn law_decimal_injective(a: nat, b: nat)
    requires
        decimal(a) == decimal(b),
    ensures
        a == b,
    decreases a + b,
{
    lemma_decimal_len(a);
    lemma_decimal_len(b);
    if a < 10 && b < 10 {
        assert(decimal(a)[0] == digit_char(a));
        assert(decimal(b)[0] == digit_char(b));
        lemma_digit_char_injective(a, b);
    } else if a >= 10 && b >= 10 {
        assert(decimal(a).last() == digit_char(a % 10));
        assert(decimal(b).last() == digit_char(b % 10));
        lemma_digit_char_injective(a % 10, b % 10);
        assert(decimal(a / 10) == decimal(a).drop_last());
        assert(decimal(b / 10) == decimal(b).drop_last());
        law_decimal_injective(a / 10, b / 10);
    } else {
        assert(decimal(a).len() != decimal(b).len());
    }
}

/// Decimal representations of numbers below ten are one digit long, and of
/// the others longer.
proof fn lemma_decimal_len(n: nat)
    ensures
        n < 10 ==> decimal(n).len() == 1,
        n >= 10 ==> decimal(n).len() >= 2,
    decreases n,
{
    if n >= 10 {
        lemma_decimal_len(n / 10);
    }
}

/// Different digits have different characters.
proof fn lemma_digit_char_injective(a: nat, b: nat)
    requires
        a < 10,
        b < 10,
        digit_char(a) == digit_char(b),
    ensures
        a == b,
{
}

/// Instances without a name, taken at different counter values, get
/// different names.
pub proof fn law_default_names_differ(c1: usize, c2: usize)
    requires
        c1 < usize::MAX,
        c2 < usize::MAX,
        c1 != c2,
    ensures
        inst_name_result(None, c1).unwrap().0 != inst_name_result(None, c2).unwrap().0,
{
    let n1 = inst_name_result(None, c1).unwrap().0;
    let n2 = inst_name_result(None, c2).unwrap().0;
    if n1 == n2 {
        let p = "i_"@;
        assert(n1.subrange(p.len() as int, n1.len() as int) =~= decimal((c1 + 1) as nat));
        assert(n2.subrange(p.len() as int, n2.len() as int) =~= decimal((c2 + 1) as nat));
        law_decimal_injective((c1 + 1) as nat, (c2 + 1) as nat);
    }
}

/// Converting entities one after the other adds one module summary per
/// entity, in order: the module of each entity carries the entity's name
/// and has its arguments as ports.
pub proof fn law_one_module_per_entity(s0: Seq<ModuleSummary>, c0: int, ents: Seq<EntityDesc>, j: int)
    requires
        0 <= j <= ents.len(),
        entities_result(s0, c0, ents, j) is Ok,
    ensures
        entities_result(s0, c0, ents, j).unwrap().0 == s0 + ents.take(j).map_values(
            |e: EntityDesc| summary_of(e),
        ),
    decreases j,
{
    if j > 0 {
        law_one_module_per_entity(s0, c0, ents, j - 1);
        assert(ents.take(j).map_values(|e: EntityDesc| summary_of(e)) =~= ents.take(j - 1).map_values(
            |e: EntityDesc| summary_of(e),
        ).push(summary_of(ents[j - 1])));
        assert((s0 + ents.take(j - 1).map_values(|e: EntityDesc| summary_of(e))).push(
            summary_of(ents[j - 1]),
        ) =~= s0 + ents.take(j).map_values(|e: EntityDesc| summary_of(e)));
    }
}

/// Every module of a well-formed writer, as conversion leaves it, can be
/// written.
pub proof fn law_well_formed_modules_are_writable(mods: Seq<Module>, i: int)
    requires
        writer_wf(mods),
        0 <= i < mods.len(),
    ensures
        writable(mods, mods[i]),
{
    assert(module_wf(mods, i));
    assert forall|k: int| 0 <= k < mods.len() implies (#[trigger] mods[k]).refs_valid() by {
        assert(module_wf(mods, k));
    }
}

/// The name of a wire of a module that `e` became is the name that the
/// conversion gives that wire.
proof fn lemma_converted_wire_name(s: Seq<ModuleSummary>, e: EntityDesc, c0: int, m: Module, r: WireRef)
    requires
        module_of(s, e, c0, m),
        m.valid_wire(r),
    ensures
        m.wire_name(r) == wires_at(e, e.insts@.len() as int)[r.id as int],
{
}

/// The name behind a port of a module that `e` became is the name of the
/// matching argument of `e`.
proof fn lemma_converted_port_name(s: Seq<ModuleSummary>, e: EntityDesc, c0: int, m: Module, q: int)
    requires
        module_of(s, e, c0, m),
        0 <= q < m.ports@.len(),
    ensures
        m.port_name(q) == wires_at(e, e.insts@.len() as int)[q],
{
    assert(m.ports@[q].wire.id == q);
}

/// Two modules that `e` became, each inside a list of modules where every
/// module is what its entity became, have the same text.
proof fn lemma_module_text_determined(
    c0: int,
    ents: Seq<EntityDesc>,
    mods1: Seq<Module>,
    mods2: Seq<Module>,
    i: int,
)
    requires
        mods1.len() == ents.len(),
        mods2.len() == ents.len(),
        writer_wf(mods1),
        writer_wf(mods2),
        forall|j: int|
            0 <= j < ents.len() ==> {
                let sj = entities_result(Seq::empty(), c0, ents, j).unwrap();
                &&& module_of(sj.0, ents[j], sj.1, #[trigger] mods1[j])
                &&& module_of(sj.0, ents[j], sj.1, mods2[j])
            },
        0 <= i < ents.len(),
    ensures
        module_text(mods1, mods1[i]) == module_text(mods2, mods2[i]),
{
    let m1 = mods1[i];
    let m2 = mods2[i];
    let e = ents[i];
    let si = entities_result(Seq::empty(), c0, ents, i).unwrap();
    let k = e.insts@.len() as int;
    let w = wires_at(e, k);
    assert(module_of(si.0, e, si.1, m1));
    assert(module_of(si.0, e, si.1, m2));
    assert(module_wf(mods1, i));
    assert(module_wf(mods2, i));
    assert(header_text(m1) == header_text(m2)) by {
        assert forall|q: int| 0 <= q < m1.ports@.len() implies m1.port_name(q) == m2.port_name(q) by {
            lemma_converted_port_name(si.0, e, si.1, m1, q);
            lemma_converted_port_name(si.0, e, si.1, m2, q);
        }
        assert(Seq::new(m1.ports@.len(), |q: int| "    "@ + m1.port_name(q)) =~= Seq::new(
            m2.ports@.len(),
            |q: int| "    "@ + m2.port_name(q),
        ));
    }
    assert(wires_text(m1) == wires_text(m2)) by {
        assert(Seq::new(m1.wires@.len(), |j: int| "  wire "@ + m1.wires@[j].name@ + ";\n"@) =~= Seq::new(
            m2.wires@.len(),
            |j: int| "  wire "@ + m2.wires@[j].name@ + ";\n"@,
        ));
    }
    assert(assigns_text(m1) == assigns_text(m2)) by {
        assert forall|j: int| 0 <= j < m1.assigns@.len() implies m1.wire_name(
            m1.assigns@[j].lhs,
        ) == m2.wire_name(m2.assigns@[j].lhs) && m1.wire_name(m1.assigns@[j].rhs) == m2.wire_name(
            m2.assigns@[j].rhs,
        ) by {
            lemma_converted_wire_name(si.0, e, si.1, m1, m1.assigns@[j].lhs);
            lemma_converted_wire_name(si.0, e, si.1, m2, m2.assigns@[j].lhs);
            lemma_converted_wire_name(si.0, e, si.1, m1, m1.assigns@[j].rhs);
            lemma_converted_wire_name(si.0, e, si.1, m2, m2.assigns@[j].rhs);
        }
        assert(Seq::new(
            m1.assigns@.len(),
            |j: int|
                "  assign "@ + m1.wire_name(m1.assigns@[j].lhs) + " = "@ + m1.wire_name(
                    m1.assigns@[j].rhs,
                ) + ";\n"@,
        ) =~= Seq::new(
            m2.assigns@.len(),
            |j: int|
                "  assign "@ + m2.wire_name(m2.assigns@[j].lhs) + " = "@ + m2.wire_name(
                    m2.assigns@[j].rhs,
                ) + ";\n"@,
        ));
    }
    assert(instances_text(mods1, m1) == instances_text(mods2, m2)) by {
        assert forall|j: int| 0 <= j < m1.instances@.len() implies instance_text(
            mods1,
            m1,
            m1.instances@[j],
        ) == instance_text(mods2, m2, m2.instances@[j]) by {
            let i1 = m1.instances@[j];
            let i2 = m2.instances@[j];
            assert(instance_wf(mods1, i1));
            assert(instance_wf(mods2, i2));
            let t = i1.module.id as int;
            let st = entities_result(Seq::empty(), c0, ents, t).unwrap();
            assert(module_of(st.0, ents[t], st.1, mods1[t]));
            assert(module_of(st.0, ents[t], st.1, mods2[t]));
            let im1 = mods1[t];
            let im2 = mods2[t];
            assert forall|q: int| 0 <= q < i1.port_assigns@.len() implies connection_text(
                im1,
                m1,
                i1,
                q,
            ) == connection_text(im2, m2, i2, q) by {
                assert(i1.port_assigns@[q].lhs.id == i2.port_assigns@[q].lhs.id);
                lemma_converted_port_name(st.0, ents[t], st.1, im1, i1.port_assigns@[q].lhs.id as int);
                lemma_converted_port_name(st.0, ents[t], st.1, im2, i2.port_assigns@[q].lhs.id as int);
                lemma_converted_wire_name(si.0, e, si.1, m1, i1.port_assigns@[q].rhs);
                lemma_converted_wire_name(si.0, e, si.1, m2, i2.port_assigns@[q].rhs);
            }
            assert(Seq::new(i1.port_assigns@.len(), |q: int| connection_text(im1, m1, i1, q)) =~= Seq::new(
                i2.port_assigns@.len(),
                |q: int| connection_text(im2, m2, i2, q),
            ));
        }
        assert(Seq::new(m1.instances@.len(), |j: int| instance_text(mods1, m1, m1.instances@[j])) =~= Seq::new(
            m2.instances@.len(),
            |j: int| instance_text(mods2, m2, m2.instances@[j]),
        ));
    }
}

/// The Verilog text of a conversion depends on the design alone: two lists
/// of modules that both are what the entities of a design became (as
/// `VlogWriter::from_llhd` leaves them, from a writer with no module) have
/// the same text.
pub proof fn law_text_depends_on_design_alone(
    c0: int,
    ents: Seq<EntityDesc>,
    mods1: Seq<Module>,
    mods2: Seq<Module>,
)
    requires
        mods1.len() == ents.len(),
        mods2.len() == ents.len(),
        writer_wf(mods1),
        writer_wf(mods2),
        forall|j: int|
            0 <= j < ents.len() ==> {
                let sj = entities_result(Seq::empty(), c0, ents, j).unwrap();
                &&& module_of(sj.0, ents[j], sj.1, #[trigger] mods1[j])
                &&& module_of(sj.0, ents[j], sj.1, mods2[j])
            },
    ensures
        file_text(mods1) == file_text(mods2),
{
    assert forall|i: int| 0 <= i < ents.len() implies module_text(mods1, mods1[i]) == module_text(
        mods2,
        mods2[i],
    ) by {
        lemma_module_text_determined(c0, ents, mods1, mods2, i);
    }
    assert(Seq::new(mods1.len(), |i: int| module_text(mods1, mods1[i])) =~= Seq::new(
        mods2.len(),
        |i: int| module_text(mods2, mods2[i]),
    ));
}

} // verus!
