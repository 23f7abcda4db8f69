//! Properties of the Verilog text of modules: what each module's text holds,
//! stated in terms of the module's items.
use crate::module::{Assign, Instance, Module, PortRef, Wire};
use crate::text::{
    assigns_text, concat, instance_text, instances_text, join, module_text, ports_text, wires_text,
};
use vstd::prelude::*;

verus! {

/// The line `  assign lhs = rhs;` of the assignment `a` in the module `m`.
pub open spec fn assign_line(m: Module, a: Assign) -> Seq<char> {
    "  assign "@ + m.wire_name(a.lhs) + " = "@ + m.wire_name(a.rhs) + ";\n"@
}

/// A module without assignments has no assignment text.
pub proof fn law_assigns_text_empty(m: Module)
    requires
        m.assigns@.len() == 0,
    ensures
        assigns_text(m) == Seq::<char>::empty(),
{
}

/// Appending the assignment `a` to a module (its wires unchanged) appends
/// exactly the line `  assign lhs = rhs;` of `a` to its assignment text:
/// every assignment keeps its line, in order, and gets no other.
pub proof fn law_assigns_text_append(m1: Module, m2: Module, a: Assign)
    requires
        m2.wires@ == m1.wires@,
        m2.assigns@ == m1.assigns@.push(a),
    ensures
        assigns_text(m2) == assigns_text(m1) + assign_line(m2, a),
{
    let f1 = |j: int|
        "  assign "@ + m1.wire_name(m1.assigns@[j].lhs) + " = "@ + m1.wire_name(
            m1.assigns@[j].rhs,
        ) + ";\n"@;
    let f2 = |j: int|
        "  assign "@ + m2.wire_name(m2.assigns@[j].lhs) + " = "@ + m2.wire_name(
            m2.assigns@[j].rhs,
        ) + ";\n"@;
    let s1 = Seq::new(m1.assigns@.len(), f1);
    let s2 = Seq::new(m2.assigns@.len(), f2);
    assert(s2.drop_last() =~= s1) by {
        assert forall|j: int| 0 <= j < s1.len() implies s2.drop_last()[j] == s1[j] by {
            assert(m2.assigns@[j] == m1.assigns@[j]);
        }
    }
    assert(s2.last() == assign_line(m2, a));
}

/// Where `items[j]` stands in the text `join(items, sep)`.
proof fn lemma_join_holds(items: Seq<Seq<char>>, sep: Seq<char>, j: int)
    requires
        0 <= j < items.len(),
    ensures
        exists|off: int|
            0 <= off && off + items[j].len() <= join(items, sep).len() && #[trigger] join(items, sep).subrange(
                off,
                off + items[j].len(),
            ) == items[j],
    decreases items.len(),
{
    let n = items.len();
    if n == 1 {
        assert(join(items, sep).subrange(0, items[j].len() as int) =~= items[j]);
        assert(join(items, sep).subrange(0int, 0int + items[j].len()) == items[j]);
    } else {
        let front = join(items.drop_last(), sep);
        let whole = join(items, sep);
        assert(whole == front + sep + items.last());
        if j == n - 1 {
            let off = (front.len() + sep.len()) as int;
            assert(whole.subrange(off, off + items[j].len()) =~= items[j]);
            assert(join(items, sep).subrange(off, off + items[j].len()) == items[j]);
        } else {
            lemma_join_holds(items.drop_last(), sep, j);
            let off = choose|off: int|
                0 <= off && off + items.drop_last()[j].len() <= front.len()
                    && #[trigger] front.subrange(off, off + items.drop_last()[j].len()) == items.drop_last()[j];
            assert(whole.subrange(off, off + items[j].len()) =~= front.subrange(
                off,
                off + items[j].len(),
            ));
            assert(join(items, sep).subrange(off, off + items[j].len()) == items[j]);
        }
    }
}

/// Every port of a module is listed in the module's text: the line
/// `    wire` of its `j`-th port, for the wire behind that port, stands in it.
pub proof fn law_module_text_lists_port(mods: Seq<Module>, m: Module, j: int)
    requires
        0 <= j < m.ports@.len(),
    ensures
        exists|off: int|
            0 <= off && off + ("    "@ + m.port_name(j)).len() <= module_text(mods, m).len()
                && #[trigger] module_text(mods, m).subrange(off, off + ("    "@ + m.port_name(j)).len())
                == "    "@ + m.port_name(j),
{
    let t = module_text(mods, m);
    let open = "module "@ + m.name@ + "(\n"@;
    let items = Seq::new(m.ports@.len(), |k: int| "    "@ + m.port_name(k));
    let jn = join(items, ",\n"@);
    assert(ports_text(m) == jn + "\n"@);
    assert(crate::text::header_text(m) == open + ports_text(m) + "  );\n"@);
    assert(t == open + jn + ("\n"@ + "  );\n"@ + "\n"@ + crate::text::wires_text(m) + "\n"@
        + crate::text::instances_text(mods, m) + "\n"@ + assigns_text(m) + "endmodule\n\n"@));
    lemma_join_holds(items, ",\n"@, j);
    let o = choose|o: int|
        0 <= o && o + items[j].len() <= jn.len() && #[trigger] jn.subrange(o, o + items[j].len())
            == items[j];
    let line = "    "@ + m.port_name(j);
    assert(items[j] == line);
    let off = open.len() as int + o;
    assert(t.subrange(off, off + line.len()) =~= jn.subrange(o, o + line.len()));
    assert(t.subrange(off, off + line.len()) == line);
}

/// The text of a module opens with `module name(`, the start of its port
/// list, exactly where the module has ports; a module without ports opens
/// with `module name;`.
pub proof fn law_module_header_follows_ports(mods: Seq<Module>, m: Module)
    ensures
        m.ports@.len() > 0 ==> module_text(mods, m).take(("module "@ + m.name@ + "(\n"@).len() as int)
            == "module "@ + m.name@ + "(\n"@,
        m.ports@.len() == 0 ==> module_text(mods, m).take(("module "@ + m.name@ + ";\n"@).len() as int)
            == "module "@ + m.name@ + ";\n"@,
{
    let t = module_text(mods, m);
    if m.ports@.len() > 0 {
        let open = "module "@ + m.name@ + "(\n"@;
        assert(t.take(open.len() as int) =~= open);
    } else {
        let open = "module "@ + m.name@ + ";\n"@;
        assert(t.take(open.len() as int) =~= open);
    }
}

/// Appending the wire `w` to a module appends exactly its declaration
/// `  wire name;` to the module's wire declarations.
pub proof fn law_wires_text_append(m1: Module, m2: Module, w: Wire)
    requires
        m2.wires@ == m1.wires@.push(w),
    ensures
        wires_text(m2) == wires_text(m1) + "  wire "@ + w.name@ + ";\n"@,
{
    let s1 = Seq::new(m1.wires@.len(), |j: int| "  wire "@ + m1.wires@[j].name@ + ";\n"@);
    let s2 = Seq::new(m2.wires@.len(), |j: int| "  wire "@ + m2.wires@[j].name@ + ";\n"@);
    assert(s2.drop_last() =~= s1) by {
        assert forall|j: int| 0 <= j < s1.len() implies s2.drop_last()[j] == s1[j] by {
            assert(m2.wires@[j] == m1.wires@[j]);
        }
    }
}

/// Appending the instance `i` to a module (its wires unchanged) appends
/// exactly the text of `i` to the text of the module's instances.
pub proof fn law_instances_text_append(mods: Seq<Module>, m1: Module, m2: Module, i: Instance)
    requires
        m2.wires@ == m1.wires@,
        m2.instances@ == m1.instances@.push(i),
    ensures
        instances_text(mods, m2) == instances_text(mods, m1) + instance_text(mods, m2, i),
{
    let s1 = Seq::new(m1.instances@.len(), |j: int| instance_text(mods, m1, m1.instances@[j]));
    let s2 = Seq::new(m2.instances@.len(), |j: int| instance_text(mods, m2, m2.instances@[j]));
    assert forall|j: int| 0 <= j < s1.len() implies s2.drop_last()[j] == s1[j] by {
        assert(m2.instances@[j] == m1.instances@[j]);
        let inst = m1.instances@[j];
        let im = mods[inst.module.id as int];
        assert(Seq::new(inst.port_assigns@.len(), |q: int| crate::text::connection_text(im, m2, inst, q))
            =~= Seq::new(inst.port_assigns@.len(), |q: int| crate::text::connection_text(im, m1, inst, q)));
    }
    assert(s2.drop_last() =~= s1);
}

/// Appending a port to a module (its wires unchanged) appends its line
/// `    wire` to the port list: after the lines of the ports before it,
/// separated from them by a comma, and followed by the closing line break.
pub proof fn law_ports_text_append(m1: Module, m2: Module, pr: crate::module::Port)
    requires
        m2.wires@ == m1.wires@,
        m2.ports@ == m1.ports@.push(pr),
    ensures
        m1.ports@.len() == 0 ==> ports_text(m2) == "    "@ + m2.wire_name(pr.wire) + "\n"@,
        m1.ports@.len() > 0 ==> ports_text(m2) == ports_text(m1).drop_last() + ",\n"@ + "    "@
            + m2.wire_name(pr.wire) + "\n"@,
{
    let s1 = Seq::new(m1.ports@.len(), |j: int| "    "@ + m1.port_name(j));
    let s2 = Seq::new(m2.ports@.len(), |j: int| "    "@ + m2.port_name(j));
    assert(s2.drop_last() =~= s1) by {
        assert forall|j: int| 0 <= j < s1.len() implies s2.drop_last()[j] == s1[j] by {
            assert(m2.ports@[j] == m1.ports@[j]);
        }
    }
    assert(s2.last() == "    "@ + m2.wire_name(pr.wire));
    if m1.ports@.len() > 0 {
        reveal_strlit("\n");
        let j1 = join(s1, ",\n"@);
        assert((j1 + "\n"@).drop_last() =~= j1);
    }
}

} // verus!
