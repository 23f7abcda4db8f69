//! Lemmas behind the conversion of entities: each kind of instruction takes
//! the module of an entity from its state before the instruction to its
//! state after it, and first errors stay first.
use crate::design::{EntityArg, EntityDesc, EntityInst};
use crate::module::{lemma_first_index_of_found, Assign, Instance, Module};
use crate::semantics::{
    arg_names, args_error, args_of, assigns_upto, conn_error, conns, conns_error, counter_at,
    drive_error, drive_model, entities_result, instance_matches, instances_upto, module_after,
    module_of, names_during, sig_names, sig_types, step_error, steps_error, summarize, summary_of,
    target_index, target_port_names, wire_types_at, wires_at, ModuleSummary,
};
use crate::writer::{instance_wf, module_names, module_wf, type_matches, writer_wf};
use vstd::prelude::*;

verus! {

/// The writer's modules while the entity `e` is converted, once its first
/// `k` instructions are: the earlier modules, summarized by `s`, then the
/// module of `e`.
pub open spec fn inv_at(s: Seq<ModuleSummary>, e: EntityDesc, c0: int, k: int, mods: Seq<Module>) -> bool {
    let l = s.len() as int;
    &&& mods.len() == l + 1
    &&& s == summarize(mods.take(l))
    &&& 0 <= k <= e.insts@.len()
    &&& module_after(s, e, c0, k, mods[l])
    &&& args_error(args_of(e), args_of(e).len() as int) is None
    &&& steps_error(s, e, c0, k) is None
    &&& writer_wf(mods)
}

/// What the conversion of an instruction reads: the wires of the module,
/// the names of the modules, and the ports of each module.
pub proof fn lemma_step_context(s: Seq<ModuleSummary>, e: EntityDesc, c0: int, k: int, mods: Seq<Module>)
    requires
        inv_at(s, e, c0, k, mods),
    ensures
        mods[s.len() as int].wire_names() == wires_at(e, k),
        module_names(mods) == names_during(s, e),
        forall|mi: int|
            0 <= mi <= s.len() ==> #[trigger] mods[mi].port_names() == target_port_names(s, e, mi),
        mods[s.len() as int].ids_consistent(),
{
    let l = s.len() as int;
    let cur = mods[l];
    assert(cur.wire_names() =~= wires_at(e, k));
    assert forall|i: int| 0 <= i < l implies mods[i] == #[trigger] mods.take(l)[i] by {}
    assert(module_names(mods) =~= names_during(s, e)) by {
        assert forall|i: int| 0 <= i < l + 1 implies #[trigger] module_names(mods)[i] == names_during(
            s,
            e,
        )[i] by {
            if i < l {
                assert(mods[i] == mods.take(l)[i]);
            }
        }
    }
    assert forall|mi: int| 0 <= mi <= s.len() implies #[trigger] mods[mi].port_names()
        == target_port_names(s, e, mi) by {
        if mi < l {
            assert(mods[mi] == mods.take(l)[mi]);
        } else {
            assert(cur.port_names() =~= arg_names(e)) by {
                assert forall|j: int| 0 <= j < arg_names(e).len() implies #[trigger] cur.port_names()[j]
                    == arg_names(e)[j] by {
                    assert(cur.ports@[j].wire.id == j);
                    assert(wires_at(e, k)[j] == arg_names(e)[j]);
                }
            }
        }
    }
    assert(module_wf(mods, l));
}

/// Counts of what the first `k` instructions add are at most `k`.
pub proof fn lemma_counts_bounded(s: Seq<ModuleSummary>, e: EntityDesc, c0: int, k: int)
    requires
        0 <= k <= e.insts@.len(),
    ensures
        sig_names(e.insts@, k).len() <= k,
        sig_types(e.insts@, k).len() == sig_names(e.insts@, k).len(),
        assigns_upto(e, k).len() <= k,
        instances_upto(s, e, c0, k).len() <= k,
    decreases k,
{
    if k > 0 {
        lemma_counts_bounded(s, e, c0, k - 1);
    }
}

/// Once an error is found among the first `k` instructions, it stays the
/// first error among more of them.
pub proof fn lemma_steps_error_stays(s: Seq<ModuleSummary>, e: EntityDesc, c0: int, k: int, n: int)
    requires
        0 <= k <= n,
        steps_error(s, e, c0, k) is Some,
    ensures
        steps_error(s, e, c0, n) == steps_error(s, e, c0, k),
    decreases n - k,
{
    if k < n {
        lemma_steps_error_stays(s, e, c0, k, n - 1);
    }
}

/// Where no operand among the first `n` fails, none of them does.
pub proof fn lemma_conns_ok(
    cons: Seq<Option<String>>,
    args: Seq<Option<String>>,
    n: int,
    pn: Seq<Seq<char>>,
    w: Seq<Seq<char>>,
)
    requires
        conns_error(cons, args, n, pn, w) is None,
    ensures
        forall|i: int| 0 <= i < n ==> #[trigger] conn_error(cons, args[i], i, pn, w) is None,
    decreases n,
{
    if n > 0 {
        lemma_conns_ok(cons, args, n - 1, pn, w);
    }
}

/// The connections of operands that do not fail name ports among `pn` and
/// wires among `w`.
pub proof fn lemma_conns_bounds(
    cons: Seq<Option<String>>,
    args: Seq<Option<String>>,
    n: int,
    pn: Seq<Seq<char>>,
    w: Seq<Seq<char>>,
)
    requires
        0 <= n,
        conns_error(cons, args, n, pn, w) is None,
    ensures
        forall|i: int|
            0 <= i < n ==> {
                &&& 0 <= (#[trigger] conns(cons, args, n, pn, w)[i]).0 < pn.len()
                &&& 0 <= conns(cons, args, n, pn, w)[i].1 < w.len()
            },
{
    lemma_conns_ok(cons, args, n, pn, w);
    assert forall|i: int| 0 <= i < n implies {
        &&& 0 <= (#[trigger] conns(cons, args, n, pn, w)[i]).0 < pn.len()
        &&& 0 <= conns(cons, args, n, pn, w)[i].1 < w.len()
    } by {
        assert(conn_error(cons, args[i], i, pn, w) is None);
        lemma_first_index_of_found(pn, cons[i].unwrap()@);
        lemma_first_index_of_found(w, args[i].unwrap()@);
    }
}

/// An instance stays well formed when the modules change but keep their
/// number and their ports.
pub proof fn lemma_instance_wf_same_ports(before: Seq<Module>, after: Seq<Module>, inst: Instance)
    requires
        instance_wf(before, inst),
        after.len() == before.len(),
        forall|i: int| 0 <= i < before.len() ==> (#[trigger] after[i]).ports == before[i].ports,
    ensures
        instance_wf(after, inst),
{
    assert(after[inst.module.id as int].ports == before[inst.module.id as int].ports);
}

/// The modules other than the last one stay well formed when only the last
/// one changes, keeping its ports.
pub proof fn lemma_wf_others(before: Seq<Module>, after: Seq<Module>)
    requires
        writer_wf(before),
        after.len() == before.len(),
        before.len() > 0,
        after.take(before.len() - 1) == before.take(before.len() - 1),
        after.last().ports == before.last().ports,
    ensures
        forall|i: int| 0 <= i < before.len() - 1 ==> module_wf(after, i),
        forall|i: int| 0 <= i < before.len() ==> (#[trigger] after[i]).ports == before[i].ports,
{
    let l = before.len() - 1;
    assert forall|i: int| 0 <= i < l implies after[i] == before[i] by {
        assert(after[i] == after.take(l)[i]);
        assert(before[i] == before.take(l)[i]);
    }
    assert forall|i: int| 0 <= i < before.len() implies (#[trigger] after[i]).ports
        == before[i].ports by {
        if i < l {
            assert(after[i] == before[i]);
        }
    }
    assert forall|i: int| 0 <= i < l implies module_wf(after, i) by {
        assert(module_wf(before, i));
        assert(after[i] == before[i]);
        let m = after[i];
        assert forall|j: int| 0 <= j < m.instances@.len() implies instance_wf(
            after,
            #[trigger] m.instances@[j],
        ) by {
            lemma_instance_wf_same_ports(before, after, m.instances@[j]);
        }
    }
}

/// A drive takes the module of `e` from its state before the `k`-th
/// instruction to its state after it.
pub proof fn lemma_drive_step(
    s: Seq<ModuleSummary>,
    e: EntityDesc,
    c0: int,
    k: int,
    before: Seq<Module>,
    after: Seq<Module>,
    a: Assign,
)
    requires
        inv_at(s, e, c0, k, before),
        k < e.insts@.len(),
        e.insts@[k] matches EntityInst::Drive { lhs, rhs } && drive_error(wires_at(e, k), lhs, rhs)
            is None && (a.lhs.id as int, a.rhs.id as int) == drive_model(wires_at(e, k), lhs, rhs),
        before[s.len() as int].assigns@.len() < usize::MAX,
        after.len() == before.len(),
        after.take(s.len() as int) == before.take(s.len() as int),
        ({
            let b = before[s.len() as int];
            let m = after[s.len() as int];
            &&& m.id == b.id
            &&& m.name == b.name
            &&& m.ports == b.ports
            &&& m.wires == b.wires
            &&& m.instances == b.instances
            &&& m.assigns@ == b.assigns@.push(
                Assign { id: b.assigns@.len() as usize, lhs: a.lhs, rhs: a.rhs },
            )
        }),
    ensures
        inv_at(s, e, c0, k + 1, after),
{
    let l = s.len() as int;
    let b = before[l];
    let m = after[l];
    if let EntityInst::Drive { lhs, rhs } = e.insts@[k] {
        let w = wires_at(e, k);
        assert(wires_at(e, k + 1) == w);
        assert(wire_types_at(e, k + 1) == wire_types_at(e, k));
        assert(assigns_upto(e, k + 1) == assigns_upto(e, k).push(drive_model(w, lhs, rhs)));
        assert(instances_upto(s, e, c0, k + 1) == instances_upto(s, e, c0, k));
        assert(steps_error(s, e, c0, k + 1) == step_error(s, e, c0, k));
        lemma_first_index_of_found(w, lhs.unwrap()@);
        lemma_first_index_of_found(w, rhs.unwrap()@);
        assert(after.last().ports == before.last().ports);
        lemma_wf_others(before, after);
        assert(module_wf(before, l));
        assert(module_after(s, e, c0, k + 1, m)) by {
            assert forall|j: int| 0 <= j < assigns_upto(e, k + 1).len() implies {
                &&& (#[trigger] m.assigns@[j]).id == j
                &&& m.assigns@[j].lhs.id == assigns_upto(e, k + 1)[j].0
                &&& m.assigns@[j].rhs.id == assigns_upto(e, k + 1)[j].1
            } by {
                if j < b.assigns@.len() {
                    assert(m.assigns@[j] == b.assigns@[j]);
                }
            }
        }
        assert(after.take(l) == before.take(l));
        assert(module_wf(after, l)) by {
            assert forall|j: int| 0 <= j < m.instances@.len() implies instance_wf(
                after,
                #[trigger] m.instances@[j],
            ) by {
                lemma_instance_wf_same_ports(before, after, m.instances@[j]);
            }
            assert(m.refs_valid()) by {
                assert forall|j: int| 0 <= j < m.assigns@.len() implies {
                    &&& m.valid_wire(#[trigger] m.assigns@[j].lhs)
                    &&& m.valid_wire(m.assigns@[j].rhs)
                } by {
                    if j < b.assigns@.len() {
                        assert(m.assigns@[j] == b.assigns@[j]);
                    }
                }
            }
        }
    }
}

/// An instruction that is neither a drive, an instance nor a signal leaves
/// the module of `e` as it is.
pub proof fn lemma_unsupported_step(s: Seq<ModuleSummary>, e: EntityDesc, c0: int, k: int, mods: Seq<Module>)
    requires
        inv_at(s, e, c0, k, mods),
        k < e.insts@.len(),
        e.insts@[k] is Unsupported,
    ensures
        inv_at(s, e, c0, k + 1, mods),
        counter_at(e.insts@, k + 1, c0) == counter_at(e.insts@, k, c0),
{
    assert(wires_at(e, k + 1) == wires_at(e, k));
    assert(wire_types_at(e, k + 1) == wire_types_at(e, k));
    assert(assigns_upto(e, k + 1) == assigns_upto(e, k));
    assert(instances_upto(s, e, c0, k + 1) == instances_upto(s, e, c0, k));
    assert(steps_error(s, e, c0, k + 1) == step_error(s, e, c0, k));
}

/// A signal takes the module of `e` from its state before the `k`-th
/// instruction to its state after it.
pub proof fn lemma_signal_step(
    s: Seq<ModuleSummary>,
    e: EntityDesc,
    c0: int,
    k: int,
    before: Seq<Module>,
    after: Seq<Module>,
)
    requires
        inv_at(s, e, c0, k, before),
        k < e.insts@.len(),
        e.insts@[k] matches EntityInst::Signal { name, ty } && step_error(s, e, c0, k) is None
            && after.len() == before.len() && after.take(s.len() as int) == before.take(
            s.len() as int,
        ) && {
            let b = before[s.len() as int];
            let m = after[s.len() as int];
            let n = b.wires@.len();
            &&& m.id == b.id
            &&& m.name == b.name
            &&& m.ports == b.ports
            &&& m.assigns == b.assigns
            &&& m.instances == b.instances
            &&& m.wires@.len() == n + 1
            &&& m.wires@.take(n as int) == b.wires@
            &&& m.wires@[n as int].id == n
            &&& m.wires@[n as int].name@ == name.unwrap()@
            &&& m.wires@[n as int].ports@.len() == 0
            &&& type_matches(ty, *m.wires@[n as int].ty)
        },
    ensures
        inv_at(s, e, c0, k + 1, after),
        counter_at(e.insts@, k + 1, c0) == counter_at(e.insts@, k, c0),
{
    let l = s.len() as int;
    let b = before[l];
    let m = after[l];
    if let EntityInst::Signal { name, ty } = e.insts@[k] {
        let n = b.wires@.len() as int;
        assert(wires_at(e, k + 1) =~= wires_at(e, k).push(name.unwrap()@));
        assert(wire_types_at(e, k + 1) =~= wire_types_at(e, k).push(ty));
        assert(assigns_upto(e, k + 1) == assigns_upto(e, k));
        assert(instances_upto(s, e, c0, k + 1) == instances_upto(s, e, c0, k));
        assert(steps_error(s, e, c0, k + 1) == step_error(s, e, c0, k));
        lemma_wf_others(before, after);
        assert(module_wf(before, l));
        assert forall|j: int| 0 <= j < n implies m.wires@[j] == b.wires@[j] by {
            assert(m.wires@[j] == m.wires@.take(n)[j]);
        }
        assert(module_after(s, e, c0, k + 1, m));
        assert(module_wf(after, l)) by {
            assert forall|j: int| 0 <= j < m.instances@.len() implies instance_wf(
                after,
                #[trigger] m.instances@[j],
            ) by {
                lemma_instance_wf_same_ports(before, after, m.instances@[j]);
            }
        }
    }
}

/// An instance takes the module of `e` from its state before the `k`-th
/// instruction to its state after it.
pub proof fn lemma_instance_step(
    s: Seq<ModuleSummary>,
    e: EntityDesc,
    c0: int,
    k: int,
    before: Seq<Module>,
    after: Seq<Module>,
)
    requires
        inv_at(s, e, c0, k, before),
        k < e.insts@.len(),
        e.insts@[k] is Instance,
        step_error(s, e, c0, k) is None,
        after.len() == before.len(),
        after.take(s.len() as int) == before.take(s.len() as int),
        ({
            let b = before[s.len() as int];
            let m = after[s.len() as int];
            let n = b.instances@.len();
            &&& m.id == b.id
            &&& m.name == b.name
            &&& m.ports == b.ports
            &&& m.wires == b.wires
            &&& m.assigns == b.assigns
            &&& m.instances@.len() == n + 1
            &&& m.instances@.take(n as int) == b.instances@
            &&& instance_matches(
                m.instances@[n as int],
                instances_upto(s, e, c0, k + 1).last(),
                n as int,
            )
        }),
    ensures
        inv_at(s, e, c0, k + 1, after),
{
    let l = s.len() as int;
    let b = before[l];
    let m = after[l];
    if let EntityInst::Instance { name, target, target_ports, ins, outs } = e.insts@[k] {
        let n = b.instances@.len() as int;
        let mnames = names_during(s, e);
        let ti = target_index(mnames, target);
        let pn = target_port_names(s, e, ti);
        let w = wires_at(e, k);
        let tp = target_ports.unwrap();
        assert(wires_at(e, k + 1) == w);
        assert(wire_types_at(e, k + 1) == wire_types_at(e, k));
        assert(assigns_upto(e, k + 1) == assigns_upto(e, k));
        assert(steps_error(s, e, c0, k + 1) == step_error(s, e, c0, k));
        lemma_step_context(s, e, c0, k, before);
        lemma_wf_others(before, after);
        assert(module_wf(before, l));
        lemma_first_index_of_found(mnames, target.unwrap()@);
        lemma_conns_bounds(tp.inputs@, ins@, ins@.len() as int, pn, w);
        lemma_conns_bounds(tp.outputs@, outs@, outs@.len() as int, pn, w);
        let model = instances_upto(s, e, c0, k + 1).last();
        let c1 = conns(tp.inputs@, ins@, ins@.len() as int, pn, w);
        let c2 = conns(tp.outputs@, outs@, outs@.len() as int, pn, w);
        assert(model.2 == c1 + c2);
        assert forall|j: int| 0 <= j < n implies m.instances@[j] == b.instances@[j] by {
            assert(m.instances@[j] == m.instances@.take(n)[j]);
        }
        assert(module_after(s, e, c0, k + 1, m));
        assert(before[ti].port_names() == pn);
        assert(after[ti].ports == before[ti].ports);
        assert(module_wf(after, l)) by {
            let inst = m.instances@[n];
            assert forall|j: int| 0 <= j < m.instances@.len() implies instance_wf(
                after,
                #[trigger] m.instances@[j],
            ) by {
                if j < n {
                    lemma_instance_wf_same_ports(before, after, m.instances@[j]);
                } else {
                    assert forall|q: int| 0 <= q < inst.port_assigns@.len() implies after[inst.module.id as int].valid_port(
                        #[trigger] inst.port_assigns@[q].lhs,
                    ) by {
                        assert(inst.port_assigns@[q].lhs.id == model.2[q].0);
                        if q < c1.len() {
                            assert(model.2[q] == c1[q]);
                        } else {
                            assert(model.2[q] == c2[q - c1.len()]);
                        }
                    }
                }
            }
            assert(m.refs_valid()) by {
                assert forall|j: int, q: int|
                    0 <= j < m.instances@.len() && 0 <= q
                        < m.instances@[j].port_assigns@.len() implies m.valid_wire(
                    #[trigger] m.instances@[j].port_assigns@[q].rhs,
                ) by {
                    if j < n {
                        assert(m.instances@[j] == b.instances@[j]);
                    } else {
                        assert(m.instances@[j].port_assigns@[q].rhs.id == model.2[q].1);
                        if q < c1.len() {
                            assert(model.2[q] == c1[q]);
                        } else {
                            assert(model.2[q] == c2[q - c1.len()]);
                        }
                    }
                }
            }
        }
    }
}

/// Once an error is found among the first `k` arguments, it stays the
/// first error among more of them.
pub proof fn lemma_args_error_stays(args: Seq<EntityArg>, k: int, n: int)
    requires
        0 <= k <= n,
        args_error(args, k) is Some,
    ensures
        args_error(args, n) == args_error(args, k),
    decreases n - k,
{
    if k < n {
        lemma_args_error_stays(args, k, n - 1);
    }
}

/// Once an error is found among the first `k` operands, it stays the first
/// error among more of them.
pub proof fn lemma_conns_error_stays(
    cons: Seq<Option<String>>,
    args: Seq<Option<String>>,
    k: int,
    n: int,
    pn: Seq<Seq<char>>,
    w: Seq<Seq<char>>,
)
    requires
        0 <= k <= n,
        conns_error(cons, args, k, pn, w) is Some,
    ensures
        conns_error(cons, args, n, pn, w) == conns_error(cons, args, k, pn, w),
    decreases n - k,
{
    if k < n {
        lemma_conns_error_stays(cons, args, k, n - 1, pn, w);
    }
}

/// The module that `e` becomes is summarized by the name of `e` and the
/// names of its arguments.
pub proof fn lemma_summary_of(s: Seq<ModuleSummary>, e: EntityDesc, c0: int, m: Module)
    requires
        module_of(s, e, c0, m),
    ensures
        (m.name@, m.port_names()) == summary_of(e),
{
    let k = e.insts@.len() as int;
    assert(m.port_names() =~= arg_names(e)) by {
        assert forall|j: int| 0 <= j < arg_names(e).len() implies #[trigger] m.port_names()[j]
            == arg_names(e)[j] by {
            assert(m.ports@[j].wire.id == j);
            assert(wires_at(e, k)[j] == arg_names(e)[j]);
        }
    }
}

/// Once converting an entity fails, converting more of them fails the same
/// way.
pub proof fn lemma_entities_error_stays(
    s: Seq<ModuleSummary>,
    c0: int,
    ents: Seq<EntityDesc>,
    k: int,
    n: int,
)
    requires
        0 <= k <= n,
        entities_result(s, c0, ents, k) is Err,
    ensures
        entities_result(s, c0, ents, n) == entities_result(s, c0, ents, k),
    decreases n - k,
{
    if k < n {
        lemma_entities_error_stays(s, c0, ents, k, n - 1);
    }
}

/// Appending a well-formed module keeps the writer's modules well formed.
pub proof fn lemma_wf_push(old_mods: Seq<Module>, mods: Seq<Module>)
    requires
        writer_wf(old_mods),
        mods.len() == old_mods.len() + 1,
        mods.take(old_mods.len() as int) == old_mods,
        module_wf(mods, old_mods.len() as int),
    ensures
        writer_wf(mods),
{
    let l = old_mods.len() as int;
    assert forall|i: int| 0 <= i < l implies module_wf(mods, i) by {
        assert(mods[i] == mods.take(l)[i]);
        assert(module_wf(old_mods, i));
        let m = mods[i];
        assert forall|j: int| 0 <= j < m.instances@.len() implies instance_wf(
            mods,
            #[trigger] m.instances@[j],
        ) by {
            let inst = m.instances@[j];
            assert(instance_wf(old_mods, inst));
            assert(mods[inst.module.id as int] == mods.take(l)[inst.module.id as int]);
        }
    }
}

} // verus!
