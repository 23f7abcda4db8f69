//! What converting an LLHD design into Verilog modules means, stated over
//! plain values.
//!
//! Entities are converted in order. Each one becomes a module of the same
//! name whose wires are the entity's arguments followed by its signals,
//! whose ports are the arguments (inputs first), whose assignments are its
//! drives and whose instances are its instances. Names are resolved at the
//! point where the instruction stands: an operand names the first wire of
//! that name declared so far, an instance names the first module of that
//! name made so far (the module being made included), and an argument of
//! the target names the first port of that name of the target's module.
use crate::design::{EntityArg, EntityDesc, EntityInst, LlhdType, TargetPorts};
use crate::module::{first_index_of, Instance, Module, PortType};
use crate::writer::{inst_name_result, type_error, type_matches, ConvertError};
use vstd::prelude::*;

verus! {

/// What the conversion reads of a module made earlier: its name, and the
/// names of the wires behind its ports.
pub type ModuleSummary = (Seq<char>, Seq<Seq<char>>);

/// What an instance is made of: its name, the index of the module it
/// instantiates, and its connections as (port index, wire index) pairs.
pub type InstanceModel = (Seq<char>, int, Seq<(int, int)>);

/// The summaries of the modules `mods`.
pub open spec fn summarize(mods: Seq<Module>) -> Seq<ModuleSummary> {
    mods.map_values(|m: Module| (m.name@, m.port_names()))
}

/// The names in the summaries `s`.
pub open spec fn summary_names(s: Seq<ModuleSummary>) -> Seq<Seq<char>> {
    s.map_values(|p: ModuleSummary| p.0)
}

/// The arguments of `e`: inputs, then outputs.
pub open spec fn args_of(e: EntityDesc) -> Seq<EntityArg> {
    e.inputs@ + e.outputs@
}

/// The names of the arguments of `e`.
pub open spec fn arg_names(e: EntityDesc) -> Seq<Seq<char>> {
    args_of(e).map_values(|a: EntityArg| a.name.unwrap()@)
}

/// The types of the arguments of `e`.
pub open spec fn arg_types(e: EntityDesc) -> Seq<LlhdType> {
    args_of(e).map_values(|a: EntityArg| a.ty)
}

/// Why the argument `a` cannot become a wire, if it cannot.
pub open spec fn arg_error(a: EntityArg) -> Option<ConvertError> {
    if a.name is None {
        Some(ConvertError::UnnamedValue)
    } else {
        type_error(a.ty)
    }
}

/// The first error among the first `n` arguments in `args`.
pub open spec fn args_error(args: Seq<EntityArg>, n: int) -> Option<ConvertError>
    decreases n,
{
    if n <= 0 {
        None
    } else {
        match args_error(args, n - 1) {
            Some(err) => Some(err),
            None => arg_error(args[n - 1]),
        }
    }
}

/// The names of the signals among the first `k` instructions.
pub open spec fn sig_names(insts: Seq<EntityInst>, k: int) -> Seq<Seq<char>>
    decreases k,
{
    if k <= 0 {
        Seq::empty()
    } else {
        match insts[k - 1] {
            EntityInst::Signal { name, ty } => sig_names(insts, k - 1).push(name.unwrap()@),
            _ => sig_names(insts, k - 1),
        }
    }
}

/// The types of the signals among the first `k` instructions.
pub open spec fn sig_types(insts: Seq<EntityInst>, k: int) -> Seq<LlhdType>
    decreases k,
{
    if k <= 0 {
        Seq::empty()
    } else {
        match insts[k - 1] {
            EntityInst::Signal { name, ty } => sig_types(insts, k - 1).push(ty),
            _ => sig_types(insts, k - 1),
        }
    }
}

/// The names of the wires of the module of `e` once its first `k`
/// instructions are converted.
pub open spec fn wires_at(e: EntityDesc, k: int) -> Seq<Seq<char>> {
    arg_names(e) + sig_names(e.insts@, k)
}

/// The LLHD types of those wires.
pub open spec fn wire_types_at(e: EntityDesc, k: int) -> Seq<LlhdType> {
    arg_types(e) + sig_types(e.insts@, k)
}

/// The instance counter once the first `k` instructions are converted,
/// starting from `c0`: each instance without a name takes one.
pub open spec fn counter_at(insts: Seq<EntityInst>, k: int, c0: int) -> int
    decreases k,
{
    if k <= 0 {
        c0
    } else {
        match insts[k - 1] {
            EntityInst::Instance { name, target, target_ports, ins, outs } => if name is None {
                counter_at(insts, k - 1, c0) + 1
            } else {
                counter_at(insts, k - 1, c0)
            },
            _ => counter_at(insts, k - 1, c0),
        }
    }
}

/// Why `drv lhs rhs` cannot become an assignment among the wires `w`.
pub open spec fn drive_error(w: Seq<Seq<char>>, lhs: Option<String>, rhs: Option<String>) -> Option<
    ConvertError,
> {
    if lhs is None {
        Some(ConvertError::UnnamedValue)
    } else if first_index_of(w, lhs.unwrap()@) is None {
        Some(ConvertError::UnknownWire)
    } else if rhs is None {
        Some(ConvertError::UnnamedValue)
    } else if first_index_of(w, rhs.unwrap()@) is None {
        Some(ConvertError::UnknownWire)
    } else {
        None
    }
}

/// The wire indices that `drv lhs rhs` assigns among the wires `w`.
pub open spec fn drive_model(w: Seq<Seq<char>>, lhs: Option<String>, rhs: Option<String>) -> (
    int,
    int,
) {
    (first_index_of(w, lhs.unwrap()@).unwrap(), first_index_of(w, rhs.unwrap()@).unwrap())
}

/// Why the `i`-th operand `arg` cannot be connected to the `i`-th argument
/// in `cons` of the target, whose ports carry the names `pn`, with the
/// operand read among the wires `w`.
pub open spec fn conn_error(
    cons: Seq<Option<String>>,
    arg: Option<String>,
    i: int,
    pn: Seq<Seq<char>>,
    w: Seq<Seq<char>>,
) -> Option<ConvertError> {
    if i >= cons.len() {
        Some(ConvertError::MissingTargetArgument)
    } else if cons[i] is None {
        Some(ConvertError::UnnamedValue)
    } else if arg is None {
        Some(ConvertError::UnnamedValue)
    } else if first_index_of(pn, cons[i].unwrap()@) is None {
        Some(ConvertError::UnknownPort)
    } else if first_index_of(w, arg.unwrap()@) is None {
        Some(ConvertError::UnknownWire)
    } else {
        None
    }
}

/// The first error among the first `n` operands in `args`.
pub open spec fn conns_error(
    cons: Seq<Option<String>>,
    args: Seq<Option<String>>,
    n: int,
    pn: Seq<Seq<char>>,
    w: Seq<Seq<char>>,
) -> Option<ConvertError>
    decreases n,
{
    if n <= 0 {
        None
    } else {
        match conns_error(cons, args, n - 1, pn, w) {
            Some(err) => Some(err),
            None => conn_error(cons, args[n - 1], n - 1, pn, w),
        }
    }
}

/// The (port index, wire index) pairs that the first `n` operands connect.
pub open spec fn conns(
    cons: Seq<Option<String>>,
    args: Seq<Option<String>>,
    n: int,
    pn: Seq<Seq<char>>,
    w: Seq<Seq<char>>,
) -> Seq<(int, int)> {
    Seq::new(
        n as nat,
        |i: int|
            (
                first_index_of(pn, cons[i].unwrap()@).unwrap(),
                first_index_of(w, args[i].unwrap()@).unwrap(),
            ),
    )
}

/// The index of the module that an instance of `target` names among the
/// modules named `mnames`.
pub open spec fn target_index(mnames: Seq<Seq<char>>, target: Option<String>) -> int {
    first_index_of(mnames, target.unwrap()@).unwrap()
}

/// Why an instance cannot be made: among modules named `mnames`, where the
/// target's ports carry the names `pn`, the operands are read among the
/// wires `w`, and the counter stands at `c`.
pub open spec fn instance_error(
    mnames: Seq<Seq<char>>,
    pn: Seq<Seq<char>>,
    w: Seq<Seq<char>>,
    c: usize,
    name: Option<String>,
    target: Option<String>,
    tp: Option<TargetPorts>,
    ins: Seq<Option<String>>,
    outs: Seq<Option<String>>,
) -> Option<ConvertError> {
    if target is None {
        Some(ConvertError::UnnamedValue)
    } else if first_index_of(mnames, target.unwrap()@) is None {
        Some(ConvertError::UnknownModule)
    } else if tp is None {
        Some(ConvertError::NotAnEntity)
    } else if inst_name_result(name, c) is Err {
        Some(ConvertError::CounterOverflow)
    } else if conns_error(tp.unwrap().inputs@, ins, ins.len() as int, pn, w) is Some {
        conns_error(tp.unwrap().inputs@, ins, ins.len() as int, pn, w)
    } else {
        conns_error(tp.unwrap().outputs@, outs, outs.len() as int, pn, w)
    }
}

/// The instance made in the same situation.
pub open spec fn instance_model(
    mnames: Seq<Seq<char>>,
    pn: Seq<Seq<char>>,
    w: Seq<Seq<char>>,
    c: usize,
    name: Option<String>,
    target: Option<String>,
    tp: Option<TargetPorts>,
    ins: Seq<Option<String>>,
    outs: Seq<Option<String>>,
) -> InstanceModel {
    (
        inst_name_result(name, c).unwrap().0,
        target_index(mnames, target),
        conns(tp.unwrap().inputs@, ins, ins.len() as int, pn, w) + conns(
            tp.unwrap().outputs@,
            outs,
            outs.len() as int,
            pn,
            w,
        ),
    )
}

/// `i` is the instance described by `model`, at position `j`.
pub open spec fn instance_matches(i: Instance, model: InstanceModel, j: int) -> bool {
    &&& i.id == j
    &&& i.inst_name@ == model.0
    &&& i.module.id == model.1
    &&& i.port_assigns@.len() == model.2.len()
    &&& forall|k: int|
        0 <= k < model.2.len() ==> {
            &&& (#[trigger] i.port_assigns@[k]).id == k
            &&& i.port_assigns@[k].lhs.id == model.2[k].0
            &&& i.port_assigns@[k].rhs.id == model.2[k].1
        }
}

/// The names of the modules known while `e` is converted: those made
/// before it, then its own.
pub open spec fn names_during(s: Seq<ModuleSummary>, e: EntityDesc) -> Seq<Seq<char>> {
    summary_names(s).push(e.name@)
}

/// The port names of the module at index `mi` while `e` is converted.
pub open spec fn target_port_names(s: Seq<ModuleSummary>, e: EntityDesc, mi: int) -> Seq<
    Seq<char>,
> {
    if mi < s.len() {
        s[mi].1
    } else {
        arg_names(e)
    }
}

/// Why the `k`-th instruction of `e` cannot be converted, given the earlier
/// modules `s` and the counter `c0` before `e`.
pub open spec fn step_error(s: Seq<ModuleSummary>, e: EntityDesc, c0: int, k: int) -> Option<
    ConvertError,
> {
    let w = wires_at(e, k);
    match e.insts@[k] {
        EntityInst::Drive { lhs, rhs } => drive_error(w, lhs, rhs),
        EntityInst::Instance { name, target, target_ports, ins, outs } => {
            let mnames = names_during(s, e);
            instance_error(
                mnames,
                target_port_names(s, e, target_index(mnames, target)),
                w,
                counter_at(e.insts@, k, c0) as usize,
                name,
                target,
                target_ports,
                ins@,
                outs@,
            )
        },
        EntityInst::Signal { name, ty } => if name is None {
            Some(ConvertError::UnnamedValue)
        } else {
            type_error(ty)
        },
        EntityInst::Unsupported => None,
    }
}

/// The first error among the first `n` instructions of `e`.
pub open spec fn steps_error(s: Seq<ModuleSummary>, e: EntityDesc, c0: int, n: int) -> Option<
    ConvertError,
>
    decreases n,
{
    if n <= 0 {
        None
    } else {
        match steps_error(s, e, c0, n - 1) {
            Some(err) => Some(err),
            None => step_error(s, e, c0, n - 1),
        }
    }
}

/// Why `e` cannot be converted, if it cannot.
pub open spec fn entity_error(s: Seq<ModuleSummary>, e: EntityDesc, c0: int) -> Option<
    ConvertError,
> {
    match args_error(args_of(e), args_of(e).len() as int) {
        Some(err) => Some(err),
        None => steps_error(s, e, c0, e.insts@.len() as int),
    }
}

/// The assignments made by the drives among the first `k` instructions.
pub open spec fn assigns_upto(e: EntityDesc, k: int) -> Seq<(int, int)>
    decreases k,
{
    if k <= 0 {
        Seq::empty()
    } else {
        match e.insts@[k - 1] {
            EntityInst::Drive { lhs, rhs } => assigns_upto(e, k - 1).push(
                drive_model(wires_at(e, k - 1), lhs, rhs),
            ),
            _ => assigns_upto(e, k - 1),
        }
    }
}

/// The instances made by the first `k` instructions.
pub open spec fn instances_upto(s: Seq<ModuleSummary>, e: EntityDesc, c0: int, k: int) -> Seq<
    InstanceModel,
>
    decreases k,
{
    if k <= 0 {
        Seq::empty()
    } else {
        match e.insts@[k - 1] {
            EntityInst::Instance { name, target, target_ports, ins, outs } => {
                let mnames = names_during(s, e);
                instances_upto(s, e, c0, k - 1).push(
                    instance_model(
                        mnames,
                        target_port_names(s, e, target_index(mnames, target)),
                        wires_at(e, k - 1),
                        counter_at(e.insts@, k - 1, c0) as usize,
                        name,
                        target,
                        target_ports,
                        ins@,
                        outs@,
                    ),
                )
            },
            _ => instances_upto(s, e, c0, k - 1),
        }
    }
}

/// The wires of `m` are named `names`, have the Verilog types of `tys`,
/// carry their own indices and are attached to no port.
pub open spec fn wires_match(m: Module, names: Seq<Seq<char>>, tys: Seq<LlhdType>) -> bool {
    &&& m.wires@.len() == names.len()
    &&& names.len() == tys.len()
    &&& forall|j: int|
        0 <= j < names.len() ==> {
            &&& (#[trigger] m.wires@[j]).id == j
            &&& m.wires@[j].name@ == names[j]
            &&& m.wires@[j].ports@.len() == 0
            &&& type_matches(tys[j], *m.wires@[j].ty)
        }
}

/// The ports of `m` are its first `n` wires, in order, the first
/// `n_inputs` of them inputs and the others outputs.
pub open spec fn ports_match(m: Module, n_inputs: int, n: int) -> bool {
    &&& m.ports@.len() == n
    &&& forall|j: int|
        0 <= j < n ==> {
            &&& (#[trigger] m.ports@[j]).id == j
            &&& m.ports@[j].wire.id == j
            &&& m.ports@[j].port_ty == (if j < n_inputs {
                PortType::Input
            } else {
                PortType::Output
            })
        }
}

/// The assignments of `m` are `pairs` of (lhs, rhs) wire indices.
pub open spec fn assigns_match(m: Module, pairs: Seq<(int, int)>) -> bool {
    &&& m.assigns@.len() == pairs.len()
    &&& forall|j: int|
        0 <= j < pairs.len() ==> {
            &&& (#[trigger] m.assigns@[j]).id == j
            &&& m.assigns@[j].lhs.id == pairs[j].0
            &&& m.assigns@[j].rhs.id == pairs[j].1
        }
}

/// The instances of `m` are those of `models`.
pub open spec fn instances_match(m: Module, models: Seq<InstanceModel>) -> bool {
    &&& m.instances@.len() == models.len()
    &&& forall|j: int|
        0 <= j < models.len() ==> instance_matches(#[trigger] m.instances@[j], models[j], j)
}

/// `m` holds, as wires and ports, the first `j` arguments of `e`.
pub open spec fn module_with_args(m: Module, e: EntityDesc, j: int) -> bool {
    &&& wires_match(m, arg_names(e).take(j), arg_types(e).take(j))
    &&& ports_match(m, e.inputs@.len() as int, j)
}

/// `m` is `before` with the first `j` arguments of `e` appended: argument
/// `k` as the wire after the wires of `before` at offset `k`, and as the
/// port after the ports of `before` at offset `k`, on that wire; inputs
/// come before outputs.
pub open spec fn args_appended(before: Module, m: Module, e: EntityDesc, j: int) -> bool {
    let nw = before.wires@.len() as int;
    let np = before.ports@.len() as int;
    &&& m.wires@.len() == nw + j
    &&& m.wires@.take(nw) == before.wires@
    &&& m.ports@.len() == np + j
    &&& m.ports@.take(np) == before.ports@
    &&& forall|i: int|
        nw <= i < nw + j ==> {
            &&& (#[trigger] m.wires@[i]).id == i
            &&& m.wires@[i].name@ == arg_names(e)[i - nw]
            &&& m.wires@[i].ports@.len() == 0
            &&& type_matches(arg_types(e)[i - nw], *m.wires@[i].ty)
        }
    &&& forall|i: int|
        np <= i < np + j ==> {
            &&& (#[trigger] m.ports@[i]).id == i
            &&& m.ports@[i].wire.id == nw + (i - np)
            &&& m.ports@[i].port_ty == (if i - np < e.inputs@.len() {
                PortType::Input
            } else {
                PortType::Output
            })
        }
}

/// `m` is the module of `e` at index `s.len()`, once the first `k`
/// instructions of `e` are converted.
pub open spec fn module_after(
    s: Seq<ModuleSummary>,
    e: EntityDesc,
    c0: int,
    k: int,
    m: Module,
) -> bool {
    &&& m.id == s.len()
    &&& m.name@ == e.name@
    &&& wires_match(m, wires_at(e, k), wire_types_at(e, k))
    &&& ports_match(m, e.inputs@.len() as int, args_of(e).len() as int)
    &&& assigns_match(m, assigns_upto(e, k))
    &&& instances_match(m, instances_upto(s, e, c0, k))
}

/// `m` is the module that `e` becomes, made at index `s.len()`.
pub open spec fn module_of(s: Seq<ModuleSummary>, e: EntityDesc, c0: int, m: Module) -> bool {
    module_after(s, e, c0, e.insts@.len() as int, m)
}

/// The summary of the module that `e` becomes.
pub open spec fn summary_of(e: EntityDesc) -> ModuleSummary {
    (e.name@, arg_names(e))
}

/// Converting the first `j` entities of `ents`, starting from summaries `s`
/// and counter `c0`: the first error, or the summaries and counter after.
pub open spec fn entities_result(
    s: Seq<ModuleSummary>,
    c0: int,
    ents: Seq<EntityDesc>,
    j: int,
) -> Result<(Seq<ModuleSummary>, int), ConvertError>
    decreases j,
{
    if j <= 0 {
        Ok((s, c0))
    } else {
        match entities_result(s, c0, ents, j - 1) {
            Err(err) => Err(err),
            Ok((s1, c1)) => match entity_error(s1, ents[j - 1], c1) {
                Some(err) => Err(err),
                None => Ok(
                    (
                        s1.push(summary_of(ents[j - 1])),
                        counter_at(ents[j - 1].insts@, ents[j - 1].insts@.len() as int, c1),
                    ),
                ),
            },
        }
    }
}

/// Each count that the conversion of `e` adds to fits in a `usize`.
pub open spec fn entity_fits(e: EntityDesc) -> bool {
    &&& e.inputs@.len() + e.outputs@.len() + e.insts@.len() < usize::MAX
    &&& forall|k: int|
        0 <= k < e.insts@.len() ==> match #[trigger] e.insts@[k] {
            EntityInst::Instance { name, target, target_ports, ins, outs } => ins@.len()
                + outs@.len() < usize::MAX,
            _ => true,
        }
}

} // verus!
