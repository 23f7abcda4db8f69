//! Reading LLHD assembly with the `llhd` crate, and describing the module it
//! holds as a `Design`.
//!
//! The items marked `external_body` below are trusted: each calls the
//! `llhd` crate and converts what it returns into plain values. What each
//! returns is named by a specification function without a body
//! (`llhd_module_values`, `llhd_entity_insts`, ...), whose parameter is the
//! `llhd` value it reads: a module holds its units, an entity its arguments
//! and instructions. The description built from them, and the resolution of
//! every operand to the name it carries, are verified against those names.
use crate::design::{Design, EntityArg, EntityDesc, EntityInst, LlhdType, TargetPorts};
use crate::llhd_text::{llhd_text_check, llhd_text_supported};
use llhd::Module as LlhdModule;
use llhd::TypeKind as LlhdTypeKind;
use llhd::Value;
use vstd::prelude::*;

verus! {

/// An LLHD module, as the `llhd` crate holds it.
#[verifier::external_type_specification]
#[verifier::external_body]
pub struct ExLlhdModule(LlhdModule);

/// An LLHD entity.
#[verifier::external_type_specification]
#[verifier::external_body]
pub struct ExLlhdEntity(llhd::Entity);

/// A reference to a value of an LLHD module.
#[verifier::external_type_specification]
#[verifier::external_body]
pub struct ExLlhdValueRef(llhd::ValueRef);

/// An LLHD type.
#[verifier::external_type_specification]
#[verifier::external_body]
pub struct ExLlhdTypeKind(LlhdTypeKind);

/// The data of an LLHD instruction.
#[verifier::external_type_specification]
#[verifier::external_body]
pub struct ExLlhdInstKind(llhd::InstKind);

/// A value reference as a plain value: the kind of value it refers to, and
/// the value's id (`llhd::ValueRef::id`) for the kinds that carry one.
#[derive(PartialEq, Eq, Structural, Debug, Clone, Copy)]
pub enum ValueKey {
    Inst(usize),
    Block(usize),
    Argument(usize),
    Function(usize),
    Process(usize),
    Entity(usize),
    Global,
    Const,
}

/// The instructions that the conversion tells apart, with their operands.
pub enum InstShape {
    /// `drv lhs rhs`.
    Drive(llhd::ValueRef, llhd::ValueRef),
    /// `inst target (ins) (outs)`.
    Instance(llhd::ValueRef, Vec<llhd::ValueRef>, Vec<llhd::ValueRef>),
    /// `sig ty`.
    Signal(llhd::Type),
    /// Any other instruction.
    Other,
}

/// The message with which `llhd::assembly::parse_str` rejects `text`, or
/// `None` where it accepts it.
pub uninterp spec fn llhd_parse_error(text: Seq<char>) -> Option<Seq<char>>;

/// Whether `m` is a module that `llhd::assembly::parse_str` builds from
/// `text`. The module is not a function of the text: the ids of its values
/// come from a counter shared by the whole process.
pub uninterp spec fn llhd_parsed_from(text: Seq<char>, m: LlhdModule) -> bool;

/// The values of `m` (its functions, processes and entities), in the order
/// in which `llhd::Module::values` lists them.
pub uninterp spec fn llhd_module_values(m: LlhdModule) -> Seq<llhd::ValueRef>;

/// The plain form of the value reference `v`.
pub uninterp spec fn llhd_value_key(v: llhd::ValueRef) -> ValueKey;

/// The name of the unit of `m` that the value `v` of `m` refers to.
pub uninterp spec fn llhd_unit_name(m: LlhdModule, v: llhd::ValueRef) -> Option<String>;

/// The entity of `m` that the value `v` of `m` refers to, where it refers to
/// an entity.
pub uninterp spec fn llhd_unit_entity(m: LlhdModule, v: llhd::ValueRef) -> Option<llhd::Entity>;

/// The name of the entity `e` (`llhd::Entity::name`).
pub uninterp spec fn llhd_entity_name(e: llhd::Entity) -> String;

/// The input arguments of `e` (`llhd::Entity::inputs`), each as its id, name
/// and type.
pub uninterp spec fn llhd_entity_inputs(e: llhd::Entity) -> Seq<(usize, Option<String>, llhd::Type)>;

/// The output arguments of `e` (`llhd::Entity::outputs`), each as its id,
/// name and type.
pub uninterp spec fn llhd_entity_outputs(e: llhd::Entity) -> Seq<(usize, Option<String>, llhd::Type)>;

/// The instructions of `e` in order (`llhd::Entity::insts`), each as its id,
/// name and data.
pub uninterp spec fn llhd_entity_insts(e: llhd::Entity) -> Seq<(usize, Option<String>, llhd::InstKind)>;

/// The shape of the instruction data `k`.
pub uninterp spec fn llhd_inst_shape(k: llhd::InstKind) -> InstShape;

/// The plain description of the LLHD type `t`.
pub uninterp spec fn llhd_type_desc(t: llhd::Type) -> LlhdType;

/// Calls `llhd::assembly::parse_str` on a text of the subset that
/// `llhd_text_supported` describes. Claimed: `parse_str` returns on such a
/// text (the panics of its name tables, integer widths, operand lists and
/// type unwrapping cannot be reached on it, since every name there is
/// declared once in its scope before it is used, every width has at most
/// nine digits, every instance names an entity taking at least as many
/// operands, every drive drives a signal of integers, and every constant
/// stands where an integer type is expected); it returns a module exactly
/// where `llhd_parse_error(text)` is `None`, and that module is one built
/// from `text`; otherwise it returns the message that `llhd_parse_error`
/// names.
#[verifier::external_body]
fn parse_module(text: &str) -> (r: Result<LlhdModule, String>)
    requires
        llhd_text_supported(text@),
    ensures
        match r {
            Ok(m) => llhd_parse_error(text@) is None && llhd_parsed_from(text@, m),
            Err(msg) => llhd_parse_error(text@) == Some(msg@),
        },
{
    llhd::assembly::parse_str(text)
}

/// Calls `llhd::Module::values`, collecting the references to the module's
/// values in the module's order.
#[verifier::external_body]
fn module_values(m: &LlhdModule) -> (r: Vec<llhd::ValueRef>)
    ensures
        r@ == llhd_module_values(*m),
{
    m.values().cloned().collect()
}

/// Converts the value reference `v` into its plain form, one variant for
/// one, with the id that `llhd::ValueRef::id` gives (0 where it gives none).
#[verifier::external_body]
fn value_key(v: &llhd::ValueRef) -> (r: ValueKey)
    ensures
        r == llhd_value_key(*v),
{
    let id = v.id().map(|i| i.as_usize()).unwrap_or(0);
    match v {
        llhd::ValueRef::Inst(_) => ValueKey::Inst(id),
        llhd::ValueRef::Block(_) => ValueKey::Block(id),
        llhd::ValueRef::Argument(_) => ValueKey::Argument(id),
        llhd::ValueRef::Function(_) => ValueKey::Function(id),
        llhd::ValueRef::Process(_) => ValueKey::Process(id),
        llhd::ValueRef::Entity(_) => ValueKey::Entity(id),
        llhd::ValueRef::Global => ValueKey::Global,
        llhd::ValueRef::Const(_) => ValueKey::Const,
    }
}

/// Calls `llhd::Module::function`, `process` or `entity` for the value `v`
/// of `m`, by its kind, and returns the unit's name; `None` for any other
/// kind. These lookups panic only on a reference that `m` does not hold;
/// `llhd::Module::values` lists exactly the references that the module's
/// `add_*` methods put into its maps, and nothing removes them.
#[verifier::external_body]
fn unit_name(m: &LlhdModule, v: &llhd::ValueRef) -> (r: Option<String>)
    requires
        llhd_module_values(*m).contains(*v),
    ensures
        r == llhd_unit_name(*m, *v),
{
    match v {
        llhd::ValueRef::Function(f) => Some(m.function(*f).name().to_string()),
        llhd::ValueRef::Process(p) => Some(m.process(*p).name().to_string()),
        llhd::ValueRef::Entity(e) => Some(m.entity(*e).name().to_string()),
        _ => None,
    }
}

/// Calls `llhd::Module::entity` where the value `v` of `m` refers to an
/// entity, and returns `None` for any other kind; it does not panic on the
/// values of `m`, as `unit_name` says.
#[verifier::external_body]
fn unit_entity<'a>(m: &'a LlhdModule, v: &llhd::ValueRef) -> (r: Option<&'a llhd::Entity>)
    requires
        llhd_module_values(*m).contains(*v),
    ensures
        match r {
            Some(e) => llhd_unit_entity(*m, *v) == Some(*e),
            None => llhd_unit_entity(*m, *v) is None,
        },
{
    match v {
        llhd::ValueRef::Entity(e) => Some(m.entity(*e)),
        _ => None,
    }
}

/// Calls `llhd::Entity::name`.
#[verifier::external_body]
fn entity_name(ent: &llhd::Entity) -> (r: String)
    ensures
        r == llhd_entity_name(*ent),
{
    ent.name().to_string()
}

/// Calls `llhd::Entity::inputs`, returning the id (`llhd::Value::id`), name
/// (`llhd::Value::name`) and type (`llhd::Value::ty`) of each input in order.
#[verifier::external_body]
fn entity_inputs(ent: &llhd::Entity) -> (r: Vec<(usize, Option<String>, llhd::Type)>)
    ensures
        r@ == llhd_entity_inputs(*ent),
{
    ent.inputs().iter().map(|a| (a.id().as_usize(), a.name().map(|s| s.to_string()), a.ty())).collect()
}

/// Calls `llhd::Entity::outputs`, as `entity_inputs` does for the inputs.
#[verifier::external_body]
fn entity_outputs(ent: &llhd::Entity) -> (r: Vec<(usize, Option<String>, llhd::Type)>)
    ensures
        r@ == llhd_entity_outputs(*ent),
{
    ent.outputs().iter().map(|a| (a.id().as_usize(), a.name().map(|s| s.to_string()), a.ty())).collect()
}

/// Calls `llhd::Entity::insts`, returning the id (`llhd::Value::id`), name
/// (`llhd::Value::name`) and data (`llhd::Inst::kind`) of each instruction
/// in order.
#[verifier::external_body]
fn entity_insts(ent: &llhd::Entity) -> (r: Vec<(usize, Option<String>, llhd::InstKind)>)
    ensures
        r@ == llhd_entity_insts(*ent),
{
    ent.insts().map(|i| (i.id().as_usize(), i.name().map(|s| s.to_string()), i.kind().clone())).collect()
}

/// Tells the variants of `llhd::InstKind` apart: drives, instances and
/// signals, with their operands, and any other instruction.
#[verifier::external_body]
fn inst_shape(k: &llhd::InstKind) -> (r: InstShape)
    ensures
        r == llhd_inst_shape(*k),
{
    match k {
        llhd::InstKind::DriveInst(lhs, rhs, _) => InstShape::Drive(lhs.clone(), rhs.clone()),
        llhd::InstKind::InstanceInst(_, target, ins, outs) => InstShape::Instance(
            target.clone(),
            ins.clone(),
            outs.clone(),
        ),
        llhd::InstKind::SignalInst(ty, _) => InstShape::Signal(ty.clone()),
        _ => InstShape::Other,
    }
}

/// Converts the LLHD type `t` into its plain description, one variant for
/// one: `llhd::IntType`, `llhd::SignalType` and `llhd::VectorType` with
/// their fields, every other type as `Unsupported`.
#[verifier::external_body]
fn llhd_type(t: &llhd::Type) -> (r: LlhdType)
    ensures
        r == llhd_type_desc(*t),
{
    match t.as_ref() {
        LlhdTypeKind::IntType(size) => LlhdType::Int(*size),
        LlhdTypeKind::SignalType(inner) => LlhdType::Signal(Box::new(llhd_type(inner))),
        LlhdTypeKind::VectorType(size, inner) => LlhdType::Vector(
            *size,
            Box::new(llhd_type(inner)),
        ),
        _ => LlhdType::Unsupported,
    }
}

// ---------------------------------------------------------------------------
// What the description of a module is.

/// The name carried by the first entry of `s` whose id is `id`: `None` where
/// no entry has it, `Some(name)` where one does.
pub open spec fn id_lookup<T>(s: Seq<(usize, Option<String>, T)>, id: usize) -> Option<
    Option<String>,
>
    decreases s.len(),
{
    if s.len() == 0 {
        None
    } else if s[0].0 == id {
        Some(s[0].1)
    } else {
        id_lookup(s.drop_first(), id)
    }
}

/// The first of the values `vals` whose plain form is `key`.
pub open spec fn unit_with_key(vals: Seq<llhd::ValueRef>, key: ValueKey) -> Option<llhd::ValueRef>
    decreases vals.len(),
{
    if vals.len() == 0 {
        None
    } else if llhd_value_key(vals[0]) == key {
        Some(vals[0])
    } else {
        unit_with_key(vals.drop_first(), key)
    }
}

/// The name from two lookups of a value: the entity's lookup decides where
/// it finds the value, the module's is used only where it does not.
pub open spec fn pick_name(in_entity: Option<Option<String>>, in_module: Option<Option<String>>) -> Option<
    String,
> {
    match in_entity {
        Some(name) => name,
        None => match in_module {
            Some(name) => name,
            None => None,
        },
    }
}

/// The lookup of `key` among the instructions and arguments of `e`, as
/// `llhd::EntityContext::try_value` resolves a value: an instruction by its
/// id, an argument by its id among the inputs and then the outputs.
pub open spec fn entity_lookup(e: llhd::Entity, key: ValueKey) -> Option<Option<String>> {
    match key {
        ValueKey::Inst(id) => id_lookup(llhd_entity_insts(e), id),
        ValueKey::Argument(id) => match id_lookup(llhd_entity_inputs(e), id) {
            Some(name) => Some(name),
            None => id_lookup(llhd_entity_outputs(e), id),
        },
        _ => None,
    }
}

/// Whether `key` refers to a unit of a module.
pub open spec fn is_unit_key(key: ValueKey) -> bool {
    key is Function || key is Process || key is Entity
}

/// The lookup of `key` among the units of `m`, as
/// `llhd::ModuleContext::try_value` resolves a value.
pub open spec fn module_lookup(m: LlhdModule, key: ValueKey) -> Option<Option<String>> {
    if is_unit_key(key) {
        match unit_with_key(llhd_module_values(m), key) {
            Some(v) => Some(llhd_unit_name(m, v)),
            None => None,
        }
    } else {
        None
    }
}

/// The name of the operand `v` of an instruction of the entity `e` of `m`:
/// resolved in the entity first and in the module where the entity does not
/// hold it; `None` where the value has no name or is not found.
pub open spec fn resolved_name(m: LlhdModule, e: llhd::Entity, v: llhd::ValueRef) -> Option<String> {
    pick_name(entity_lookup(e, llhd_value_key(v)), module_lookup(m, llhd_value_key(v)))
}

/// The entity of `m` that the instance target `t` refers to, where it is one.
pub open spec fn target_entity(m: LlhdModule, t: llhd::ValueRef) -> Option<llhd::Entity> {
    if llhd_value_key(t) is Entity {
        match unit_with_key(llhd_module_values(m), llhd_value_key(t)) {
            Some(v) => llhd_unit_entity(m, v),
            None => None,
        }
    } else {
        None
    }
}

/// Whether `names` are the names of the arguments `args`, in order.
pub open spec fn arg_names_match(
    names: Seq<Option<String>>,
    args: Seq<(usize, Option<String>, llhd::Type)>,
) -> bool {
    &&& names.len() == args.len()
    &&& forall|j: int| 0 <= j < args.len() ==> #[trigger] names[j] == args[j].1
}

/// Whether `tp` holds the argument names of the target entity `te`, and is
/// `None` exactly where there is no target entity.
pub open spec fn ports_describe(tp: Option<TargetPorts>, te: Option<llhd::Entity>) -> bool {
    match tp {
        Some(p) => match te {
            Some(e) => arg_names_match(p.inputs@, llhd_entity_inputs(e)) && arg_names_match(
                p.outputs@,
                llhd_entity_outputs(e),
            ),
            None => false,
        },
        None => te is None,
    }
}

/// Whether `names` are the resolved names of the operands `vs`, in order.
pub open spec fn operands_describe(
    names: Seq<Option<String>>,
    m: LlhdModule,
    e: llhd::Entity,
    vs: Seq<llhd::ValueRef>,
) -> bool {
    &&& names.len() == vs.len()
    &&& forall|j: int| 0 <= j < vs.len() ==> #[trigger] names[j] == resolved_name(m, e, vs[j])
}

/// Whether `d` describes the instruction named `name`, of the shape `shape`,
/// in the entity `e` of `m`.
pub open spec fn describes_inst(
    d: EntityInst,
    m: LlhdModule,
    e: llhd::Entity,
    name: Option<String>,
    shape: InstShape,
) -> bool {
    match shape {
        InstShape::Drive(lhs, rhs) => d == (EntityInst::Drive {
            lhs: resolved_name(m, e, lhs),
            rhs: resolved_name(m, e, rhs),
        }),
        InstShape::Instance(target, ins, outs) => match d {
            EntityInst::Instance { name: n, target: t, target_ports: tp, ins: d_ins, outs: d_outs } => {
                &&& n == name
                &&& t == resolved_name(m, e, target)
                &&& ports_describe(tp, target_entity(m, target))
                &&& operands_describe(d_ins@, m, e, ins@)
                &&& operands_describe(d_outs@, m, e, outs@)
            },
            _ => false,
        },
        InstShape::Signal(ty) => d == (EntityInst::Signal { name: name, ty: llhd_type_desc(ty) }),
        InstShape::Other => d is Unsupported,
    }
}

/// Whether `ds` describes the arguments `args`, in order.
pub open spec fn args_describe(ds: Seq<EntityArg>, args: Seq<(usize, Option<String>, llhd::Type)>) -> bool {
    &&& ds.len() == args.len()
    &&& forall|j: int|
        0 <= j < args.len() ==> (#[trigger] ds[j]).name == args[j].1 && ds[j].ty == llhd_type_desc(
            args[j].2,
        )
}

/// Whether `d` describes the entity `e` of `m`: its name, its arguments and
/// each of its instructions in order.
pub open spec fn describes_entity(d: EntityDesc, m: LlhdModule, e: llhd::Entity) -> bool {
    &&& d.name == llhd_entity_name(e)
    &&& args_describe(d.inputs@, llhd_entity_inputs(e))
    &&& args_describe(d.outputs@, llhd_entity_outputs(e))
    &&& d.insts@.len() == llhd_entity_insts(e).len()
    &&& forall|j: int|
        0 <= j < d.insts@.len() ==> describes_inst(
            #[trigger] d.insts@[j],
            m,
            e,
            llhd_entity_insts(e)[j].1,
            llhd_inst_shape(llhd_entity_insts(e)[j].2),
        )
}

/// The entities among the values `vals` of `m`, in order; functions and
/// processes are left out.
pub open spec fn entities_of(m: LlhdModule, vals: Seq<llhd::ValueRef>) -> Seq<llhd::Entity>
    decreases vals.len(),
{
    if vals.len() == 0 {
        Seq::empty()
    } else {
        match llhd_unit_entity(m, vals[0]) {
            Some(e) => seq![e] + entities_of(m, vals.drop_first()),
            None => entities_of(m, vals.drop_first()),
        }
    }
}

/// Whether `d` describes the module `m`: one description for each entity of
/// `m`, in the order of the module's values.
pub open spec fn describes_design(d: Design, m: LlhdModule) -> bool {
    let es = entities_of(m, llhd_module_values(m));
    &&& d.entities@.len() == es.len()
    &&& forall|i: int| 0 <= i < es.len() ==> describes_entity(#[trigger] d.entities@[i], m, es[i])
}

/// In the description of an entity, an instance keeps the order of its
/// instruction: its `k`-th input (output) is the name that the
/// instruction's `k`-th input (output) operand carries, and where the
/// target is an entity of the module, the target's argument names are its
/// inputs' (outputs') names in the order the target declares them.
pub proof fn law_instance_keeps_operand_order(d: EntityDesc, m: LlhdModule, e: llhd::Entity, j: int)
    requires
        describes_entity(d, m, e),
        0 <= j < llhd_entity_insts(e).len(),
    ensures
        match llhd_inst_shape(llhd_entity_insts(e)[j].2) {
            InstShape::Instance(t, ins, outs) => match d.insts@[j] {
                EntityInst::Instance { ins: d_ins, outs: d_outs, target_ports: tp, .. } => {
                    &&& d_ins@.len() == ins@.len()
                    &&& forall|k: int| 0 <= k < ins@.len() ==> d_ins@[k] == resolved_name(m, e, #[trigger] ins@[k])
                    &&& d_outs@.len() == outs@.len()
                    &&& forall|k: int|
                        0 <= k < outs@.len() ==> d_outs@[k] == resolved_name(m, e, #[trigger] outs@[k])
                    &&& match target_entity(m, t) {
                        Some(te) => tp matches Some(p) && {
                            &&& p.inputs@.len() == llhd_entity_inputs(te).len()
                            &&& forall|k: int|
                                0 <= k < llhd_entity_inputs(te).len() ==> p.inputs@[k]
                                    == (#[trigger] llhd_entity_inputs(te)[k]).1
                            &&& p.outputs@.len() == llhd_entity_outputs(te).len()
                            &&& forall|k: int|
                                0 <= k < llhd_entity_outputs(te).len() ==> p.outputs@[k]
                                    == (#[trigger] llhd_entity_outputs(te)[k]).1
                        },
                        None => tp is None,
                    }
                },
                _ => false,
            },
            _ => true,
        },
{
    assert(describes_inst(
        d.insts@[j],
        m,
        e,
        llhd_entity_insts(e)[j].1,
        llhd_inst_shape(llhd_entity_insts(e)[j].2),
    ));
}

/// In the description of an entity, a drive names the signal it drives by
/// the name its first operand carries and the value it drives by the name
/// its second operand carries; a signal keeps its name and the
/// description of its type; any other instruction but an instance is
/// unsupported.
pub proof fn law_drive_and_signal_keep_their_operands(d: EntityDesc, m: LlhdModule, e: llhd::Entity, j: int)
    requires
        describes_entity(d, m, e),
        0 <= j < llhd_entity_insts(e).len(),
    ensures
        match llhd_inst_shape(llhd_entity_insts(e)[j].2) {
            InstShape::Drive(lhs, rhs) => d.insts@[j] matches EntityInst::Drive { lhs: l, rhs: r } && l
                == resolved_name(m, e, lhs) && r == resolved_name(m, e, rhs),
            InstShape::Signal(ty) => d.insts@[j] matches EntityInst::Signal { name: n, ty: t } && n
                == llhd_entity_insts(e)[j].1 && t == llhd_type_desc(ty),
            InstShape::Other => d.insts@[j] is Unsupported,
            InstShape::Instance(..) => d.insts@[j] is Instance,
        },
{
    assert(describes_inst(
        d.insts@[j],
        m,
        e,
        llhd_entity_insts(e)[j].1,
        llhd_inst_shape(llhd_entity_insts(e)[j].2),
    ));
}

// ---------------------------------------------------------------------------
// Building the description.

/// A unit of a module, read once: its plain reference, its name, and the
/// entity it is where it is one.
pub struct UnitEntry<'a> {
    pub key: ValueKey,
    pub name: Option<String>,
    pub entity: Option<&'a llhd::Entity>,
}

/// A module together with its units, in the order of its values.
pub struct ModuleUnits<'a> {
    pub module: &'a LlhdModule,
    pub units: Vec<UnitEntry<'a>>,
}

impl<'a> ModuleUnits<'a> {
    /// Whether `units` holds what the module's values refer to, one entry
    /// for each value.
    pub open spec fn wf(&self) -> bool {
        let m = *self.module;
        let vals = llhd_module_values(m);
        &&& self.units@.len() == vals.len()
        &&& forall|i: int|
            0 <= i < vals.len() ==> {
                &&& (#[trigger] self.units@[i]).key == llhd_value_key(vals[i])
                &&& self.units@[i].name == llhd_unit_name(m, vals[i])
                &&& match self.units@[i].entity {
                    Some(e) => llhd_unit_entity(m, vals[i]) == Some(*e),
                    None => llhd_unit_entity(m, vals[i]) is None,
                }
            }
    }

    /// Reads the units of `m`.
    pub fn new(m: &'a LlhdModule) -> (r: ModuleUnits<'a>)
        ensures
            r.module == m,
            r.wf(),
    {
        let vals = module_values(m);
        let mut units: Vec<UnitEntry<'a>> = Vec::new();
        let mut i: usize = 0;
        while i < vals.len()
            invariant
                vals@ == llhd_module_values(*m),
                i <= vals@.len(),
                units@.len() == i,
                forall|k: int|
                    0 <= k < i ==> {
                        &&& (#[trigger] units@[k]).key == llhd_value_key(vals@[k])
                        &&& units@[k].name == llhd_unit_name(*m, vals@[k])
                        &&& match units@[k].entity {
                            Some(e) => llhd_unit_entity(*m, vals@[k]) == Some(*e),
                            None => llhd_unit_entity(*m, vals@[k]) is None,
                        }
                    },
            decreases vals@.len() - i,
        {
            assert(vals@.contains(vals@[i as int]));
            let entry = UnitEntry {
                key: value_key(&vals[i]),
                name: unit_name(m, &vals[i]),
                entity: unit_entity(m, &vals[i]),
            };
            units.push(entry);
            i = i + 1;
        }
        ModuleUnits { module: m, units: units }
    }

    /// The index of the first unit whose plain reference is `key`.
    fn find(&self, key: ValueKey) -> (r: Option<usize>)
        requires
            self.wf(),
        ensures
            match r {
                Some(i) => i < self.units@.len() && unit_with_key(
                    llhd_module_values(*self.module),
                    key,
                ) == Some(llhd_module_values(*self.module)[i as int]),
                None => unit_with_key(llhd_module_values(*self.module), key) is None,
            },
    {
        let ghost vals = llhd_module_values(*self.module);
        assert(vals.subrange(0, vals.len() as int) =~= vals);
        let mut i: usize = 0;
        while i < self.units.len()
            invariant
                self.wf(),
                vals == llhd_module_values(*self.module),
                i <= self.units@.len(),
                unit_with_key(vals, key) == unit_with_key(
                    vals.subrange(i as int, vals.len() as int),
                    key,
                ),
            decreases self.units@.len() - i,
        {
            let ghost rest = vals.subrange(i as int, vals.len() as int);
            assert(rest.drop_first() =~= vals.subrange(i + 1, vals.len() as int));
            assert(rest[0] == vals[i as int]);
            if self.units[i].key == key {
                return Some(i);
            }
            i = i + 1;
        }
        assert(vals.subrange(i as int, vals.len() as int).len() == 0);
        None
    }
}

/// The arguments and instructions of an entity, read once.
pub struct EntityParts<'a> {
    pub ent: &'a llhd::Entity,
    pub inputs: Vec<(usize, Option<String>, llhd::Type)>,
    pub outputs: Vec<(usize, Option<String>, llhd::Type)>,
    pub insts: Vec<(usize, Option<String>, llhd::InstKind)>,
}

impl<'a> EntityParts<'a> {
    /// Whether the parts are those of `ent`.
    pub open spec fn wf(&self) -> bool {
        &&& self.inputs@ == llhd_entity_inputs(*self.ent)
        &&& self.outputs@ == llhd_entity_outputs(*self.ent)
        &&& self.insts@ == llhd_entity_insts(*self.ent)
    }

    /// Reads the parts of `ent`.
    pub fn new(ent: &'a llhd::Entity) -> (r: EntityParts<'a>)
        ensures
            r.ent == ent,
            r.wf(),
    {
        EntityParts {
            ent: ent,
            inputs: entity_inputs(ent),
            outputs: entity_outputs(ent),
            insts: entity_insts(ent),
        }
    }
}

/// A copy of the optional name `name`.
fn copy_name(name: &Option<String>) -> (r: Option<String>)
    ensures
        r == *name,
{
    match name {
        Some(s) => Some(s.clone()),
        None => None,
    }
}

/// The name carried by the first entry of `s` whose id is `id`, as
/// `id_lookup` says.
fn find_name<T>(s: &Vec<(usize, Option<String>, T)>, id: usize) -> (r: Option<Option<String>>)
    ensures
        r == id_lookup(s@, id),
{
    assert(s@.subrange(0, s@.len() as int) =~= s@);
    let mut i: usize = 0;
    while i < s.len()
        invariant
            i <= s@.len(),
            id_lookup(s@, id) == id_lookup(s@.subrange(i as int, s@.len() as int), id),
        decreases s@.len() - i,
    {
        let ghost rest = s@.subrange(i as int, s@.len() as int);
        assert(rest.drop_first() =~= s@.subrange(i + 1, s@.len() as int));
        assert(rest[0] == s@[i as int]);
        if s[i].0 == id {
            return Some(copy_name(&s[i].1));
        }
        i = i + 1;
    }
    assert(s@.subrange(i as int, s@.len() as int).len() == 0);
    None
}

/// The name of a value from its two lookups: `in_entity` among the
/// instructions and arguments of the entity it is used in, `in_module`
/// among the module's units. The entity's lookup decides where it finds the
/// value; the module's is used only where it does not, as
/// `llhd::Context::value` resolves a value for an entity's unit context.
/// `None` where the value it finds has no name, or where neither lookup
/// finds it (constants among them).
pub fn value_name(in_entity: Option<Option<String>>, in_module: Option<Option<String>>) -> (r: Option<
    String,
>)
    ensures
        r == pick_name(in_entity, in_module),
{
    match in_entity {
        Some(name) => name,
        None => match in_module {
            Some(name) => name,
            None => None,
        },
    }
}

/// The name of the operand `v` of an instruction of the entity `ep.ent` of
/// the module `mu.module`.
fn resolve(mu: &ModuleUnits, ep: &EntityParts, v: &llhd::ValueRef) -> (r: Option<String>)
    requires
        mu.wf(),
        ep.wf(),
    ensures
        r == resolved_name(*mu.module, *ep.ent, *v),
{
    let key = value_key(v);
    let in_entity = match key {
        ValueKey::Inst(id) => find_name(&ep.insts, id),
        ValueKey::Argument(id) => match find_name(&ep.inputs, id) {
            Some(name) => Some(name),
            None => find_name(&ep.outputs, id),
        },
        _ => None,
    };
    let unit_ref = match key {
        ValueKey::Function(_) => true,
        ValueKey::Process(_) => true,
        ValueKey::Entity(_) => true,
        _ => false,
    };
    let in_module = if unit_ref {
        match mu.find(key) {
            Some(i) => Some(copy_name(&mu.units[i].name)),
            None => None,
        }
    } else {
        None
    };
    value_name(in_entity, in_module)
}

/// The names of the arguments `args`, in order.
fn arg_names_of(args: &Vec<(usize, Option<String>, llhd::Type)>) -> (r: Vec<Option<String>>)
    ensures
        arg_names_match(r@, args@),
{
    let mut r: Vec<Option<String>> = Vec::new();
    let mut i: usize = 0;
    while i < args.len()
        invariant
            i <= args@.len(),
            r@.len() == i,
            forall|k: int| 0 <= k < i ==> #[trigger] r@[k] == args@[k].1,
        decreases args@.len() - i,
    {
        r.push(copy_name(&args[i].1));
        i = i + 1;
    }
    r
}

/// The arguments `args` as plain descriptions, in order.
fn entity_args_of(args: &Vec<(usize, Option<String>, llhd::Type)>) -> (r: Vec<EntityArg>)
    ensures
        args_describe(r@, args@),
{
    let mut r: Vec<EntityArg> = Vec::new();
    let mut i: usize = 0;
    while i < args.len()
        invariant
            i <= args@.len(),
            r@.len() == i,
            forall|k: int|
                0 <= k < i ==> (#[trigger] r@[k]).name == args@[k].1 && r@[k].ty == llhd_type_desc(
                    args@[k].2,
                ),
        decreases args@.len() - i,
    {
        r.push(EntityArg { name: copy_name(&args[i].1), ty: llhd_type(&args[i].2) });
        i = i + 1;
    }
    r
}

/// The names of the operands `vs` of an instruction of `ep.ent`, in order.
fn value_names(mu: &ModuleUnits, ep: &EntityParts, vs: &Vec<llhd::ValueRef>) -> (r: Vec<
    Option<String>,
>)
    requires
        mu.wf(),
        ep.wf(),
    ensures
        operands_describe(r@, *mu.module, *ep.ent, vs@),
{
    let mut r: Vec<Option<String>> = Vec::new();
    let mut i: usize = 0;
    while i < vs.len()
        invariant
            mu.wf(),
            ep.wf(),
            i <= vs@.len(),
            r@.len() == i,
            forall|k: int| 0 <= k < i ==> #[trigger] r@[k] == resolved_name(*mu.module, *ep.ent, vs@[k]),
        decreases vs@.len() - i,
    {
        r.push(resolve(mu, ep, &vs[i]));
        i = i + 1;
    }
    r
}

/// The argument names of the entity that the instance target `target`
/// refers to, where it refers to an entity of the module.
fn target_ports_of(mu: &ModuleUnits, target: &llhd::ValueRef) -> (r: Option<TargetPorts>)
    requires
        mu.wf(),
    ensures
        ports_describe(r, target_entity(*mu.module, *target)),
{
    let key = value_key(target);
    match key {
        ValueKey::Entity(_) => match mu.find(key) {
            Some(i) => match mu.units[i].entity {
                Some(te) => Some(
                    TargetPorts {
                        inputs: arg_names_of(&entity_inputs(te)),
                        outputs: arg_names_of(&entity_outputs(te)),
                    },
                ),
                None => None,
            },
            None => None,
        },
        _ => None,
    }
}

/// The plain description of the instruction named `name`, of the shape
/// `shape`, in the entity `ep.ent` of the module `mu.module`: a drive with
/// the names of its driven and driving operands, an instance with its name,
/// its target's name and argument names and the names of its operands, a
/// signal with its name and type, and any other instruction as unsupported.
fn inst_of(mu: &ModuleUnits, ep: &EntityParts, name: &Option<String>, shape: &InstShape) -> (r:
    EntityInst)
    requires
        mu.wf(),
        ep.wf(),
    ensures
        describes_inst(r, *mu.module, *ep.ent, *name, *shape),
{
    match shape {
        InstShape::Drive(lhs, rhs) => EntityInst::Drive {
            lhs: resolve(mu, ep, lhs),
            rhs: resolve(mu, ep, rhs),
        },
        InstShape::Instance(target, ins, outs) => EntityInst::Instance {
            name: copy_name(name),
            target: resolve(mu, ep, target),
            target_ports: target_ports_of(mu, target),
            ins: value_names(mu, ep, ins),
            outs: value_names(mu, ep, outs),
        },
        InstShape::Signal(ty) => EntityInst::Signal { name: copy_name(name), ty: llhd_type(ty) },
        InstShape::Other => EntityInst::Unsupported,
    }
}

/// The plain description of the entity `ent`, with every operand resolved
/// in `ent` and then among the units of `mu.module`: its name, arguments
/// and instructions.
pub fn entity_from_llhd(mu: &ModuleUnits, ent: &llhd::Entity) -> (r: EntityDesc)
    requires
        mu.wf(),
    ensures
        describes_entity(r, *mu.module, *ent),
{
    let ep = EntityParts::new(ent);
    let mut descs: Vec<EntityInst> = Vec::new();
    let mut i: usize = 0;
    while i < ep.insts.len()
        invariant
            mu.wf(),
            ep.wf(),
            ep.ent == ent,
            i <= ep.insts@.len(),
            descs@.len() == i,
            forall|k: int|
                0 <= k < i ==> describes_inst(
                    #[trigger] descs@[k],
                    *mu.module,
                    *ent,
                    ep.insts@[k].1,
                    llhd_inst_shape(ep.insts@[k].2),
                ),
        decreases ep.insts@.len() - i,
    {
        let shape = inst_shape(&ep.insts[i].2);
        descs.push(inst_of(mu, &ep, &ep.insts[i].1, &shape));
        i = i + 1;
    }
    EntityDesc {
        name: entity_name(ent),
        inputs: entity_args_of(&ep.inputs),
        outputs: entity_args_of(&ep.outputs),
        insts: descs,
    }
}

/// The entities of the LLHD module `m`, described in the order of the
/// module's values; functions and processes are left out.
pub fn design_from_llhd(m: &LlhdModule) -> (r: Design)
    ensures
        describes_design(r, *m),
{
    let mu = ModuleUnits::new(m);
    let ghost vals = llhd_module_values(*m);
    let ghost es = entities_of(*m, vals);
    let mut entities: Vec<EntityDesc> = Vec::new();
    assert(vals.subrange(0, vals.len() as int) =~= vals);
    assert(es.subrange(0, es.len() as int) =~= es);
    let mut i: usize = 0;
    while i < mu.units.len()
        invariant
            mu.wf(),
            mu.module == m,
            vals == llhd_module_values(*m),
            es == entities_of(*m, vals),
            i <= mu.units@.len(),
            entities@.len() <= es.len(),
            entities_of(*m, vals.subrange(i as int, vals.len() as int)) == es.subrange(
                entities@.len() as int,
                es.len() as int,
            ),
            forall|k: int| 0 <= k < entities@.len() ==> describes_entity(#[trigger] entities@[k], *m, es[k]),
        decreases mu.units@.len() - i,
    {
        let ghost rest = vals.subrange(i as int, vals.len() as int);
        let ghost n = entities@.len() as int;
        assert(rest.drop_first() =~= vals.subrange(i + 1, vals.len() as int));
        assert(rest[0] == vals[i as int]);
        let found = mu.units[i].entity;
        match found {
            Some(ent) => {
                assert(llhd_unit_entity(*m, rest[0]) == Some(*ent));
                assert(entities_of(*m, rest) == seq![*ent] + entities_of(*m, rest.drop_first()));
                assert(es.subrange(n, es.len() as int)[0] == es[n]);
                assert(es.subrange(n + 1, es.len() as int) =~= es.subrange(n, es.len() as int).drop_first());
                let d = entity_from_llhd(&mu, ent);
                entities.push(d);
            },
            None => {},
        }
        i = i + 1;
    }
    assert(vals.subrange(i as int, vals.len() as int).len() == 0);
    Design { entities: entities }
}

/// Parses the LLHD assembly `text` and describes the module it holds.
/// Fails where `text` is not of the subset that `llhd_text_supported`
/// describes, and otherwise, with the parser's message, exactly where the
/// parser rejects it; where the parser accepts it, the design describes the
/// module that the parser built from `text`.
pub fn parse_design(text: &str) -> (r: Result<Design, String>)
    ensures
        r is Ok <==> llhd_text_supported(text@) && llhd_parse_error(text@) is None,
        llhd_text_supported(text@) ==> (r matches Err(msg) ==> llhd_parse_error(text@) == Some(msg@)),
        r matches Ok(d) ==> exists|m: LlhdModule| #[trigger]
            llhd_parsed_from(text@, m) && describes_design(d, m),
{
    if !llhd_text_check(text) {
        return Err("the text is not of the LLHD subset that is read".to_owned());
    }
    match parse_module(text) {
        Ok(m) => {
            let d = design_from_llhd(&m);
            assert(llhd_parsed_from(text@, m) && describes_design(d, m));
            Ok(d)
        },
        Err(msg) => Err(msg),
    }
}

} // verus!
