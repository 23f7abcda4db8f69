//! Conversion of an LLHD design into Verilog modules, and the Verilog text
//! of those modules.
use crate::design::{Design, EntityArg, EntityDesc, EntityInst, LlhdType, TargetPorts};
use crate::text::{
    assigns_text, concat, connection_text, file_text, instance_text, instances_text, join,
    module_text, ports_text, wires_text,
};
use crate::entity_lemmas::{
    inv_at, lemma_args_error_stays, lemma_conns_error_stays, lemma_counts_bounded, lemma_drive_step,
    lemma_entities_error_stays, lemma_instance_step, lemma_signal_step, lemma_step_context,
    lemma_steps_error_stays, lemma_summary_of, lemma_unsupported_step, lemma_wf_push,
};
use crate::semantics::{
    arg_error, arg_names, arg_types, args_error, args_of, conn_error, conns, conns_error,
    counter_at, drive_error, drive_model, entities_result, entity_error, entity_fits,
    instance_error, instance_matches, instance_model, instances_upto, module_after, module_of,
    args_appended, module_with_args, step_error, steps_error, summarize, summary_of, target_index,
    target_port_names, wire_types_at, wires_at, ModuleSummary,
};
use crate::module::{
    first_index_of, lemma_first_index_of, lemma_first_index_of_absent, lemma_first_index_of_found,
    Assign, Instance, Module, ModuleRef, Port, PortAssign, PortType, Type, TypeKind, Wire,
};
use crate::laws::law_well_formed_modules_are_writable;
use std::rc::Rc;
use vstd::prelude::*;

verus! {

/// Why a design could not be converted.
#[derive(Debug, PartialEq, Eq, Structural, Clone, Copy)]
pub enum ConvertError {
    /// An argument, signal, or operand carries no name.
    UnnamedValue,
    /// A type other than integers, signals and vectors.
    UnsupportedType,
    /// An integer type of zero bits.
    ZeroWidthInt,
    /// An operand names no wire of the module.
    UnknownWire,
    /// An instance names a unit for which no module has been made.
    UnknownModule,
    /// An instance targets something other than an entity.
    NotAnEntity,
    /// An instance passes more operands than its target has arguments.
    MissingTargetArgument,
    /// An argument name of the target names no port of its module.
    UnknownPort,
    /// The counter for default instance names is exhausted.
    CounterOverflow,
}

/// The error of converting the type `t`, if any.
pub open spec fn type_error(t: LlhdType) -> Option<ConvertError>
    decreases t,
{
    match t {
        LlhdType::Int(n) => if n == 0 {
            Some(ConvertError::ZeroWidthInt)
        } else {
            None
        },
        LlhdType::Signal(inner) => type_error(*inner),
        LlhdType::Vector(_, inner) => type_error(*inner),
        LlhdType::Unsupported => Some(ConvertError::UnsupportedType),
    }
}

/// `k` is the Verilog type of the LLHD type `t`: an `N`-bit integer is a
/// vector of `N` scalars, a signal has the type of what it carries, and an
/// LLHD vector is a Verilog vector of the same length.
pub open spec fn type_matches(t: LlhdType, k: TypeKind) -> bool
    decreases t,
{
    match t {
        LlhdType::Int(n) => match k {
            TypeKind::Vector(m, inner) => m == n && *inner == TypeKind::Scalar,
            TypeKind::Scalar => false,
        },
        LlhdType::Signal(inner) => type_matches(*inner, k),
        LlhdType::Vector(n, inner) => match k {
            TypeKind::Vector(m, elem) => m == n && type_matches(*inner, *elem),
            TypeKind::Scalar => false,
        },
        LlhdType::Unsupported => false,
    }
}

/// The character of the decimal digit `d`.
pub open spec fn digit_char(d: nat) -> char {
    if d == 0 {
        '0'
    } else if d == 1 {
        '1'
    } else if d == 2 {
        '2'
    } else if d == 3 {
        '3'
    } else if d == 4 {
        '4'
    } else if d == 5 {
        '5'
    } else if d == 6 {
        '6'
    } else if d == 7 {
        '7'
    } else if d == 8 {
        '8'
    } else {
        '9'
    }
}

/// The decimal representation of `n`, without leading zeros.
pub open spec fn decimal(n: nat) -> Seq<char>
    decreases n,
{
    if n < 10 {
        seq![digit_char(n)]
    } else {
        decimal(n / 10).push(digit_char(n % 10))
    }
}

/// The one-character string of the decimal digit `d`.
fn digit_str(d: usize) -> (s: &'static str)
    requires
        d < 10,
    ensures
        s@ == seq![digit_char(d as nat)],
{
    proof {
        reveal_strlit("0");
        reveal_strlit("1");
        reveal_strlit("2");
        reveal_strlit("3");
        reveal_strlit("4");
        reveal_strlit("5");
        reveal_strlit("6");
        reveal_strlit("7");
        reveal_strlit("8");
        reveal_strlit("9");
    }
    if d == 0 {
        "0"
    } else if d == 1 {
        "1"
    } else if d == 2 {
        "2"
    } else if d == 3 {
        "3"
    } else if d == 4 {
        "4"
    } else if d == 5 {
        "5"
    } else if d == 6 {
        "6"
    } else if d == 7 {
        "7"
    } else if d == 8 {
        "8"
    } else {
        "9"
    }
}

/// The decimal representation of `n`.
pub fn decimal_string(n: usize) -> (s: String)
    ensures
        s@ == decimal(n as nat),
    decreases n,
{
    if n < 10 {
        String::from_str(digit_str(n))
    } else {
        let mut s = decimal_string(n / 10);
        s.append(digit_str(n % 10));
        s
    }
}

/// The name an instance gets, and the counter after it: its own name where
/// it has one; otherwise `i_` followed by the incremented counter.
pub open spec fn inst_name_result(name: Option<String>, counter: usize) -> Result<
    (Seq<char>, usize),
    ConvertError,
> {
    match name {
        Some(s) => Ok((s@, counter)),
        None => if counter == usize::MAX {
            Err(ConvertError::CounterOverflow)
        } else {
            Ok(("i_"@ + decimal((counter + 1) as nat), (counter + 1) as usize))
        },
    }
}

/// The names of the modules `s`, in order.
pub open spec fn module_names(s: Seq<Module>) -> Seq<Seq<char>> {
    s.map_values(|m: Module| m.name@)
}

/// The module at index `i` of `mods` is well formed: it carries its index,
/// its items carry theirs, its wire references are valid, and its instances
/// name modules of `mods` and ports of those modules.
pub open spec fn module_wf(mods: Seq<Module>, i: int) -> bool {
    let m = mods[i];
    &&& m.id == i
    &&& m.ids_consistent()
    &&& m.refs_valid()
    &&& forall|j: int| 0 <= j < m.instances@.len() ==> instance_wf(mods, #[trigger] m.instances@[j])
}

/// The instance `inst` names a module of `mods`, its connections carry
/// their indices, and each names a port of that module.
pub open spec fn instance_wf(mods: Seq<Module>, inst: Instance) -> bool {
    &&& 0 <= inst.module.id < mods.len()
    &&& inst.ids_consistent()
    &&& forall|k: int|
        0 <= k < inst.port_assigns@.len() ==> mods[inst.module.id as int].valid_port(
            #[trigger] inst.port_assigns@[k].lhs,
        )
}

/// `new` is `old` with the argument `arg` appended as a wire and as a port
/// of direction `port_ty` on that wire.
pub open spec fn arg_pushed(old: Module, new: Module, arg: EntityArg, port_ty: PortType) -> bool {
    let n = old.wires@.len();
    let p = old.ports@.len();
    &&& new.wires@.len() == n + 1
    &&& new.wires@.take(n as int) == old.wires@
    &&& new.wires@[n as int].id == n
    &&& new.wires@[n as int].name@ == arg.name.unwrap()@
    &&& new.wires@[n as int].ports@.len() == 0
    &&& type_matches(arg.ty, *new.wires@[n as int].ty)
    &&& new.ports@.len() == p + 1
    &&& new.ports@.take(p as int) == old.ports@
    &&& new.ports@[p as int].id == p
    &&& new.ports@[p as int].wire.id == n
    &&& new.ports@[p as int].port_ty == port_ty
    &&& new.id == old.id
    &&& new.name == old.name
    &&& new.assigns == old.assigns
    &&& new.instances == old.instances
}

/// The writer's modules are all well formed.
pub open spec fn writer_wf(mods: Seq<Module>) -> bool {
    forall|i: int| 0 <= i < mods.len() ==> module_wf(mods, i)
}

/// Holds the Verilog modules made so far, and the counter from which
/// instances without a name get one.
pub struct VlogWriter {
    pub modules: Vec<Module>,
    pub instance_counter: usize,
}

impl VlogWriter {
    /// A writer with no module yet.
    pub fn new() -> (w: VlogWriter)
        ensures
            w.modules@ == Seq::<Module>::empty(),
            w.instance_counter == 0,
    {
        VlogWriter { modules: Vec::new(), instance_counter: 0 }
    }

    /// The name of an instance: `name` where it is given, else a fresh
    /// `i_N` from the counter.
    pub fn inst_name(&mut self, name: &Option<String>) -> (r: Result<String, ConvertError>)
        ensures
            final(self).modules == old(self).modules,
            match inst_name_result(*name, old(self).instance_counter) {
                Ok((s, c)) => r matches Ok(n) && n@ == s && final(self).instance_counter == c,
                Err(e) => r == Err::<String, ConvertError>(e) && final(self).instance_counter
                    == old(self).instance_counter,
            },
    {
        match name {
            Some(s) => Ok(s.clone()),
            None => {
                if self.instance_counter == usize::MAX {
                    return Err(ConvertError::CounterOverflow);
                }
                self.instance_counter = self.instance_counter + 1;
                let mut out = String::from_str("i_");
                let digits = decimal_string(self.instance_counter);
                out.append(digits.as_str());
                proof {
                    reveal_strlit("i_");
                }
                Ok(out)
            },
        }
    }

    /// Appends the module `m`, which takes the next index, and returns a
    /// reference to it.
    pub fn module_push(&mut self, m: Module) -> (r: ModuleRef)
        requires
            old(self).modules@.len() < usize::MAX,
        ensures
            r.id == old(self).modules@.len(),
            final(self).modules@ == old(self).modules@.push(
                Module {
                    id: old(self).modules@.len() as usize,
                    name: m.name,
                    ports: m.ports,
                    wires: m.wires,
                    assigns: m.assigns,
                    instances: m.instances,
                },
            ),
            final(self).instance_counter == old(self).instance_counter,
    {
        let id = self.modules.len();
        let mut m = m;
        m.id = id;
        let r = ModuleRef::new(&m);
        self.modules.push(m);
        r
    }

    /// Looks a module up by name: a reference to the first module named
    /// `name`, or `None` where there is none.
    pub fn module_get(&self, name: &String) -> (r: Option<ModuleRef>)
        ensures
            r is Some <==> first_index_of(module_names(self.modules@), name@) is Some,
            r matches Some(mr) ==> mr.id == self.modules@[first_index_of(
                module_names(self.modules@),
                name@,
            ).unwrap()].id,
    {
        let mut j: usize = 0;
        while j < self.modules.len()
            invariant
                j <= self.modules@.len(),
                forall|k: int| 0 <= k < j ==> module_names(self.modules@)[k] != name@,
            decreases self.modules@.len() - j,
        {
            let m = &self.modules[j];
            if m.name == *name {
                proof {
                    lemma_first_index_of(module_names(self.modules@), name@, j as int);
                }
                return Some(ModuleRef::new(m));
            }
            j += 1;
        }
        proof {
            lemma_first_index_of_absent(module_names(self.modules@), name@);
        }
        None
    }

    /// The module that `m_ref` names, if it names one.
    pub fn module(&self, m_ref: &ModuleRef) -> (r: Option<&Module>)
        ensures
            r is Some <==> m_ref.id < self.modules@.len(),
            r matches Some(m) ==> *m == self.modules@[m_ref.id as int],
    {
        if m_ref.id < self.modules.len() {
            Some(&self.modules[m_ref.id])
        } else {
            None
        }
    }

    /// Mutable access to the module that `m_ref` names, if it names one.
    pub fn module_mut(&mut self, m_ref: &ModuleRef) -> (r: Option<&mut Module>)
        ensures
            r is Some <==> m_ref.id < old(self).modules@.len(),
            r is None ==> *final(self) == *old(self),
            r is Some ==> {
                &&& *r.unwrap() == old(self).modules@[m_ref.id as int]
                &&& final(self).modules@ == old(self).modules@.update(
                    m_ref.id as int,
                    *final(r.unwrap()),
                )
                &&& final(self).instance_counter == old(self).instance_counter
            },
    {
        if m_ref.id < self.modules.len() {
            Some(&mut self.modules[m_ref.id])
        } else {
            None
        }
    }

    /// The Verilog type of the LLHD type `ty`.
    pub fn process_type(ty: &LlhdType) -> (r: Result<Type, ConvertError>)
        ensures
            match r {
                Ok(k) => type_error(*ty) is None && type_matches(*ty, *k),
                Err(e) => type_error(*ty) == Some(e),
            },
        decreases ty,
    {
        match ty {
            LlhdType::Int(size) => {
                if *size == 0 {
                    Err(ConvertError::ZeroWidthInt)
                } else {
                    Ok(Rc::new(TypeKind::Vector(*size, Rc::new(TypeKind::Scalar))))
                }
            },
            LlhdType::Signal(inner) => Self::process_type(inner),
            LlhdType::Vector(size, inner) => {
                let elem = Self::process_type(inner)?;
                Ok(Rc::new(TypeKind::Vector(*size, elem)))
            },
            LlhdType::Unsupported => Err(ConvertError::UnsupportedType),
        }
    }

    /// Appends the argument `arg` to `m` as a wire, and as a port of
    /// direction `port_ty` on that wire.
    pub fn process_entity_argument(m: &mut Module, arg: &EntityArg, port_ty: PortType) -> (r:
        Result<(), ConvertError>)
        requires
            old(m).wires@.len() < usize::MAX,
            old(m).ports@.len() < usize::MAX,
        ensures
            match arg_error(*arg) {
                Some(err) => r == Err::<(), ConvertError>(err) && *final(m) == *old(m),
                None => r is Ok && arg_pushed(*old(m), *final(m), *arg, port_ty),
            },
    {
        let name = match &arg.name {
            Some(n) => n,
            None => return Err(ConvertError::UnnamedValue),
        };
        let ty = Self::process_type(&arg.ty)?;
        let w_ref = m.wire_push(Wire::new(name.clone(), ty));
        m.port_push(Port::new(w_ref, port_ty));
        Ok(())
    }

    /// Appends the arguments of `entity` to the module that `m_ref` names,
    /// after the wires and ports it already has: first the inputs, as input
    /// ports, then the outputs, as output ports.
    pub fn process_entity_arguments(&mut self, entity: &EntityDesc, m_ref: &ModuleRef) -> (r: Result<
        (),
        ConvertError,
    >)
        requires
            m_ref.id < old(self).modules@.len(),
            old(self).modules@[m_ref.id as int].wires@.len() + args_of(*entity).len() < usize::MAX,
            old(self).modules@[m_ref.id as int].ports@.len() + args_of(*entity).len() < usize::MAX,
        ensures
            final(self).instance_counter == old(self).instance_counter,
            match args_error(args_of(*entity), args_of(*entity).len() as int) {
                Some(err) => r == Err::<(), ConvertError>(err),
                None => r is Ok && final(self).modules@.len() == old(self).modules@.len() && {
                    let old_m = old(self).modules@[m_ref.id as int];
                    let m = final(self).modules@[m_ref.id as int];
                    &&& forall|i: int|
                        0 <= i < old(self).modules@.len() && i != m_ref.id ==> final(self).modules@[i]
                            == old(self).modules@[i]
                    &&& args_appended(old_m, m, *entity, args_of(*entity).len() as int)
                    &&& m.id == old_m.id
                    &&& m.name == old_m.name
                    &&& m.assigns == old_m.assigns
                    &&& m.instances == old_m.instances
                },
            },
    {
        let ghost args = args_of(*entity);
        let ghost old_m = old(self).modules@[m_ref.id as int];
        let ghost nw = old_m.wires@.len() as int;
        let ghost np = old_m.ports@.len() as int;
        let n_in = entity.inputs.len();
        let n_out = entity.outputs.len();
        proof {
            assert(old_m.wires@.take(nw) =~= old_m.wires@);
            assert(old_m.ports@.take(np) =~= old_m.ports@);
        }
        let mut i: usize = 0;
        while i < n_in + n_out
            invariant
                n_in == entity.inputs@.len(),
                n_out == entity.outputs@.len(),
                args == args_of(*entity),
                args.len() == n_in + n_out,
                nw == old_m.wires@.len(),
                np == old_m.ports@.len(),
                nw + args.len() < usize::MAX,
                np + args.len() < usize::MAX,
                i <= n_in + n_out,
                m_ref.id < self.modules@.len(),
                self.modules@.len() == old(self).modules@.len(),
                self.instance_counter == old(self).instance_counter,
                args_error(args, i as int) is None,
                forall|j: int|
                    0 <= j < old(self).modules@.len() && j != m_ref.id ==> self.modules@[j]
                        == old(self).modules@[j],
                args_appended(old_m, self.modules@[m_ref.id as int], *entity, i as int),
                self.modules@[m_ref.id as int].id == old_m.id,
                self.modules@[m_ref.id as int].name == old_m.name,
                self.modules@[m_ref.id as int].assigns == old_m.assigns,
                self.modules@[m_ref.id as int].instances == old_m.instances,
            ensures
                match args_error(args, args.len() as int) {
                    Some(err) => false,
                    None => i == args.len(),
                },
            decreases n_in + n_out - i,
        {
            let (arg, port_ty) = if i < n_in {
                (&entity.inputs[i], PortType::Input)
            } else {
                (&entity.outputs[i - n_in], PortType::Output)
            };
            assert(*arg == args[i as int]);
            let ghost before = self.modules@[m_ref.id as int];
            let m = self.module_mut(m_ref).unwrap();
            let res = Self::process_entity_argument(m, arg, port_ty);
            if res.is_err() {
                assert(args_error(args, i + 1) == arg_error(args[i as int]));
                proof {
                    lemma_args_error_stays(args, i + 1, args.len() as int);
                }
                return res;
            }
            proof {
                let after = self.modules@[m_ref.id as int];
                assert(arg_names(*entity)[i as int] == arg.name.unwrap()@);
                assert(arg_types(*entity)[i as int] == arg.ty);
                assert(after.wires@.take(nw) =~= before.wires@.take(nw)) by {
                    assert forall|x: int| 0 <= x < nw implies after.wires@[x] == before.wires@[x] by {
                        assert(after.wires@[x] == after.wires@.take(nw + i)[x]);
                    }
                }
                assert(after.ports@.take(np) =~= before.ports@.take(np)) by {
                    assert forall|x: int| 0 <= x < np implies after.ports@[x] == before.ports@[x] by {
                        assert(after.ports@[x] == after.ports@.take(np + i)[x]);
                    }
                }
                assert forall|x: int| nw <= x < nw + i + 1 implies {
                    &&& (#[trigger] after.wires@[x]).id == x
                    &&& after.wires@[x].name@ == arg_names(*entity)[x - nw]
                    &&& after.wires@[x].ports@.len() == 0
                    &&& type_matches(arg_types(*entity)[x - nw], *after.wires@[x].ty)
                } by {
                    if x < nw + i {
                        assert(after.wires@[x] == after.wires@.take(nw + i)[x]);
                        assert(before.wires@[x] == before.wires@[x]);
                    }
                }
                assert forall|x: int| np <= x < np + i + 1 implies {
                    &&& (#[trigger] after.ports@[x]).id == x
                    &&& after.ports@[x].wire.id == nw + (x - np)
                    &&& after.ports@[x].port_ty == (if x - np < entity.inputs@.len() {
                        PortType::Input
                    } else {
                        PortType::Output
                    })
                } by {
                    if x < np + i {
                        assert(after.ports@[x] == after.ports@.take(np + i)[x]);
                        assert(before.ports@[x] == before.ports@[x]);
                    }
                }
            }
            i = i + 1;
        }
        Ok(())
    }

    /// The connection of the port of `im` named `con` to the wire of `m`
    /// named `arg`.
    pub fn process_entity_inst_port_assign(&self, m: &Module, im: &Module, arg: &String, con: &String) -> (r:
        Result<PortAssign, ConvertError>)
        requires
            im.ports_scannable(con@),
        ensures
            im.first_port_named(con@) is None ==> r == Err::<PortAssign, ConvertError>(
                ConvertError::UnknownPort,
            ),
            im.first_port_named(con@) is Some && m.first_wire_named(arg@) is None ==> r == Err::<
                PortAssign,
                ConvertError,
            >(ConvertError::UnknownWire),
            im.first_port_named(con@) is Some && m.first_wire_named(arg@) is Some ==> (r matches Ok(
                pa,
            ) && pa.id == 0 && pa.lhs.id == im.ports@[im.first_port_named(con@).unwrap()].id
                && pa.rhs.id == m.wires@[m.first_wire_named(arg@).unwrap()].id),
    {
        let port = match im.port_get(con) {
            Some(p) => p,
            None => return Err(ConvertError::UnknownPort),
        };
        let wire = match m.wire_get(arg) {
            Some(w) => w,
            None => return Err(ConvertError::UnknownWire),
        };
        proof {
            lemma_first_index_of_found(im.port_names(), con@);
            lemma_first_index_of_found(m.wire_names(), arg@);
        }
        Ok(PortAssign::new(port, wire))
    }

    /// Connects the operands `args` of an instance, in order, each to the
    /// port of `im` named by the corresponding argument in `cons`.
    fn process_entity_inst_connections(
        &self,
        instance: &mut Instance,
        m: &Module,
        im: &Module,
        cons: &Vec<Option<String>>,
        args: &Vec<Option<String>>,
    ) -> (r: Result<(), ConvertError>)
        requires
            old(instance).port_assigns@.len() + args@.len() < usize::MAX,
            im.refs_valid(),
            im.ids_consistent(),
            m.ids_consistent(),
        ensures
            match conns_error(cons@, args@, args@.len() as int, im.port_names(), m.wire_names()) {
                Some(err) => r == Err::<(), ConvertError>(err),
                None => r is Ok && {
                    let n0 = old(instance).port_assigns@.len();
                    let cs = conns(
                        cons@,
                        args@,
                        args@.len() as int,
                        im.port_names(),
                        m.wire_names(),
                    );
                    &&& final(instance).port_assigns@.len() == n0 + args@.len()
                    &&& final(instance).port_assigns@.take(n0 as int) == old(instance).port_assigns@
                    &&& forall|k: int|
                        0 <= k < args@.len() ==> {
                            &&& (#[trigger] final(instance).port_assigns@[n0 + k]).id == n0 + k
                            &&& final(instance).port_assigns@[n0 + k].lhs.id == cs[k].0
                            &&& final(instance).port_assigns@[n0 + k].rhs.id == cs[k].1
                        }
                    &&& final(instance).id == old(instance).id
                    &&& final(instance).inst_name == old(instance).inst_name
                    &&& final(instance).module == old(instance).module
                },
            },
    {
        let ghost pn = im.port_names();
        let ghost w = m.wire_names();
        let ghost n0 = old(instance).port_assigns@.len();
        let ghost cs = conns(cons@, args@, args@.len() as int, pn, w);
        let mut i: usize = 0;
        while i < args.len()
            invariant
                i <= args@.len(),
                n0 == old(instance).port_assigns@.len(),
                n0 + args@.len() < usize::MAX,
                pn == im.port_names(),
                w == m.wire_names(),
                cs == conns(cons@, args@, args@.len() as int, pn, w),
                im.refs_valid(),
                im.ids_consistent(),
                m.ids_consistent(),
                conns_error(cons@, args@, i as int, pn, w) is None,
                instance.port_assigns@.len() == n0 + i,
                instance.port_assigns@.take(n0 as int) == old(instance).port_assigns@,
                forall|k: int|
                    0 <= k < i ==> {
                        &&& (#[trigger] instance.port_assigns@[n0 + k]).id == n0 + k
                        &&& instance.port_assigns@[n0 + k].lhs.id == cs[k].0
                        &&& instance.port_assigns@[n0 + k].rhs.id == cs[k].1
                    },
                instance.id == old(instance).id,
                instance.inst_name == old(instance).inst_name,
                instance.module == old(instance).module,
            decreases args@.len() - i,
        {
            proof {
                assert(conns_error(cons@, args@, i + 1, pn, w) == conn_error(
                    cons@,
                    args@[i as int],
                    i as int,
                    pn,
                    w,
                ));
            }
            if i >= cons.len() {
                proof {
                    lemma_conns_error_stays(cons@, args@, i + 1, args@.len() as int, pn, w);
                }
                return Err(ConvertError::MissingTargetArgument);
            }
            let con = match &cons[i] {
                Some(c) => c,
                None => {
                    proof {
                        lemma_conns_error_stays(cons@, args@, i + 1, args@.len() as int, pn, w);
                    }
                    return Err(ConvertError::UnnamedValue);
                },
            };
            let arg = match &args[i] {
                Some(a) => a,
                None => {
                    proof {
                        lemma_conns_error_stays(cons@, args@, i + 1, args@.len() as int, pn, w);
                    }
                    return Err(ConvertError::UnnamedValue);
                },
            };
            proof {
                assert(im.ports_scannable(con@));
            }
            let pa = match self.process_entity_inst_port_assign(m, im, arg, con) {
                Ok(pa) => pa,
                Err(err) => {
                    proof {
                        lemma_conns_error_stays(cons@, args@, i + 1, args@.len() as int, pn, w);
                    }
                    return Err(err);
                },
            };
            proof {
                lemma_first_index_of_found(pn, con@);
                lemma_first_index_of_found(w, arg@);
            }
            let ghost before = instance.port_assigns@;
            instance.port_assign_push(pa);
            proof {
                assert forall|k: int| 0 <= k < i + 1 implies {
                    &&& (#[trigger] instance.port_assigns@[n0 + k]).id == n0 + k
                    &&& instance.port_assigns@[n0 + k].lhs.id == cs[k].0
                    &&& instance.port_assigns@[n0 + k].rhs.id == cs[k].1
                } by {
                    if k < i {
                        assert(instance.port_assigns@[n0 + k] == before[n0 + k]);
                    }
                }
                assert(instance.port_assigns@.take(n0 as int) =~= before.take(n0 as int));
            }
            i = i + 1;
        }
        Ok(())
    }

    /// The instance made by an `inst` instruction of the module that
    /// `m_ref` names: optionally named `name`, of the module named
    /// `target`, whose argument names are `target_ports`, connecting the
    /// operands `ins` and `outs`.
    pub fn process_entity_inst(
        &mut self,
        m_ref: &ModuleRef,
        name: &Option<String>,
        target: &Option<String>,
        target_ports: &Option<TargetPorts>,
        ins: &Vec<Option<String>>,
        outs: &Vec<Option<String>>,
    ) -> (r: Result<Instance, ConvertError>)
        requires
            writer_wf(old(self).modules@),
            m_ref.id < old(self).modules@.len(),
            ins@.len() + outs@.len() < usize::MAX,
        ensures
            final(self).modules == old(self).modules,
            ({
                let mnames = module_names(old(self).modules@);
                let pn = old(self).modules@[target_index(mnames, *target)].port_names();
                let w = old(self).modules@[m_ref.id as int].wire_names();
                let c = old(self).instance_counter;
                match instance_error(mnames, pn, w, c, *name, *target, *target_ports, ins@, outs@) {
                    Some(err) => r == Err::<Instance, ConvertError>(err),
                    None => (r matches Ok(i) && instance_matches(
                        i,
                        instance_model(mnames, pn, w, c, *name, *target, *target_ports, ins@, outs@),
                        0,
                    )) && final(self).instance_counter == inst_name_result(*name, c).unwrap().1,
                }
            }),
            target is None || first_index_of(module_names(old(self).modules@), target.unwrap()@) is None
                || target_ports is None ==> final(self).instance_counter == old(
                self,
            ).instance_counter,
    {
        let ghost mnames = module_names(old(self).modules@);
        let t = match target {
            Some(t) => t,
            None => return Err(ConvertError::UnnamedValue),
        };
        let inst_mod = match self.module_get(t) {
            Some(r) => r,
            None => return Err(ConvertError::UnknownModule),
        };
        let tp = match target_ports {
            Some(tp) => tp,
            None => return Err(ConvertError::NotAnEntity),
        };
        let inst_name = self.inst_name(name)?;
        proof {
            lemma_first_index_of_found(mnames, t@);
            assert(module_wf(self.modules@, target_index(mnames, *target)));
            assert(module_wf(self.modules@, m_ref.id as int));
        }
        let im = self.module(&inst_mod).unwrap();
        let m = self.module(m_ref).unwrap();
        let mut instance = Instance::new(inst_name, inst_mod);
        let ghost pn = im.port_names();
        let ghost w = m.wire_names();
        self.process_entity_inst_connections(&mut instance, m, im, &tp.inputs, ins)?;
        let ghost mid = instance.port_assigns@;
        self.process_entity_inst_connections(&mut instance, m, im, &tp.outputs, outs)?;
        proof {
            let c1 = conns(tp.inputs@, ins@, ins@.len() as int, pn, w);
            let c2 = conns(tp.outputs@, outs@, outs@.len() as int, pn, w);
            let all = c1 + c2;
            assert forall|k: int| 0 <= k < all.len() implies {
                &&& (#[trigger] instance.port_assigns@[k]).id == k
                &&& instance.port_assigns@[k].lhs.id == all[k].0
                &&& instance.port_assigns@[k].rhs.id == all[k].1
            } by {
                if k < ins@.len() {
                    assert(instance.port_assigns@[k] == instance.port_assigns@.take(
                        ins@.len() as int,
                    )[k]);
                    assert(mid[0 + k] == mid[k]);
                } else {
                    let k2 = k - ins@.len();
                    assert(instance.port_assigns@[ins@.len() + k2] == instance.port_assigns@[k]);
                }
            }
        }
        Ok(instance)
    }

    /// The assignment made by a `drv lhs rhs` instruction of the module that
    /// `m_ref` names.
    pub fn process_entity_assign(&self, m_ref: &ModuleRef, lhs: &Option<String>, rhs: &Option<String>) -> (r:
        Result<Assign, ConvertError>)
        requires
            m_ref.id < self.modules@.len(),
        ensures
            ({
                let md = self.modules@[m_ref.id as int];
                let w = md.wire_names();
                match drive_error(w, *lhs, *rhs) {
                    Some(err) => r == Err::<Assign, ConvertError>(err),
                    None => r matches Ok(a) && a.id == 0 && a.lhs.id == md.wires@[drive_model(
                        w,
                        *lhs,
                        *rhs,
                    ).0].id && a.rhs.id == md.wires@[drive_model(w, *lhs, *rhs).1].id,
                }
            }),
    {
        let m = self.module(m_ref).unwrap();
        let l = match lhs {
            Some(l) => l,
            None => return Err(ConvertError::UnnamedValue),
        };
        let lw = match m.wire_get(l) {
            Some(w) => w,
            None => return Err(ConvertError::UnknownWire),
        };
        let r = match rhs {
            Some(r) => r,
            None => return Err(ConvertError::UnnamedValue),
        };
        let rw = match m.wire_get(r) {
            Some(w) => w,
            None => return Err(ConvertError::UnknownWire),
        };
        proof {
            lemma_first_index_of_found(m.wire_names(), l@);
            lemma_first_index_of_found(m.wire_names(), r@);
        }
        Ok(Assign::new(lw, rw))
    }

    /// Converts `entity` into a new module, appended to the writer's
    /// modules.
    pub fn process_entity(&mut self, entity: &EntityDesc) -> (r: Result<(), ConvertError>)
        requires
            writer_wf(old(self).modules@),
            old(self).modules@.len() < usize::MAX,
            entity_fits(*entity),
        ensures
            ({
                let s = summarize(old(self).modules@);
                let c0 = old(self).instance_counter as int;
                match entity_error(s, *entity, c0) {
                    Some(err) => r == Err::<(), ConvertError>(err),
                    None => {
                        &&& r is Ok
                        &&& final(self).modules@.len() == old(self).modules@.len() + 1
                        &&& final(self).modules@.take(old(self).modules@.len() as int) == old(self).modules@
                        &&& module_of(s, *entity, c0, final(self).modules@.last())
                        &&& final(self).instance_counter == counter_at(
                            entity.insts@,
                            entity.insts@.len() as int,
                            c0,
                        )
                        &&& writer_wf(final(self).modules@)
                    },
                }
            }),
    {
        let ghost old_mods = old(self).modules@;
        let ghost s = summarize(old_mods);
        let ghost c0 = old(self).instance_counter as int;
        let ghost l = old_mods.len() as int;
        let m_ref = self.module_push(Module::new(entity.name.clone()));
        proof {
            assert(self.modules@.take(l) =~= old_mods);
        }
        self.process_entity_arguments(entity, &m_ref)?;
        proof {
            let mods = self.modules@;
            let cur = mods[l];
            assert(mods.take(l) =~= old_mods) by {
                assert forall|i: int| 0 <= i < l implies mods[i] == old_mods[i] by {}
            }
            assert(module_with_args(cur, *entity, args_of(*entity).len() as int));
            assert(arg_names(*entity).take(args_of(*entity).len() as int) =~= wires_at(*entity, 0));
            assert(arg_types(*entity).take(args_of(*entity).len() as int) =~= wire_types_at(
                *entity,
                0,
            ));
            assert(module_after(s, *entity, c0, 0, cur));
            assert(module_wf(mods, l));
            lemma_wf_push(old_mods, mods);
            assert(inv_at(s, *entity, c0, 0, mods));
        }
        let n = entity.insts.len();
        let mut k: usize = 0;
        while k < n
            invariant
                n == entity.insts@.len(),
                k <= n,
                entity_fits(*entity),
                m_ref.id == l,
                l == old_mods.len(),
                l < usize::MAX,
                old_mods == old(self).modules@,
                c0 == old(self).instance_counter as int,
                s == summarize(old_mods),
                self.modules@.take(l) == old_mods,
                inv_at(s, *entity, c0, k as int, self.modules@),
                self.instance_counter == counter_at(entity.insts@, k as int, c0),
            decreases n - k,
        {
            let ghost before = self.modules@;
            proof {
                lemma_step_context(s, *entity, c0, k as int, before);
                lemma_counts_bounded(s, *entity, c0, k as int);
                assert(steps_error(s, *entity, c0, k + 1) == step_error(s, *entity, c0, k as int));
                assert(module_wf(before, l));
                assert(s.len() == l);
            }
            match &entity.insts[k] {
                EntityInst::Drive { lhs, rhs } => {
                    let a = match self.process_entity_assign(&m_ref, lhs, rhs) {
                        Ok(a) => a,
                        Err(err) => {
                            proof {
                                lemma_steps_error_stays(s, *entity, c0, k + 1, n as int);
                            }
                            return Err(err);
                        },
                    };
                    proof {
                        let md = before[l];
                        let w = md.wire_names();
                        assert(md.ids_consistent());
                        lemma_first_index_of_found(w, lhs.unwrap()@);
                        lemma_first_index_of_found(w, rhs.unwrap()@);
                        assert((a.lhs.id as int, a.rhs.id as int) == drive_model(w, *lhs, *rhs));
                    }
                    let m = self.module_mut(&m_ref).unwrap();
                    m.assign_push(a);
                    proof {
                        assert(self.modules@.take(l) =~= before.take(l));
                        lemma_drive_step(s, *entity, c0, k as int, before, self.modules@, a);
                    }
                },
                EntityInst::Instance { name, target, target_ports, ins, outs } => {
                    proof {
                        let mnames = module_names(before);
                        let ti = target_index(mnames, *target);
                        if target.is_some() && first_index_of(mnames, target.unwrap()@) is Some {
                            lemma_first_index_of_found(mnames, target.unwrap()@);
                            assert(before[ti].port_names() == target_port_names(s, *entity, ti));
                        }
                    }
                    let i = match self.process_entity_inst(
                        &m_ref,
                        name,
                        target,
                        target_ports,
                        ins,
                        outs,
                    ) {
                        Ok(i) => i,
                        Err(err) => {
                            proof {
                                lemma_steps_error_stays(s, *entity, c0, k + 1, n as int);
                            }
                            return Err(err);
                        },
                    };
                    let ghost inst = i;
                    let m = self.module_mut(&m_ref).unwrap();
                    m.instance_push(i);
                    proof {
                        let after = self.modules@;
                        let b = before[l];
                        let nb = b.instances@.len() as int;
                        assert(self.modules@.take(l) =~= before.take(l));
                        assert(after[l].instances@.take(nb) =~= b.instances@);
                        assert(instance_matches(
                            after[l].instances@[nb],
                            instances_upto(s, *entity, c0, k + 1).last(),
                            nb,
                        ));
                        lemma_instance_step(s, *entity, c0, k as int, before, after);
                    }
                },
                EntityInst::Signal { name, ty } => {
                    let nm = match name {
                        Some(nm) => nm,
                        None => {
                            proof {
                                lemma_steps_error_stays(s, *entity, c0, k + 1, n as int);
                            }
                            return Err(ConvertError::UnnamedValue);
                        },
                    };
                    let t = match Self::process_type(ty) {
                        Ok(t) => t,
                        Err(err) => {
                            proof {
                                lemma_steps_error_stays(s, *entity, c0, k + 1, n as int);
                            }
                            return Err(err);
                        },
                    };
                    let m = self.module_mut(&m_ref).unwrap();
                    m.wire_push(Wire::new(nm.clone(), t));
                    proof {
                        assert(self.modules@.take(l) =~= before.take(l));
                        lemma_signal_step(s, *entity, c0, k as int, before, self.modules@);
                    }
                },
                EntityInst::Unsupported => {
                    proof {
                        lemma_unsupported_step(s, *entity, c0, k as int, before);
                    }
                },
            }
            k = k + 1;
        }
        Ok(())
    }

    /// Converts the entities of `design`, in order, each into a module
    /// appended to the writer's modules.
    pub fn from_llhd(&mut self, design: &Design) -> (r: Result<(), ConvertError>)
        requires
            writer_wf(old(self).modules@),
            old(self).modules@.len() + design.entities@.len() < usize::MAX,
            forall|j: int| 0 <= j < design.entities@.len() ==> entity_fits(#[trigger] design.entities@[j]),
        ensures
            ({
                let s0 = summarize(old(self).modules@);
                let c0 = old(self).instance_counter as int;
                let l0 = old(self).modules@.len() as int;
                let ents = design.entities@;
                match entities_result(s0, c0, ents, ents.len() as int) {
                    Err(err) => r == Err::<(), ConvertError>(err),
                    Ok((s1, c1)) => {
                        &&& r is Ok
                        &&& final(self).modules@.len() == l0 + ents.len()
                        &&& final(self).modules@.take(l0) == old(self).modules@
                        &&& summarize(final(self).modules@) == s1
                        &&& final(self).instance_counter == c1
                        &&& writer_wf(final(self).modules@)
                        &&& forall|j: int|
                            0 <= j < ents.len() ==> {
                                let sj = entities_result(s0, c0, ents, j).unwrap();
                                module_of(sj.0, ents[j], sj.1, #[trigger] final(self).modules@[l0 + j])
                            }
                    },
                }
            }),
    {
        let ghost s0 = summarize(old(self).modules@);
        let ghost c0 = old(self).instance_counter as int;
        let ghost l0 = old(self).modules@.len() as int;
        let ghost ents = design.entities@;
        let n = design.entities.len();
        let mut j: usize = 0;
        while j < n
            invariant
                n == ents.len(),
                ents == design.entities@,
                j <= n,
                s0 == summarize(old(self).modules@),
                c0 == old(self).instance_counter as int,
                l0 == old(self).modules@.len(),
                l0 + n < usize::MAX,
                forall|q: int| 0 <= q < ents.len() ==> entity_fits(#[trigger] ents[q]),
                entities_result(s0, c0, ents, j as int) == Ok::<(Seq<ModuleSummary>, int), ConvertError>(
                    (summarize(self.modules@), self.instance_counter as int),
                ),
                self.modules@.len() == l0 + j,
                self.modules@.take(l0) == old(self).modules@,
                writer_wf(self.modules@),
                forall|q: int|
                    0 <= q < j ==> {
                        let sq = entities_result(s0, c0, ents, q).unwrap();
                        module_of(sq.0, ents[q], sq.1, #[trigger] self.modules@[l0 + q])
                    },
            decreases n - j,
        {
            let ghost before = self.modules@;
            let ghost c_before = self.instance_counter as int;
            let res = self.process_entity(&design.entities[j]);
            if let Err(err) = res {
                proof {
                    lemma_entities_error_stays(s0, c0, ents, j + 1, n as int);
                }
                return Err(err);
            }
            proof {
                let after = self.modules@;
                let e = ents[j as int];
                lemma_summary_of(summarize(before), e, c_before, after.last());
                assert(summarize(after) =~= summarize(before).push(summary_of(e))) by {
                    assert forall|i: int| 0 <= i < before.len() implies after[i] == before[i] by {
                        assert(after[i] == after.take(before.len() as int)[i]);
                    }
                }
                assert(after.take(l0) =~= old(self).modules@) by {
                    assert forall|i: int| 0 <= i < l0 implies after[i] == before[i] by {
                        assert(after[i] == after.take(before.len() as int)[i]);
                        assert(before[i] == before.take(l0)[i]);
                    }
                }
                assert forall|q: int| 0 <= q < j + 1 implies {
                    let sq = entities_result(s0, c0, ents, q).unwrap();
                    module_of(sq.0, ents[q], sq.1, #[trigger] after[l0 + q])
                } by {
                    if q < j {
                        assert(after[l0 + q] == after.take(before.len() as int)[l0 + q]);
                    }
                }
            }
            j = j + 1;
        }
        proof {
            assert(ents.take(n as int) == ents);
        }
        Ok(())
    }

    /// The port list of `m`.
    pub fn write_ports(&self, m: &Module) -> (r: String)
        requires
            forall|j: int| 0 <= j < m.ports@.len() ==> m.valid_wire(#[trigger] m.ports@[j].wire),
        ensures
            r@ == ports_text(*m),
    {
        let ghost items = Seq::new(m.ports@.len(), |j: int| "    "@ + m.port_name(j));
        let mut out = String::new();
        let mut j: usize = 0;
        while j < m.ports.len()
            invariant
                j <= m.ports@.len(),
                forall|j: int| 0 <= j < m.ports@.len() ==> m.valid_wire(#[trigger] m.ports@[j].wire),
                items == Seq::new(m.ports@.len(), |j: int| "    "@ + m.port_name(j)),
                out@ == join(items.take(j as int), ",\n"@),
            decreases m.ports@.len() - j,
        {
            let w = m.wire(&m.ports[j].wire).unwrap();
            let mut t = String::from_str("    ");
            t.append(w.name.as_str());
            if j > 0 {
                out.append(",\n");
            }
            out.append(t.as_str());
            proof {
                assert(items.take(j + 1).drop_last() =~= items.take(j as int));
            }
            j = j + 1;
        }
        proof {
            assert(items.take(j as int) =~= items);
        }
        out.append("\n");
        out
    }

    /// The wire declarations of `m`.
    pub fn write_wires(&self, m: &Module) -> (r: String)
        ensures
            r@ == wires_text(*m),
    {
        let ghost items = Seq::new(m.wires@.len(), |j: int| "  wire "@ + m.wires@[j].name@ + ";\n"@);
        let mut out = String::new();
        let mut j: usize = 0;
        while j < m.wires.len()
            invariant
                j <= m.wires@.len(),
                items == Seq::new(m.wires@.len(), |j: int| "  wire "@ + m.wires@[j].name@ + ";\n"@),
                out@ == concat(items.take(j as int)),
            decreases m.wires@.len() - j,
        {
            let mut t = String::from_str("  wire ");
            t.append(m.wires[j].name.as_str());
            t.append(";\n");
            out.append(t.as_str());
            proof {
                assert(items.take(j + 1).drop_last() =~= items.take(j as int));
            }
            j = j + 1;
        }
        proof {
            assert(items.take(j as int) =~= items);
        }
        out
    }

    /// The text of the instance `i` inside the module `m`.
    fn write_instance(&self, m: &Module, i: &Instance) -> (r: String)
        requires
            m.refs_valid(),
            instance_wf(self.modules@, *i),
            forall|q: int| 0 <= q < i.port_assigns@.len() ==> m.valid_wire(#[trigger] i.port_assigns@[q].rhs),
            forall|k: int| 0 <= k < self.modules@.len() ==> (#[trigger] self.modules@[k]).refs_valid(),
        ensures
            r@ == instance_text(self.modules@, *m, *i),
    {
        let im = self.module(&i.module).unwrap();
        let ghost items = Seq::new(i.port_assigns@.len(), |q: int| connection_text(*im, *m, *i, q));
        let mut conns = String::new();
        let mut q: usize = 0;
        while q < i.port_assigns.len()
            invariant
                q <= i.port_assigns@.len(),
                *im == self.modules@[i.module.id as int],
                im.refs_valid(),
                instance_wf(self.modules@, *i),
                forall|q: int| 0 <= q < i.port_assigns@.len() ==> m.valid_wire(#[trigger] i.port_assigns@[q].rhs),
                items == Seq::new(i.port_assigns@.len(), |q: int| connection_text(*im, *m, *i, q)),
                conns@ == join(items.take(q as int), ",\n"@),
            decreases i.port_assigns@.len() - q,
        {
            let pa = &i.port_assigns[q];
            let port = im.port(&pa.lhs).unwrap();
            let pw = im.wire(&port.wire).unwrap();
            let cw = m.wire(&pa.rhs).unwrap();
            let mut t = String::from_str("    .");
            t.append(pw.name.as_str());
            t.append(" ( ");
            t.append(cw.name.as_str());
            t.append(" )");
            if q > 0 {
                conns.append(",\n");
            }
            conns.append(t.as_str());
            proof {
                assert(items.take(q + 1).drop_last() =~= items.take(q as int));
            }
            q = q + 1;
        }
        proof {
            assert(items.take(q as int) =~= items);
        }
        let mut out = String::from_str("  ");
        out.append(im.name.as_str());
        out.append(" ");
        out.append(i.inst_name.as_str());
        out.append(" (\n");
        out.append(conns.as_str());
        out.append("\n");
        out.append("  );\n");
        out
    }

    /// The instances of `m`.
    pub fn write_instances(&self, m: &Module) -> (r: String)
        requires
            writable(self.modules@, *m),
        ensures
            r@ == instances_text(self.modules@, *m),
    {
        let ghost items = Seq::new(
            m.instances@.len(),
            |j: int| instance_text(self.modules@, *m, m.instances@[j]),
        );
        let mut out = String::new();
        let mut j: usize = 0;
        while j < m.instances.len()
            invariant
                j <= m.instances@.len(),
                writable(self.modules@, *m),
                items == Seq::new(
                    m.instances@.len(),
                    |j: int| instance_text(self.modules@, *m, m.instances@[j]),
                ),
                out@ == concat(items.take(j as int)),
            decreases m.instances@.len() - j,
        {
            let t = self.write_instance(m, &m.instances[j]);
            out.append(t.as_str());
            proof {
                assert(items.take(j + 1).drop_last() =~= items.take(j as int));
            }
            j = j + 1;
        }
        proof {
            assert(items.take(j as int) =~= items);
        }
        out
    }

    /// The assignments of `m`.
    pub fn write_assigns(&self, m: &Module) -> (r: String)
        requires
            forall|j: int| 0 <= j < m.assigns@.len() ==> m.valid_wire(#[trigger] m.assigns@[j].lhs) && m.valid_wire(m.assigns@[j].rhs),
        ensures
            r@ == assigns_text(*m),
    {
        let ghost items = Seq::new(
            m.assigns@.len(),
            |j: int|
                "  assign "@ + m.wire_name(m.assigns@[j].lhs) + " = "@ + m.wire_name(
                    m.assigns@[j].rhs,
                ) + ";\n"@,
        );
        let mut out = String::new();
        let mut j: usize = 0;
        while j < m.assigns.len()
            invariant
                j <= m.assigns@.len(),
                forall|j: int| 0 <= j < m.assigns@.len() ==> m.valid_wire(#[trigger] m.assigns@[j].lhs) && m.valid_wire(m.assigns@[j].rhs),
                items == Seq::new(
                    m.assigns@.len(),
                    |j: int|
                        "  assign "@ + m.wire_name(m.assigns@[j].lhs) + " = "@ + m.wire_name(
                            m.assigns@[j].rhs,
                        ) + ";\n"@,
                ),
                out@ == concat(items.take(j as int)),
            decreases m.assigns@.len() - j,
        {
            let a = &m.assigns[j];
            let lhs = m.wire(&a.lhs).unwrap();
            let rhs = m.wire(&a.rhs).unwrap();
            let mut t = String::from_str("  assign ");
            t.append(lhs.name.as_str());
            t.append(" = ");
            t.append(rhs.name.as_str());
            t.append(";\n");
            out.append(t.as_str());
            proof {
                assert(items.take(j + 1).drop_last() =~= items.take(j as int));
            }
            j = j + 1;
        }
        proof {
            assert(items.take(j as int) =~= items);
        }
        out
    }

    /// The text of the module `m`.
    fn write_module(&self, m: &Module) -> (r: String)
        requires
            writable(self.modules@, *m),
        ensures
            r@ == module_text(self.modules@, *m),
    {
        let mut out = String::from_str("module ");
        out.append(m.name.as_str());
        if m.ports.len() > 0 {
            out.append("(\n");
            let ports = self.write_ports(m);
            out.append(ports.as_str());
            out.append("  );\n");
        } else {
            out.append(";\n");
        }
        out.append("\n");
        let wires = self.write_wires(m);
        out.append(wires.as_str());
        out.append("\n");
        let instances = self.write_instances(m);
        out.append(instances.as_str());
        out.append("\n");
        let assigns = self.write_assigns(m);
        out.append(assigns.as_str());
        out.append("endmodule\n\n");
        out
    }

    /// The Verilog file of all the modules: a header line, then each module
    /// in order.
    pub fn write(&self) -> (r: String)
        requires
            forall|i: int| 0 <= i < self.modules@.len() ==> writable(self.modules@, #[trigger] self.modules@[i]),
        ensures
            r@ == file_text(self.modules@),
    {
        let ghost items = Seq::new(self.modules@.len(), |i: int| module_text(self.modules@, self.modules@[i]));
        let mut body = String::new();
        let mut i: usize = 0;
        while i < self.modules.len()
            invariant
                i <= self.modules@.len(),
                forall|k: int| 0 <= k < self.modules@.len() ==> writable(self.modules@, #[trigger] self.modules@[k]),
                items == Seq::new(self.modules@.len(), |i: int| module_text(self.modules@, self.modules@[i])),
                body@ == concat(items.take(i as int)),
            decreases self.modules@.len() - i,
        {
            proof {
                assert(writable(self.modules@, self.modules@[i as int]));
            }
            let t = self.write_module(&self.modules[i]);
            body.append(t.as_str());
            proof {
                assert(items.take(i + 1).drop_last() =~= items.take(i as int));
            }
            i = i + 1;
        }
        proof {
            assert(items.take(i as int) =~= items);
        }
        let mut out = String::from_str("// This file was generated by llhd-objcopy\n\n");
        out.append(body.as_str());
        out
    }
}

/// The module `m` can be written among the modules `mods`: its wire
/// references are valid, and each of its instances names a module of
/// `mods`, and ports of that module whose wires are valid.
pub open spec fn writable(mods: Seq<Module>, m: Module) -> bool {
    &&& m.refs_valid()
    &&& forall|j: int| 0 <= j < m.instances@.len() ==> instance_wf(mods, #[trigger] m.instances@[j])
    &&& forall|i: int| 0 <= i < mods.len() ==> (#[trigger] mods[i]).refs_valid()
}


/// Every count that converting `design` in a new writer adds to fits in a
/// `usize`.
pub open spec fn design_fits(design: Design) -> bool {
    &&& design.entities@.len() < usize::MAX
    &&& forall|j: int| 0 <= j < design.entities@.len() ==> entity_fits(#[trigger] design.entities@[j])
}

/// Whether every count that converting `e` adds to fits in a `usize`.
pub fn entity_fits_check(e: &EntityDesc) -> (r: bool)
    ensures
        r == entity_fits(*e),
{
    let a = e.inputs.len();
    let b = e.outputs.len();
    let c = e.insts.len();
    if a > usize::MAX - b || a + b > usize::MAX - c || a + b + c == usize::MAX {
        return false;
    }
    let mut k: usize = 0;
    while k < e.insts.len()
        invariant
            k <= e.insts@.len(),
            forall|j: int|
                0 <= j < k ==> match #[trigger] e.insts@[j] {
                    EntityInst::Instance { name, target, target_ports, ins, outs } => ins@.len()
                        + outs@.len() < usize::MAX,
                    _ => true,
                },
        decreases e.insts@.len() - k,
    {
        match &e.insts[k] {
            EntityInst::Instance { ins, outs, .. } => {
                if ins.len() >= usize::MAX - outs.len() {
                    return false;
                }
            },
            _ => {},
        }
        k = k + 1;
    }
    true
}

/// Whether every count that converting `design` in a new writer adds to
/// fits in a `usize`.
pub fn design_fits_check(design: &Design) -> (r: bool)
    ensures
        r == design_fits(*design),
{
    if design.entities.len() == usize::MAX {
        return false;
    }
    let mut j: usize = 0;
    while j < design.entities.len()
        invariant
            j <= design.entities@.len(),
            forall|i: int| 0 <= i < j ==> entity_fits(#[trigger] design.entities@[i]),
        decreases design.entities@.len() - j,
    {
        if !entity_fits_check(&design.entities[j]) {
            return false;
        }
        j = j + 1;
    }
    true
}

/// `mods` are the modules that converting `design` in a new writer makes:
/// one for each entity, in order, each the module its entity becomes.
pub open spec fn converted(design: Design, mods: Seq<Module>) -> bool {
    let ents = design.entities@;
    &&& mods.len() == ents.len()
    &&& writer_wf(mods)
    &&& forall|j: int|
        0 <= j < ents.len() ==> {
            let sj = entities_result(Seq::empty(), 0, ents, j).unwrap();
            module_of(sj.0, ents[j], sj.1, #[trigger] mods[j])
        }
}

/// Converts `design` in a new writer and returns the Verilog text of the
/// modules made: the first error of the conversion, or the text of the
/// modules that `design` becomes.
pub fn convert(design: &Design) -> (r: Result<String, ConvertError>)
    requires
        design_fits(*design),
    ensures
        match entities_result(Seq::empty(), 0, design.entities@, design.entities@.len() as int) {
            Err(err) => r == Err::<String, ConvertError>(err),
            Ok(_) => r matches Ok(text) && exists|mods: Seq<Module>| #[trigger]
                converted(*design, mods) && text@ == file_text(mods),
        },
{
    let mut w = VlogWriter::new();
    proof {
        assert(summarize(w.modules@) =~= Seq::<ModuleSummary>::empty());
    }
    match w.from_llhd(design) {
        Err(err) => Err(err),
        Ok(()) => {
            proof {
                let mods = w.modules@;
                let ents = design.entities@;
                assert forall|i: int| 0 <= i < mods.len() implies writable(mods, #[trigger] mods[i]) by {
                    law_well_formed_modules_are_writable(mods, i);
                }
                assert forall|j: int| 0 <= j < ents.len() implies {
                    let sj = entities_result(Seq::empty(), 0, ents, j).unwrap();
                    module_of(sj.0, ents[j], sj.1, #[trigger] mods[j])
                } by {
                    assert(mods[0 + j] == mods[j]);
                }
            }
            let text = w.write();
            proof {
                assert(converted(*design, w.modules@));
            }
            Ok(text)
        },
    }
}

} // verus!
