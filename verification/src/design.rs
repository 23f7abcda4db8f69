//! A plain-value description of an LLHD design: what the Verilog writer
//! reads of an LLHD module, with every value reference already resolved to
//! the name it carries (`None` where it carries none).
use vstd::prelude::*;

verus! {

/// The LLHD types that the writer tells apart.
#[derive(Debug)]
pub enum LlhdType {
    /// `iN`: an integer of `N` bits.
    Int(usize),
    /// `T$`: a signal carrying values of type `T`.
    Signal(Box<LlhdType>),
    /// `<N x T>`: a vector of `N` elements of type `T`.
    Vector(usize, Box<LlhdType>),
    /// Any other type (void, time, enum, pointer, struct, function, entity).
    Unsupported,
}

/// An input or output argument of an entity.
#[derive(Debug)]
pub struct EntityArg {
    pub name: Option<String>,
    pub ty: LlhdType,
}

/// The names of the arguments of an instantiated entity.
#[derive(Debug)]
pub struct TargetPorts {
    pub inputs: Vec<Option<String>>,
    pub outputs: Vec<Option<String>>,
}

/// An instruction in the body of an entity.
#[derive(Debug)]
pub enum EntityInst {
    /// `drv lhs rhs`: the signal `lhs` is driven by `rhs`.
    Drive { lhs: Option<String>, rhs: Option<String> },
    /// `inst target (ins) (outs)`: an instance, optionally named, of the
    /// unit named `target`; `target_ports` holds the argument names of the
    /// target where the target is an entity, and is `None` where it is not.
    Instance {
        name: Option<String>,
        target: Option<String>,
        target_ports: Option<TargetPorts>,
        ins: Vec<Option<String>>,
        outs: Vec<Option<String>>,
    },
    /// `name = sig ty`: a local signal of data type `ty`.
    Signal { name: Option<String>, ty: LlhdType },
    /// Any other instruction.
    Unsupported,
}

/// An LLHD entity: its name, arguments and instructions in order.
#[derive(Debug)]
pub struct EntityDesc {
    pub name: String,
    pub inputs: Vec<EntityArg>,
    pub outputs: Vec<EntityArg>,
    pub insts: Vec<EntityInst>,
}

/// The entities of an LLHD module, in the order of the module's values.
#[derive(Debug)]
pub struct Design {
    pub entities: Vec<EntityDesc>,
}

} // verus!
