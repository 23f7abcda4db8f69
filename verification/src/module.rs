//! The structural Verilog model: modules made of wires, ports, continuous
//! assignments and instances of other modules.
//!
//! Items of a module refer to each other by index (`WireRef`, `PortRef`,
//! `ModuleRef`). A module whose every item carries its own index is said to
//! have consistent ids; the `*_push` methods keep that property.
use std::rc::Rc;
use vstd::prelude::*;

verus! {

/// Direction of a module port.
#[derive(Debug, PartialEq, Eq, Structural)]
pub enum PortType {
    Input,
    Output,
}

/// A shared handle on a Verilog data type.
pub type Type = Rc<TypeKind>;

/// Verilog data types: a single bit, or a vector of `n` elements.
#[derive(Debug)]
pub enum TypeKind {
    Scalar,
    Vector(usize, Type),
}

/// A port of a module: a wire together with its direction.
#[derive(Debug)]
pub struct Port {
    pub id: usize,
    pub wire: WireRef,
    pub port_ty: PortType,
}

impl Port {
    /// A port on `w`; its index is 0 until a module takes it.
    pub fn new(w: WireRef, port_ty: PortType) -> (p: Port)
        ensures
            p.id == 0,
            p.wire == w,
            p.port_ty == port_ty,
    {
        Port { id: 0, wire: w, port_ty: port_ty }
    }
}

/// A reference to a port of a module, by index.
#[derive(Debug)]
pub struct PortRef {
    pub id: usize,
}

impl PortRef {
    /// A reference to the port `p`, by the index that `p` carries.
    pub fn new(p: &Port) -> (r: PortRef)
        ensures
            r.id == p.id,
    {
        PortRef { id: p.id }
    }
}

/// A named wire of a given type.
#[derive(Debug)]
pub struct Wire {
    pub id: usize,
    pub name: String,
    pub ty: Type,
    pub ports: Vec<PortRef>,
}

impl Wire {
    /// A wire named `name` of type `ty`, attached to no port; its index is 0
    /// until a module takes it.
    pub fn new(name: String, ty: Type) -> (w: Wire)
        ensures
            w.id == 0,
            w.name == name,
            w.ty == ty,
            w.ports@ == Seq::<PortRef>::empty(),
    {
        Wire { id: 0, name: name, ty: ty, ports: Vec::new() }
    }

    /// Records that the port `p_ref` is attached to this wire.
    pub fn port_push(&mut self, p_ref: PortRef)
        ensures
            final(self).ports@ == old(self).ports@.push(p_ref),
            final(self).id == old(self).id,
            final(self).name == old(self).name,
            final(self).ty == old(self).ty,
    {
        self.ports.push(p_ref);
    }
}

/// A reference to a wire of a module, by index.
#[derive(Debug, Clone)]
pub struct WireRef {
    pub id: usize,
}

impl WireRef {
    /// A reference to the wire `w`, by the index that `w` carries.
    pub fn new(w: &Wire) -> (r: WireRef)
        ensures
            r.id == w.id,
    {
        WireRef { id: w.id }
    }
}

/// A continuous assignment `assign lhs = rhs;` between two wires.
#[derive(Debug)]
pub struct Assign {
    pub id: usize,
    pub lhs: WireRef,
    pub rhs: WireRef,
}

impl Assign {
    /// The assignment `lhs = rhs`; its index is 0 until a module takes it.
    pub fn new(lhs: WireRef, rhs: WireRef) -> (a: Assign)
        ensures
            a.id == 0,
            a.lhs == lhs,
            a.rhs == rhs,
    {
        Assign { id: 0, lhs: lhs, rhs: rhs }
    }
}

/// Connects a port of an instantiated module (`lhs`) to a wire of the
/// module that holds the instance (`rhs`).
#[derive(Debug)]
pub struct PortAssign {
    pub id: usize,
    pub lhs: PortRef,
    pub rhs: WireRef,
}

impl PortAssign {
    /// The connection of port `lhs` to wire `rhs`; its index is 0 until an
    /// instance takes it.
    pub fn new(lhs: PortRef, rhs: WireRef) -> (a: PortAssign)
        ensures
            a.id == 0,
            a.lhs == lhs,
            a.rhs == rhs,
    {
        PortAssign { id: 0, lhs: lhs, rhs: rhs }
    }
}

/// An instance of a module, with the connections of its ports.
#[derive(Debug)]
pub struct Instance {
    pub id: usize,
    pub inst_name: String,
    pub module: ModuleRef,
    pub port_assigns: Vec<PortAssign>,
}

impl Instance {
    /// An instance named `inst_name` of the module `m`, with no connection
    /// yet; its index is 0 until a module takes it.
    pub fn new(inst_name: String, m: ModuleRef) -> (i: Instance)
        ensures
            i.id == 0,
            i.inst_name == inst_name,
            i.module == m,
            i.port_assigns@ == Seq::<PortAssign>::empty(),
    {
        Instance { id: 0, inst_name: inst_name, module: m, port_assigns: Vec::new() }
    }

    /// Every connection carries its own index.
    pub open spec fn ids_consistent(&self) -> bool {
        forall|j: int| 0 <= j < self.port_assigns@.len() ==> #[trigger] self.port_assigns@[j].id == j
    }

    /// Appends the connection `a`, which takes the next index.
    pub fn port_assign_push(&mut self, a: PortAssign)
        requires
            old(self).port_assigns@.len() < usize::MAX,
        ensures
            final(self).port_assigns@ == old(self).port_assigns@.push(
                PortAssign { id: old(self).port_assigns@.len() as usize, lhs: a.lhs, rhs: a.rhs },
            ),
            final(self).id == old(self).id,
            final(self).inst_name == old(self).inst_name,
            final(self).module == old(self).module,
            old(self).ids_consistent() ==> final(self).ids_consistent(),
    {
        let id = self.port_assigns.len();
        let mut a = a;
        a.id = id;
        self.port_assigns.push(a);
    }
}

/// A Verilog module.
#[derive(Debug)]
pub struct Module {
    pub id: usize,
    pub name: String,
    pub ports: Vec<Port>,
    pub wires: Vec<Wire>,
    pub assigns: Vec<Assign>,
    pub instances: Vec<Instance>,
}

impl Module {
    /// An empty module named `name`.
    pub fn new(name: String) -> (m: Module)
        ensures
            m.id == 0,
            m.name == name,
            m.ports@ == Seq::<Port>::empty(),
            m.wires@ == Seq::<Wire>::empty(),
            m.assigns@ == Seq::<Assign>::empty(),
            m.instances@ == Seq::<Instance>::empty(),
            m.ids_consistent(),
            m.refs_valid(),
    {
        Module {
            id: 0,
            name: name,
            ports: Vec::new(),
            wires: Vec::new(),
            instances: Vec::new(),
            assigns: Vec::new(),
        }
    }

    /// `r` names one of this module's wires.
    pub open spec fn valid_wire(&self, r: WireRef) -> bool {
        r.id < self.wires@.len()
    }

    /// `r` names one of this module's ports.
    pub open spec fn valid_port(&self, r: PortRef) -> bool {
        r.id < self.ports@.len()
    }

    /// The name of the wire that `r` names.
    pub open spec fn wire_name(&self, r: WireRef) -> Seq<char> {
        self.wires@[r.id as int].name@
    }

    /// The name of the wire behind the `j`-th port.
    pub open spec fn port_name(&self, j: int) -> Seq<char> {
        self.wire_name(self.ports@[j].wire)
    }

    /// Every port, wire, assignment and instance carries its own index.
    pub open spec fn ids_consistent(&self) -> bool {
        &&& forall|j: int| 0 <= j < self.ports@.len() ==> #[trigger] self.ports@[j].id == j
        &&& forall|j: int| 0 <= j < self.wires@.len() ==> #[trigger] self.wires@[j].id == j
        &&& forall|j: int| 0 <= j < self.assigns@.len() ==> #[trigger] self.assigns@[j].id == j
        &&& forall|j: int|
            0 <= j < self.instances@.len() ==> #[trigger] self.instances@[j].id == j
    }

    /// Every wire reference held inside the module names one of its wires.
    pub open spec fn refs_valid(&self) -> bool {
        &&& forall|j: int| 0 <= j < self.ports@.len() ==> self.valid_wire(#[trigger] self.ports@[j].wire)
        &&& forall|j: int|
            0 <= j < self.assigns@.len() ==> {
                &&& self.valid_wire(#[trigger] self.assigns@[j].lhs)
                &&& self.valid_wire(self.assigns@[j].rhs)
            }
        &&& forall|j: int, k: int|
            0 <= j < self.instances@.len() && 0 <= k
                < self.instances@[j].port_assigns@.len() ==> self.valid_wire(
                #[trigger] self.instances@[j].port_assigns@[k].rhs,
            )
    }

    /// Appends the instance `i`, which takes the next index.
    pub fn instance_push(&mut self, i: Instance)
        requires
            old(self).instances@.len() < usize::MAX,
        ensures
            final(self).instances@ == old(self).instances@.push(
                Instance {
                    id: old(self).instances@.len() as usize,
                    inst_name: i.inst_name,
                    module: i.module,
                    port_assigns: i.port_assigns,
                },
            ),
            final(self).id == old(self).id,
            final(self).name == old(self).name,
            final(self).ports == old(self).ports,
            final(self).wires == old(self).wires,
            final(self).assigns == old(self).assigns,
            old(self).ids_consistent() ==> final(self).ids_consistent(),
    {
        let id = self.instances.len();
        let mut i = i;
        i.id = id;
        self.instances.push(i);
    }

    /// Appends the assignment `a`, which takes the next index.
    pub fn assign_push(&mut self, a: Assign)
        requires
            old(self).assigns@.len() < usize::MAX,
        ensures
            final(self).assigns@ == old(self).assigns@.push(
                Assign { id: old(self).assigns@.len() as usize, lhs: a.lhs, rhs: a.rhs },
            ),
            final(self).id == old(self).id,
            final(self).name == old(self).name,
            final(self).ports == old(self).ports,
            final(self).wires == old(self).wires,
            final(self).instances == old(self).instances,
            old(self).ids_consistent() ==> final(self).ids_consistent(),
    {
        let id = self.assigns.len();
        let mut a = a;
        a.id = id;
        self.assigns.push(a);
    }

    /// Appends the wire `w`, which takes the next index, and returns a
    /// reference to it.
    pub fn wire_push(&mut self, w: Wire) -> (r: WireRef)
        requires
            old(self).wires@.len() < usize::MAX,
        ensures
            r.id == old(self).wires@.len(),
            final(self).wires@.len() == old(self).wires@.len() + 1,
            final(self).wires@.take(old(self).wires@.len() as int) == old(self).wires@,
            final(self).wires@[r.id as int].id == r.id,
            final(self).wires@[r.id as int].name == w.name,
            final(self).wires@[r.id as int].ty == w.ty,
            final(self).wires@[r.id as int].ports == w.ports,
            final(self).id == old(self).id,
            final(self).name == old(self).name,
            final(self).ports == old(self).ports,
            final(self).assigns == old(self).assigns,
            final(self).instances == old(self).instances,
            old(self).ids_consistent() ==> final(self).ids_consistent(),
    {
        let id = self.wires.len();
        let mut w = w;
        w.id = id;
        let r = WireRef::new(&w);
        self.wires.push(w);
        proof {
            assert(self.wires@.take(id as int) =~= old(self).wires@);
        }
        r
    }

    /// Appends the port `p`, which takes the next index, and returns a
    /// reference to it.
    pub fn port_push(&mut self, p: Port) -> (r: PortRef)
        requires
            old(self).ports@.len() < usize::MAX,
        ensures
            r.id == old(self).ports@.len(),
            final(self).ports@.len() == old(self).ports@.len() + 1,
            final(self).ports@.take(old(self).ports@.len() as int) == old(self).ports@,
            final(self).ports@[r.id as int].id == r.id,
            final(self).ports@[r.id as int].wire == p.wire,
            final(self).ports@[r.id as int].port_ty == p.port_ty,
            final(self).id == old(self).id,
            final(self).name == old(self).name,
            final(self).wires == old(self).wires,
            final(self).assigns == old(self).assigns,
            final(self).instances == old(self).instances,
            old(self).ids_consistent() ==> final(self).ids_consistent(),
    {
        let id = self.ports.len();
        let mut p = p;
        p.id = id;
        let r = PortRef::new(&p);
        self.ports.push(p);
        proof {
            assert(self.ports@.take(id as int) =~= old(self).ports@);
        }
        r
    }

    /// The names of the wires behind the ports, in port order.
    pub open spec fn port_names(&self) -> Seq<Seq<char>> {
        Seq::new(self.ports@.len(), |j: int| self.port_name(j))
    }

    /// The index of the first port whose wire is named `name`, if any.
    pub open spec fn first_port_named(&self, name: Seq<char>) -> Option<int> {
        first_index_of(self.port_names(), name)
    }

    /// The ports up to the first one named `name` (or all of them) have
    /// wires of this module.
    pub open spec fn ports_scannable(&self, name: Seq<char>) -> bool {
        forall|j: int|
            0 <= j < self.ports@.len() && (forall|k: int| 0 <= k < j ==> self.port_name(k) != name)
                ==> self.valid_wire(#[trigger] self.ports@[j].wire)
    }

    /// Looks a port up by the name of its wire: a reference to the first
    /// port whose wire is named `name`, or `None` where there is none.
    pub fn port_get(&self, name: &String) -> (r: Option<PortRef>)
        requires
            self.ports_scannable(name@),
        ensures
            r is Some <==> self.first_port_named(name@) is Some,
            r matches Some(pr) ==> pr.id == self.ports@[self.first_port_named(name@).unwrap()].id,
    {
        let mut j: usize = 0;
        while j < self.ports.len()
            invariant
                j <= self.ports@.len(),
                self.ports_scannable(name@),
                forall|k: int| 0 <= k < j ==> self.port_name(k) != name@,
            decreases self.ports@.len() - j,
        {
            let port = &self.ports[j];
            let w = self.wire(&port.wire);
            if w.unwrap().name == *name {
                let r = PortRef::new(port);
                proof {
                    lemma_first_index_of(self.port_names(), name@, j as int);
                }
                return Some(r);
            }
            j += 1;
        }
        proof {
            lemma_first_index_of_absent(self.port_names(), name@);
        }
        None
    }

    /// The index of the first wire named `name`, if any.
    pub open spec fn first_wire_named(&self, name: Seq<char>) -> Option<int> {
        first_index_of(self.wire_names(), name)
    }

    /// The names of the wires, in order.
    pub open spec fn wire_names(&self) -> Seq<Seq<char>> {
        self.wires@.map_values(|w: Wire| w.name@)
    }

    /// Looks a wire up by name: a reference to the first wire named `name`,
    /// or `None` where there is none.
    pub fn wire_get(&self, name: &String) -> (r: Option<WireRef>)
        ensures
            r is Some <==> self.first_wire_named(name@) is Some,
            r matches Some(wr) ==> wr.id == self.wires@[self.first_wire_named(name@).unwrap()].id,
    {
        let mut j: usize = 0;
        while j < self.wires.len()
            invariant
                j <= self.wires@.len(),
                forall|k: int| 0 <= k < j ==> self.wire_names()[k] != name@,
            decreases self.wires@.len() - j,
        {
            let wire = &self.wires[j];
            if wire.name == *name {
                proof {
                    lemma_first_index_of(self.wire_names(), name@, j as int);
                }
                return Some(WireRef::new(wire));
            }
            j += 1;
        }
        proof {
            lemma_first_index_of_absent(self.wire_names(), name@);
        }
        None
    }

    /// The port that `p_ref` names, if it names one.
    pub fn port(&self, p_ref: &PortRef) -> (r: Option<&Port>)
        ensures
            r is Some <==> self.valid_port(*p_ref),
            r matches Some(p) ==> *p == self.ports@[p_ref.id as int],
    {
        if p_ref.id < self.ports.len() {
            Some(&self.ports[p_ref.id])
        } else {
            None
        }
    }

    /// The wire that `w_ref` names, if it names one.
    pub fn wire(&self, w_ref: &WireRef) -> (r: Option<&Wire>)
        ensures
            r is Some <==> self.valid_wire(*w_ref),
            r matches Some(w) ==> *w == self.wires@[w_ref.id as int],
    {
        if w_ref.id < self.wires.len() {
            Some(&self.wires[w_ref.id])
        } else {
            None
        }
    }

    /// Mutable access to the wire that `w_ref` names, if it names one.
    pub fn wire_mut(&mut self, w_ref: &WireRef) -> (r: Option<&mut Wire>)
        ensures
            r is Some <==> old(self).valid_wire(*w_ref),
            r is None ==> *final(self) == *old(self),
            r is Some ==> {
                &&& *r.unwrap() == old(self).wires@[w_ref.id as int]
                &&& final(self).wires@ == old(self).wires@.update(w_ref.id as int, *final(r.unwrap()))
                &&& final(self).id == old(self).id
                &&& final(self).name == old(self).name
                &&& final(self).ports == old(self).ports
                &&& final(self).assigns == old(self).assigns
                &&& final(self).instances == old(self).instances
            },
    {
        if w_ref.id < self.wires.len() {
            Some(&mut self.wires[w_ref.id])
        } else {
            None
        }
    }
}

/// A reference to a module, by index.
#[derive(Debug)]
pub struct ModuleRef {
    pub id: usize,
}

impl ModuleRef {
    /// A reference to the module `m`, by the index that `m` carries.
    pub fn new(m: &Module) -> (r: ModuleRef)
        ensures
            r.id == m.id,
    {
        ModuleRef { id: m.id }
    }
}

/// The index of the first occurrence of `x` in `s`, if any.
#[verifier::opaque]
pub open spec fn first_index_of<T>(s: Seq<T>, x: T) -> Option<int> {
    if s.contains(x) {
        Some(choose|j: int| 0 <= j < s.len() && s[j] == x && forall|k: int| 0 <= k < j ==> s[k] != x)
    } else {
        None
    }
}

/// A position that holds `x` after positions that do not is the first one.
pub proof fn lemma_first_index_of<T>(s: Seq<T>, x: T, j: int)
    requires
        0 <= j < s.len(),
        s[j] == x,
        forall|k: int| 0 <= k < j ==> s[k] != x,
    ensures
        first_index_of(s, x) == Some(j),
{
    reveal(first_index_of);
    assert(s.contains(x));
    let c = choose|c: int| 0 <= c < s.len() && s[c] == x && forall|k: int| 0 <= k < c ==> s[k] != x;
    assert(0 <= c < s.len() && s[c] == x && forall|k: int| 0 <= k < c ==> s[k] != x);
    if c < j {
    } else if c > j {
    }
}

/// The first index of `x`, where there is one, holds `x` and no position
/// before it does.
pub proof fn lemma_first_index_of_found<T>(s: Seq<T>, x: T)
    requires
        first_index_of(s, x) is Some,
    ensures
        0 <= first_index_of(s, x).unwrap() < s.len(),
        s[first_index_of(s, x).unwrap()] == x,
        forall|k: int| 0 <= k < first_index_of(s, x).unwrap() ==> s[k] != x,
{
    reveal(first_index_of);
    let j = choose|j: int| 0 <= j < s.len() && s[j] == x;
    assert(0 <= j < s.len() && s[j] == x);
    lemma_first_exists(s, x, j);
}

/// Where some position holds `x`, a first one does.
proof fn lemma_first_exists<T>(s: Seq<T>, x: T, j: int)
    requires
        0 <= j < s.len(),
        s[j] == x,
    ensures
        exists|c: int| 0 <= c < s.len() && s[c] == x && forall|k: int| 0 <= k < c ==> s[k] != x,
    decreases j,
{
    if exists|k: int| 0 <= k < j && s[k] == x {
        let k = choose|k: int| 0 <= k < j && s[k] == x;
        lemma_first_exists(s, x, k);
    } else {
        assert(forall|k: int| 0 <= k < j ==> s[k] != x);
    }
}

/// Where no position holds `x`, there is no first one.
pub proof fn lemma_first_index_of_absent<T>(s: Seq<T>, x: T)
    requires
        forall|k: int| 0 <= k < s.len() ==> s[k] != x,
    ensures
        first_index_of(s, x) is None,
{
    reveal(first_index_of);
}

} // verus!
