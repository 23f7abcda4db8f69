use std::rc::Rc;
use vlog::module::{
    Assign, Instance, Module, ModuleRef, Port, PortAssign, PortRef, PortType, TypeKind, Wire,
    WireRef,
};

fn scalar() -> Rc<TypeKind> {
    Rc::new(TypeKind::Scalar)
}

#[test]
fn new_module_is_empty() {
    let m = Module::new("top".to_string());
    assert_eq!(m.id, 0);
    assert_eq!(m.name, "top");
    assert!(m.ports.is_empty());
    assert!(m.wires.is_empty());
    assert!(m.assigns.is_empty());
    assert!(m.instances.is_empty());
}

#[test]
fn wire_push_gives_next_index_and_reads_back() {
    let mut m = Module::new("top".to_string());
    let a = m.wire_push(Wire::new("a".to_string(), scalar()));
    let b = m.wire_push(Wire::new("b".to_string(), scalar()));
    assert_eq!(a.id, 0);
    assert_eq!(b.id, 1);
    assert_eq!(m.wire(&a).unwrap().name, "a");
    assert_eq!(m.wire(&b).unwrap().name, "b");
    assert_eq!(m.wires[1].id, 1);
    assert!(m.wire(&WireRef { id: 2 }).is_none());
}

#[test]
fn wire_get_finds_first_wire_of_a_name() {
    let mut m = Module::new("top".to_string());
    m.wire_push(Wire::new("a".to_string(), scalar()));
    m.wire_push(Wire::new("b".to_string(), scalar()));
    m.wire_push(Wire::new("a".to_string(), scalar()));
    assert_eq!(m.wire_get(&"a".to_string()).unwrap().id, 0);
    assert_eq!(m.wire_get(&"b".to_string()).unwrap().id, 1);
    assert!(m.wire_get(&"c".to_string()).is_none());
}

#[test]
fn port_push_and_port_get() {
    let mut m = Module::new("top".to_string());
    let a = m.wire_push(Wire::new("a".to_string(), scalar()));
    let b = m.wire_push(Wire::new("b".to_string(), scalar()));
    let pa = m.port_push(Port::new(a, PortType::Input));
    let pb = m.port_push(Port::new(b, PortType::Output));
    assert_eq!(pa.id, 0);
    assert_eq!(pb.id, 1);
    assert_eq!(m.port(&pb).unwrap().port_ty, PortType::Output);
    assert_eq!(m.port_get(&"b".to_string()).unwrap().id, 1);
    assert!(m.port_get(&"c".to_string()).is_none());
    assert!(m.port(&PortRef { id: 5 }).is_none());
}

#[test]
fn fresh_items_carry_index_zero() {
    let w = Wire::new("w".to_string(), scalar());
    assert_eq!(w.id, 0);
    assert_eq!(WireRef::new(&w).id, 0);
    let p = Port::new(WireRef { id: 3 }, PortType::Input);
    assert_eq!(p.id, 0);
    assert_eq!(p.wire.id, 3);
    assert_eq!(PortRef::new(&p).id, 0);
    let a = Assign::new(WireRef { id: 1 }, WireRef { id: 2 });
    assert_eq!((a.id, a.lhs.id, a.rhs.id), (0, 1, 2));
    let pa = PortAssign::new(PortRef { id: 4 }, WireRef { id: 5 });
    assert_eq!((pa.id, pa.lhs.id, pa.rhs.id), (0, 4, 5));
    let m = Module::new("m".to_string());
    assert_eq!(ModuleRef::new(&m).id, 0);
}

#[test]
fn assign_and_instance_push_number_items() {
    let mut m = Module::new("top".to_string());
    m.assign_push(Assign::new(WireRef { id: 0 }, WireRef { id: 0 }));
    m.assign_push(Assign::new(WireRef { id: 0 }, WireRef { id: 0 }));
    assert_eq!(m.assigns[0].id, 0);
    assert_eq!(m.assigns[1].id, 1);
    m.instance_push(Instance::new("u0".to_string(), ModuleRef { id: 0 }));
    m.instance_push(Instance::new("u1".to_string(), ModuleRef { id: 0 }));
    assert_eq!(m.instances[1].id, 1);
    assert_eq!(m.instances[1].inst_name, "u1");
}

#[test]
fn port_assign_push_numbers_connections() {
    let mut i = Instance::new("u".to_string(), ModuleRef { id: 2 });
    assert_eq!(i.id, 0);
    assert_eq!(i.module.id, 2);
    i.port_assign_push(PortAssign::new(PortRef { id: 1 }, WireRef { id: 1 }));
    i.port_assign_push(PortAssign::new(PortRef { id: 0 }, WireRef { id: 3 }));
    assert_eq!(i.port_assigns[0].id, 0);
    assert_eq!(i.port_assigns[1].id, 1);
    assert_eq!(i.port_assigns[1].rhs.id, 3);
}

#[test]
fn wire_port_push_and_wire_mut() {
    let mut m = Module::new("top".to_string());
    let a = m.wire_push(Wire::new("a".to_string(), scalar()));
    {
        let w = m.wire_mut(&a).unwrap();
        w.port_push(PortRef { id: 7 });
        w.name = "renamed".to_string();
    }
    assert_eq!(m.wires[0].ports.len(), 1);
    assert_eq!(m.wires[0].ports[0].id, 7);
    assert_eq!(m.wires[0].name, "renamed");
    assert!(m.wire_mut(&WireRef { id: 1 }).is_none());
}
