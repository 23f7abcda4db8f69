use vlog::design::{Design, EntityArg, EntityDesc, EntityInst, LlhdType, TargetPorts};
use vlog::module::{Module, Port, PortType, TypeKind, Wire};
use vlog::writer::{decimal_string, ConvertError, VlogWriter};

fn s(x: &str) -> Option<String> {
    Some(x.to_string())
}

fn sig_int(n: usize) -> LlhdType {
    LlhdType::Signal(Box::new(LlhdType::Int(n)))
}

fn arg(name: &str, ty: LlhdType) -> EntityArg {
    EntityArg { name: s(name), ty }
}

/// `sub (a) (b)` drives `b` from `a`.
fn sub_entity() -> EntityDesc {
    EntityDesc {
        name: "sub".to_string(),
        inputs: vec![arg("a", sig_int(1))],
        outputs: vec![arg("b", sig_int(1))],
        insts: vec![EntityInst::Drive { lhs: s("b"), rhs: s("a") }],
    }
}

fn sub_ports() -> Option<TargetPorts> {
    Some(TargetPorts { inputs: vec![s("a")], outputs: vec![s("b")] })
}

/// `top (x) (y)` has a signal `s`, an unnamed instance of `sub` from `x` to
/// `s`, and drives `y` from `s`.
fn top_entity() -> EntityDesc {
    EntityDesc {
        name: "top".to_string(),
        inputs: vec![arg("x", sig_int(8))],
        outputs: vec![arg("y", sig_int(8))],
        insts: vec![
            EntityInst::Signal { name: s("s"), ty: LlhdType::Int(8) },
            EntityInst::Instance {
                name: None,
                target: s("sub"),
                target_ports: sub_ports(),
                ins: vec![s("x")],
                outs: vec![s("s")],
            },
            EntityInst::Drive { lhs: s("y"), rhs: s("s") },
        ],
    }
}

const SUB_TOP_TEXT: &str = "// This file was generated by llhd-objcopy\n\n\
module sub(\n    a,\n    b\n  );\n\n  wire a;\n  wire b;\n\n\n  assign b = a;\nendmodule\n\n\
module top(\n    x,\n    y\n  );\n\n  wire x;\n  wire y;\n  wire s;\n\n  sub i_1 (\n    .a ( x ),\n    .b ( s )\n  );\n\n  assign y = s;\nendmodule\n\n";

fn convert(design: &Design) -> (VlogWriter, Result<(), ConvertError>) {
    let mut w = VlogWriter::new();
    let r = w.from_llhd(design);
    (w, r)
}

fn error_of(entities: Vec<EntityDesc>) -> ConvertError {
    convert(&Design { entities }).1.unwrap_err()
}

fn with_insts(insts: Vec<EntityInst>) -> EntityDesc {
    EntityDesc {
        name: "top".to_string(),
        inputs: vec![arg("x", sig_int(8))],
        outputs: vec![arg("y", sig_int(8))],
        insts,
    }
}

#[test]
fn design_converts_and_writes() {
    let (w, r) = convert(&Design { entities: vec![sub_entity(), top_entity()] });
    assert_eq!(r, Ok(()));
    assert_eq!(w.modules.len(), 2);
    assert_eq!(w.instance_counter, 1);
    let top = &w.modules[1];
    assert_eq!(top.id, 1);
    assert_eq!(top.wires.len(), 3);
    assert_eq!(top.instances[0].module.id, 0);
    assert_eq!(top.instances[0].port_assigns[1].lhs.id, 1);
    assert_eq!(top.instances[0].port_assigns[1].rhs.id, 2);
    assert_eq!(top.assigns[0].lhs.id, 1);
    assert_eq!(top.assigns[0].rhs.id, 2);
    assert_eq!(w.write(), SUB_TOP_TEXT);
}

#[test]
fn empty_design_writes_only_the_header() {
    let (w, r) = convert(&Design { entities: vec![] });
    assert_eq!(r, Ok(()));
    assert_eq!(w.write(), "// This file was generated by llhd-objcopy\n\n");
}

#[test]
fn module_without_ports_has_a_short_header() {
    let e = EntityDesc { name: "leaf".to_string(), inputs: vec![], outputs: vec![], insts: vec![] };
    let (w, r) = convert(&Design { entities: vec![e] });
    assert_eq!(r, Ok(()));
    assert_eq!(
        w.write(),
        "// This file was generated by llhd-objcopy\n\nmodule leaf;\n\n\n\nendmodule\n\n"
    );
}

#[test]
fn named_instance_keeps_its_name_and_counter() {
    let mut top = top_entity();
    top.insts[1] = EntityInst::Instance {
        name: s("u_sub"),
        target: s("sub"),
        target_ports: sub_ports(),
        ins: vec![s("x")],
        outs: vec![s("s")],
    };
    let (w, r) = convert(&Design { entities: vec![sub_entity(), top] });
    assert_eq!(r, Ok(()));
    assert_eq!(w.instance_counter, 0);
    assert_eq!(w.modules[1].instances[0].inst_name, "u_sub");
}

#[test]
fn unnamed_instances_count_up() {
    let inst = || EntityInst::Instance {
        name: None,
        target: s("sub"),
        target_ports: sub_ports(),
        ins: vec![],
        outs: vec![],
    };
    let (w, r) = convert(&Design { entities: vec![sub_entity(), with_insts(vec![inst(), inst()])] });
    assert_eq!(r, Ok(()));
    assert_eq!(w.modules[1].instances[0].inst_name, "i_1");
    assert_eq!(w.modules[1].instances[1].inst_name, "i_2");
    assert_eq!(w.instance_counter, 2);
}

#[test]
fn self_instance_uses_own_ports() {
    let inst = EntityInst::Instance {
        name: s("me"),
        target: s("top"),
        target_ports: Some(TargetPorts { inputs: vec![s("x")], outputs: vec![s("y")] }),
        ins: vec![s("y")],
        outs: vec![s("x")],
    };
    let (w, r) = convert(&Design { entities: vec![with_insts(vec![inst])] });
    assert_eq!(r, Ok(()));
    let i = &w.modules[0].instances[0];
    assert_eq!(i.module.id, 0);
    assert_eq!((i.port_assigns[0].lhs.id, i.port_assigns[0].rhs.id), (0, 1));
    assert_eq!((i.port_assigns[1].lhs.id, i.port_assigns[1].rhs.id), (1, 0));
}

#[test]
fn unsupported_instructions_are_skipped() {
    let (w, r) = convert(&Design { entities: vec![with_insts(vec![EntityInst::Unsupported])] });
    assert_eq!(r, Ok(()));
    assert_eq!(w.modules[0].wires.len(), 2);
    assert!(w.modules[0].assigns.is_empty());
}

#[test]
fn drive_before_signal_declaration_fails() {
    let e = with_insts(vec![
        EntityInst::Drive { lhs: s("y"), rhs: s("t") },
        EntityInst::Signal { name: s("t"), ty: LlhdType::Int(8) },
    ]);
    assert_eq!(error_of(vec![e]), ConvertError::UnknownWire);
}

#[test]
fn error_unnamed_argument() {
    let e = EntityDesc {
        name: "top".to_string(),
        inputs: vec![EntityArg { name: None, ty: sig_int(1) }],
        outputs: vec![],
        insts: vec![],
    };
    assert_eq!(error_of(vec![e]), ConvertError::UnnamedValue);
}

#[test]
fn error_unsupported_type() {
    let e = EntityDesc {
        name: "top".to_string(),
        inputs: vec![arg("x", LlhdType::Unsupported)],
        outputs: vec![],
        insts: vec![],
    };
    assert_eq!(error_of(vec![e]), ConvertError::UnsupportedType);
}

#[test]
fn error_zero_width_int() {
    let e = with_insts(vec![EntityInst::Signal { name: s("z"), ty: LlhdType::Int(0) }]);
    assert_eq!(error_of(vec![e]), ConvertError::ZeroWidthInt);
}

#[test]
fn error_unnamed_signal() {
    let e = with_insts(vec![EntityInst::Signal { name: None, ty: LlhdType::Int(2) }]);
    assert_eq!(error_of(vec![e]), ConvertError::UnnamedValue);
}

#[test]
fn error_unnamed_drive_operand() {
    let e = with_insts(vec![EntityInst::Drive { lhs: s("y"), rhs: None }]);
    assert_eq!(error_of(vec![e]), ConvertError::UnnamedValue);
}

#[test]
fn error_unknown_module() {
    let e = with_insts(vec![EntityInst::Instance {
        name: None,
        target: s("nowhere"),
        target_ports: sub_ports(),
        ins: vec![],
        outs: vec![],
    }]);
    assert_eq!(error_of(vec![e]), ConvertError::UnknownModule);
}

#[test]
fn error_not_an_entity() {
    let e = with_insts(vec![EntityInst::Instance {
        name: None,
        target: s("sub"),
        target_ports: None,
        ins: vec![],
        outs: vec![],
    }]);
    assert_eq!(error_of(vec![sub_entity(), e]), ConvertError::NotAnEntity);
}

#[test]
fn error_missing_target_argument() {
    let e = with_insts(vec![EntityInst::Instance {
        name: None,
        target: s("sub"),
        target_ports: sub_ports(),
        ins: vec![s("x"), s("x")],
        outs: vec![],
    }]);
    assert_eq!(error_of(vec![sub_entity(), e]), ConvertError::MissingTargetArgument);
}

#[test]
fn error_unknown_port() {
    let e = with_insts(vec![EntityInst::Instance {
        name: None,
        target: s("sub"),
        target_ports: Some(TargetPorts { inputs: vec![s("q")], outputs: vec![] }),
        ins: vec![s("x")],
        outs: vec![],
    }]);
    assert_eq!(error_of(vec![sub_entity(), e]), ConvertError::UnknownPort);
}

#[test]
fn error_unknown_wire_in_connection() {
    let e = with_insts(vec![EntityInst::Instance {
        name: None,
        target: s("sub"),
        target_ports: sub_ports(),
        ins: vec![s("nope")],
        outs: vec![],
    }]);
    assert_eq!(error_of(vec![sub_entity(), e]), ConvertError::UnknownWire);
}

#[test]
fn error_counter_overflow() {
    let mut w = VlogWriter::new();
    w.instance_counter = usize::MAX;
    assert_eq!(w.inst_name(&None), Err(ConvertError::CounterOverflow));
    assert_eq!(w.inst_name(&s("kept")), Ok("kept".to_string()));
}

#[test]
fn first_failing_entity_decides_the_error() {
    let bad = EntityDesc {
        name: "bad".to_string(),
        inputs: vec![arg("x", LlhdType::Int(0))],
        outputs: vec![],
        insts: vec![],
    };
    let worse = EntityDesc {
        name: "worse".to_string(),
        inputs: vec![EntityArg { name: None, ty: sig_int(1) }],
        outputs: vec![],
        insts: vec![],
    };
    assert_eq!(error_of(vec![bad, worse]), ConvertError::ZeroWidthInt);
}

#[test]
fn process_type_maps_llhd_types() {
    match &*VlogWriter::process_type(&LlhdType::Int(8)).unwrap() {
        TypeKind::Vector(8, inner) => assert!(matches!(**inner, TypeKind::Scalar)),
        _ => panic!("expected a vector of 8 scalars"),
    }
    match &*VlogWriter::process_type(&sig_int(4)).unwrap() {
        TypeKind::Vector(4, inner) => assert!(matches!(**inner, TypeKind::Scalar)),
        _ => panic!("expected a vector of 4 scalars"),
    }
    let v = LlhdType::Vector(3, Box::new(LlhdType::Int(2)));
    match &*VlogWriter::process_type(&v).unwrap() {
        TypeKind::Vector(3, elem) => match &**elem {
            TypeKind::Vector(2, _) => {},
            _ => panic!("expected 2-bit elements"),
        },
        _ => panic!("expected a vector of 3"),
    }
    assert_eq!(
        VlogWriter::process_type(&LlhdType::Signal(Box::new(LlhdType::Unsupported))).unwrap_err(),
        ConvertError::UnsupportedType
    );
    assert_eq!(VlogWriter::process_type(&LlhdType::Int(0)).unwrap_err(), ConvertError::ZeroWidthInt);
}

#[test]
fn decimal_strings() {
    assert_eq!(decimal_string(0), "0");
    assert_eq!(decimal_string(7), "7");
    assert_eq!(decimal_string(10), "10");
    assert_eq!(decimal_string(1234567), "1234567");
    assert_eq!(decimal_string(usize::MAX), usize::MAX.to_string());
}

#[test]
fn module_lookup_by_name_and_reference() {
    let (w, _) = convert(&Design { entities: vec![sub_entity(), top_entity()] });
    assert_eq!(w.module_get(&"top".to_string()).unwrap().id, 1);
    assert!(w.module_get(&"other".to_string()).is_none());
    assert_eq!(w.module(&vlog::module::ModuleRef { id: 0 }).unwrap().name, "sub");
    assert!(w.module(&vlog::module::ModuleRef { id: 2 }).is_none());
}

#[test]
fn modules_follow_entities_in_order() {
    let (w, r) = convert(&Design { entities: vec![sub_entity(), top_entity()] });
    assert_eq!(r, Ok(()));
    let names: Vec<&str> = w.modules.iter().map(|m| m.name.as_str()).collect();
    assert_eq!(names, vec!["sub", "top"]);
    let top = &w.modules[1];
    let port_names: Vec<&str> =
        top.ports.iter().map(|p| top.wires[p.wire.id].name.as_str()).collect();
    assert_eq!(port_names, vec!["x", "y"]);
    assert_eq!(top.ports[0].port_ty, vlog::module::PortType::Input);
    assert_eq!(top.ports[1].port_ty, vlog::module::PortType::Output);
}

#[test]
fn duplicate_module_names_resolve_to_the_first() {
    let mut second = sub_entity();
    second.inputs = vec![arg("c", sig_int(1)), arg("a", sig_int(1))];
    let inst = EntityInst::Instance {
        name: None,
        target: s("sub"),
        target_ports: sub_ports(),
        ins: vec![s("x")],
        outs: vec![],
    };
    let (w, r) = convert(&Design { entities: vec![sub_entity(), second, with_insts(vec![inst])] });
    assert_eq!(r, Ok(()));
    assert_eq!(w.module_get(&"sub".to_string()).unwrap().id, 0);
    let i = &w.modules[2].instances[0];
    assert_eq!(i.module.id, 0);
    assert_eq!(i.port_assigns[0].lhs.id, 0);
}

#[test]
fn same_design_gives_same_text() {
    let d = Design { entities: vec![sub_entity(), top_entity()] };
    let (w1, _) = convert(&d);
    let (w2, _) = convert(&d);
    assert_eq!(w1.write(), w2.write());
}

#[test]
fn arguments_are_appended_after_existing_wires_and_ports() {
    let mut w = VlogWriter::new();
    let mut m = Module::new("m".to_string());
    let ty = std::rc::Rc::new(TypeKind::Scalar);
    let first = m.wire_push(Wire::new("old".to_string(), ty));
    m.port_push(Port::new(first, PortType::Input));
    let m_ref = w.module_push(m);
    let e = EntityDesc {
        name: "e".to_string(),
        inputs: vec![arg("a", sig_int(1))],
        outputs: vec![arg("b", sig_int(2))],
        insts: vec![],
    };
    assert_eq!(w.process_entity_arguments(&e, &m_ref), Ok(()));
    let m = &w.modules[0];
    assert_eq!(m.wires.len(), 3);
    assert_eq!(m.wires[0].name, "old");
    assert_eq!(m.wires[1].name, "a");
    assert_eq!(m.wires[2].name, "b");
    assert_eq!(m.wires[2].id, 2);
    assert_eq!(m.ports.len(), 3);
    assert_eq!(m.ports[1].wire.id, 1);
    assert_eq!(m.ports[1].port_ty, PortType::Input);
    assert_eq!(m.ports[2].id, 2);
    assert_eq!(m.ports[2].wire.id, 2);
    assert_eq!(m.ports[2].port_ty, PortType::Output);
}

#[test]
fn convert_gives_the_text_of_the_design() {
    let d = Design { entities: vec![sub_entity()] };
    assert!(vlog::writer::design_fits_check(&d));
    let mut w = VlogWriter::new();
    assert_eq!(w.from_llhd(&d), Ok(()));
    assert_eq!(vlog::writer::convert(&d), Ok(w.write()));
}

#[test]
fn convert_reports_the_first_error() {
    let mut e = sub_entity();
    e.inputs[0].name = None;
    let d = Design { entities: vec![e] };
    assert_eq!(vlog::writer::convert(&d), Err(ConvertError::UnnamedValue));
}
