use vlog::design::{EntityInst, LlhdType};
use vlog::llhd_input::{parse_design, value_name};
use vlog::llhd_text::llhd_text_check;
use vlog::writer::VlogWriter;

const SUB_TOP: &str = "entity @sub (i1$ %a) (i1$ %b) {
    drv %b %a
}

entity @top (i8$ %x) (i8$ %y) {
    %s = sig i8
    inst @sub (%x) (%s)
    drv %y %s
}
";

const SUB_TOP_TEXT: &str = "// This file was generated by llhd-objcopy\n\n\
module sub(\n    a,\n    b\n  );\n\n  wire a;\n  wire b;\n\n\n  assign b = a;\nendmodule\n\n\
module top(\n    x,\n    y\n  );\n\n  wire x;\n  wire y;\n  wire s;\n\n  sub i_1 (\n    .a ( x ),\n    .b ( s )\n  );\n\n  assign y = s;\nendmodule\n\n";

#[test]
fn parsed_design_describes_the_entities() {
    let d = parse_design(SUB_TOP).unwrap();
    assert_eq!(d.entities.len(), 2);
    let top = &d.entities[1];
    assert_eq!(top.name, "top");
    assert_eq!(top.inputs[0].name.as_deref(), Some("x"));
    assert!(matches!(&top.inputs[0].ty, LlhdType::Signal(inner) if matches!(**inner, LlhdType::Int(8))));
    assert_eq!(top.outputs[0].name.as_deref(), Some("y"));
    assert_eq!(top.insts.len(), 3);
    match &top.insts[0] {
        EntityInst::Signal { name, ty } => {
            assert_eq!(name.as_deref(), Some("s"));
            assert!(matches!(ty, LlhdType::Int(8)));
        },
        _ => panic!("expected a signal"),
    }
    match &top.insts[1] {
        EntityInst::Instance { name, target, target_ports, ins, outs } => {
            assert_eq!(*name, None);
            assert_eq!(target.as_deref(), Some("sub"));
            let tp = target_ports.as_ref().unwrap();
            assert_eq!(tp.inputs, vec![Some("a".to_string())]);
            assert_eq!(tp.outputs, vec![Some("b".to_string())]);
            assert_eq!(*ins, vec![Some("x".to_string())]);
            assert_eq!(*outs, vec![Some("s".to_string())]);
        },
        _ => panic!("expected an instance"),
    }
    match &top.insts[2] {
        EntityInst::Drive { lhs, rhs } => {
            assert_eq!(lhs.as_deref(), Some("y"));
            assert_eq!(rhs.as_deref(), Some("s"));
        },
        _ => panic!("expected a drive"),
    }
}

#[test]
fn parsed_design_writes_verilog() {
    let d = parse_design(SUB_TOP).unwrap();
    let mut w = VlogWriter::new();
    assert_eq!(w.from_llhd(&d), Ok(()));
    assert_eq!(w.write(), SUB_TOP_TEXT);
}

#[test]
fn functions_and_processes_are_left_out() {
    let text = "func @f () void {
}

proc @p () () {
}

entity @e () () {
}
";
    let d = parse_design(text).unwrap();
    assert_eq!(d.entities.len(), 1);
    assert_eq!(d.entities[0].name, "e");
}

#[test]
fn other_instructions_are_unsupported() {
    let text = "entity @e (i32$ %a) (i32$ %b) {
    %y = add i32 %a 42
}
";
    let d = parse_design(text).unwrap();
    assert!(matches!(d.entities[0].insts[0], EntityInst::Unsupported));
}

#[test]
fn named_instance_keeps_its_name() {
    let text = "entity @sub () () {
}

entity @top () () {
    %u = inst @sub () ()
}
";
    let d = parse_design(text).unwrap();
    match &d.entities[1].insts[0] {
        EntityInst::Instance { name, .. } => assert_eq!(name.as_deref(), Some("u")),
        _ => panic!("expected an instance"),
    }
}

#[test]
fn rejected_text_gives_the_parser_message() {
    let r = parse_design("this is not llhd");
    assert!(r.is_err());
    assert!(!r.unwrap_err().is_empty());
}

#[test]
fn constant_operand_has_no_name() {
    let text = "entity @e () (i8$ %b) {
    drv %b 42
}
";
    let d = parse_design(text).unwrap();
    match &d.entities[0].insts[0] {
        EntityInst::Drive { lhs, rhs } => {
            assert_eq!(lhs.as_deref(), Some("b"));
            assert_eq!(*rhs, None);
        },
        _ => panic!("expected a drive"),
    }
    let mut w = VlogWriter::new();
    assert_eq!(w.from_llhd(&d), Err(vlog::writer::ConvertError::UnnamedValue));
}

#[test]
fn entity_lookup_decides_a_value_name() {
    let name = Some(String::from("x"));
    assert_eq!(value_name(Some(name.clone()), Some(Some(String::from("m")))), name);
    assert_eq!(value_name(Some(None), Some(Some(String::from("m")))), None);
}

#[test]
fn module_lookup_names_what_the_entity_does_not_hold() {
    assert_eq!(value_name(None, Some(Some(String::from("sub")))), Some(String::from("sub")));
    assert_eq!(value_name(None, Some(None)), None);
    assert_eq!(value_name(None, None), None);
}

#[test]
fn subset_accepts_structural_entities() {
    assert!(llhd_text_check(SUB_TOP));
    assert!(llhd_text_check(""));
    assert!(llhd_text_check("; a comment\n\nentity @e (i8$ %a) () {\n    ; inside\n}\n"));
}

#[test]
fn subset_rejects_a_name_declared_twice() {
    assert!(!llhd_text_check("entity @e (i8$ %a) (i8$ %a) {\n}\n"));
    assert!(!llhd_text_check("entity @e () () {\n}\nentity @e () () {\n}\n"));
    assert!(!llhd_text_check("entity @e (i8$ %a) () {\n    %a = sig i8\n}\n"));
}

#[test]
fn subset_rejects_a_name_used_before_it_is_declared() {
    assert!(!llhd_text_check("entity @e (i8$ %a) () {\n    drv %a %b\n}\n"));
    assert!(!llhd_text_check("entity @top () () {\n    inst @sub () ()\n}\nentity @sub () () {\n}\n"));
}

#[test]
fn subset_rejects_wide_integer_types() {
    assert!(llhd_text_check("entity @e (i123456789$ %a) () {\n}\n"));
    assert!(!llhd_text_check("entity @e (i99999999999999999999999$ %a) () {\n}\n"));
}

#[test]
fn subset_rejects_too_many_operands_and_wrong_targets() {
    let sub = "entity @sub (i1$ %a) () {\n}\n";
    assert!(llhd_text_check(&format!("{}entity @top (i1$ %x) () {{\n    inst @sub (%x) ()\n}}\n", sub)));
    assert!(!llhd_text_check(&format!("{}entity @top (i1$ %x) () {{\n    inst @sub (%x, %x) ()\n}}\n", sub)));
    assert!(!llhd_text_check("proc @p () () {\n}\nentity @top () () {\n    inst @p () ()\n}\n"));
}

#[test]
fn subset_rejects_driving_what_is_not_a_signal() {
    assert!(!llhd_text_check("entity @e (i8 %a) () {\n    drv %a 1\n}\n"));
}

#[test]
fn text_outside_the_subset_is_refused_before_parsing() {
    let r = parse_design("entity @e (i8$ %a) (i8$ %a) {\n}\n");
    assert!(r.is_err());
}
