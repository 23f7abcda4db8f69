# vlog

Converts structural LLHD designs into structural Verilog.

- `src/design.rs`: the plain description of an LLHD design that the
  conversion reads.
- `src/llhd_text.rs`: the structural subset of LLHD assembly that is read,
  and a verified check of it.
- `src/llhd_input.rs`: reads LLHD assembly with the `llhd` crate and
  describes it as a design.
- `src/module.rs`: the Verilog model (modules, wires, ports, assignments,
  instances).
- `src/semantics.rs`, `src/text.rs`: what conversion and Verilog text mean,
  as specifications over plain values.
- `src/writer.rs`: the conversion and the Verilog text, verified against
  those specifications.
- `src/entity_lemmas.rs`, `src/laws.rs`: the proofs behind the conversion
  and properties that span several operations.
- `app/main.rs`: the command-line tool `in-file.llhd [out-file.v]`.
