//! The Verilog text of modules, stated over plain values.
use crate::module::{Instance, Module};
use vstd::prelude::*;

verus! {

/// The items of `items` separated by `sep`.
pub open spec fn join(items: Seq<Seq<char>>, sep: Seq<char>) -> Seq<char>
    decreases items.len(),
{
    if items.len() == 0 {
        Seq::empty()
    } else if items.len() == 1 {
        items[0]
    } else {
        join(items.drop_last(), sep) + sep + items.last()
    }
}

/// The items of `items`, one after the other.
pub open spec fn concat(items: Seq<Seq<char>>) -> Seq<char>
    decreases items.len(),
{
    if items.len() == 0 {
        Seq::empty()
    } else {
        concat(items.drop_last()) + items.last()
    }
}

/// The port list of `m`: one line `    name` per port, separated by commas,
/// and a line break after the last.
pub open spec fn ports_text(m: Module) -> Seq<char> {
    join(Seq::new(m.ports@.len(), |j: int| "    "@ + m.port_name(j)), ",\n"@) + "\n"@
}

/// The declaration `  wire name;` of each wire of `m`.
pub open spec fn wires_text(m: Module) -> Seq<char> {
    concat(Seq::new(m.wires@.len(), |j: int| "  wire "@ + m.wires@[j].name@ + ";\n"@))
}

/// The connection `    .port ( wire )` of the `q`-th connection of `i`, an
/// instance of the module `im` inside the module `m`.
pub open spec fn connection_text(im: Module, m: Module, i: Instance, q: int) -> Seq<char> {
    "    ."@ + im.port_name(i.port_assigns@[q].lhs.id as int) + " ( "@ + m.wire_name(
        i.port_assigns@[q].rhs,
    ) + " )"@
}

/// The text of the instance `i` inside the module `m`, among the modules
/// `mods`: `  module name (`, its connections separated by commas, and
/// `  );`.
pub open spec fn instance_text(mods: Seq<Module>, m: Module, i: Instance) -> Seq<char> {
    let im = mods[i.module.id as int];
    "  "@ + im.name@ + " "@ + i.inst_name@ + " (\n"@ + join(
        Seq::new(i.port_assigns@.len(), |q: int| connection_text(im, m, i, q)),
        ",\n"@,
    ) + "\n"@ + "  );\n"@
}

/// The text of the instances of `m`.
pub open spec fn instances_text(mods: Seq<Module>, m: Module) -> Seq<char> {
    concat(Seq::new(m.instances@.len(), |j: int| instance_text(mods, m, m.instances@[j])))
}

/// The statement `  assign lhs = rhs;` of each assignment of `m`.
pub open spec fn assigns_text(m: Module) -> Seq<char> {
    concat(
        Seq::new(
            m.assigns@.len(),
            |j: int|
                "  assign "@ + m.wire_name(m.assigns@[j].lhs) + " = "@ + m.wire_name(
                    m.assigns@[j].rhs,
                ) + ";\n"@,
        ),
    )
}

/// The header of `m`: `module name(` with its port list and `  );` where it
/// has ports, `module name;` where it has none.
pub open spec fn header_text(m: Module) -> Seq<char> {
    if m.ports@.len() > 0 {
        "module "@ + m.name@ + "(\n"@ + ports_text(m) + "  );\n"@
    } else {
        "module "@ + m.name@ + ";\n"@
    }
}

/// The text of the module `m` among the modules `mods`: its header, its
/// wires, its instances and its assignments, each part followed by an
/// empty line, and `endmodule`.
pub open spec fn module_text(mods: Seq<Module>, m: Module) -> Seq<char> {
    header_text(m) + "\n"@ + wires_text(m) + "\n"@ + instances_text(mods, m) + "\n"@
        + assigns_text(m) + "endmodule\n\n"@
}

/// The first line of every file written.
pub open spec fn file_header() -> Seq<char> {
    "// This file was generated by llhd-objcopy\n\n"@
}

/// The Verilog file of the modules `mods`: the header line, an empty line,
/// and the text of each module in order.
pub open spec fn file_text(mods: Seq<Module>) -> Seq<char> {
    file_header() + concat(Seq::new(mods.len(), |i: int| module_text(mods, mods[i])))
}

} // verus!
