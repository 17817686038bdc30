use vstd::prelude::*;

use crate::caps::{spec_cfg_gate, CapabilitySet};

verus! {

/// The nameable output symbol a declaration introduces, tagged with the
/// identity of the file the declaration came from.
pub struct ExportedItem {
    pub name: String,
    pub owning_file: String,
}

pub ghost struct ExportedItemView {
    pub name: Seq<char>,
    pub owning_file: Seq<char>,
}

impl View for ExportedItem {
    type V = ExportedItemView;

    open spec fn view(&self) -> ExportedItemView {
        ExportedItemView { name: self.name@, owning_file: self.owning_file@ }
    }
}

/// One translated declaration, immutable once the front end has produced it:
/// the identity of the header file it came from, the capability flags it
/// needs in order to compile, the output symbol it introduces (absent for
/// side-effect-only declarations), and its textual form, already produced by
/// the rendering collaborator and consumed verbatim here.
pub struct Statement {
    pub owning_file: String,
    pub required_capabilities: CapabilitySet,
    pub exported_symbol: Option<ExportedItem>,
    pub rendered: String,
}

pub ghost struct StatementView {
    pub owning_file: Seq<char>,
    pub required_capabilities: Seq<Seq<char>>,
    pub exported_symbol: Option<ExportedItemView>,
    pub rendered: Seq<char>,
}

impl View for Statement {
    type V = StatementView;

    open spec fn view(&self) -> StatementView {
        StatementView {
            owning_file: self.owning_file@,
            required_capabilities: self.required_capabilities@,
            exported_symbol: match self.exported_symbol {
                Some(ref e) => Some(e@),
                None => None,
            },
            rendered: self.rendered@,
        }
    }
}

impl StatementView {
    /// A statement that exports a symbol must attribute it to its own file;
    /// anything else is a defect in the front end's data.
    pub open spec fn consistent(self) -> bool {
        match self.exported_symbol {
            Some(e) => e.owning_file == self.owning_file,
            None => true,
        }
    }
}

/// How one statement stands in its own output unit: its capability gate,
/// then its rendered text, verbatim.
pub open spec fn spec_stmt_in_unit(s: StatementView) -> Seq<char> {
    spec_cfg_gate(s.required_capabilities) + s.rendered
}

} // verus!
