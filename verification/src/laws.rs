use vstd::prelude::*;

use crate::caps::spec_cfg_gate;
use crate::ident::{sanitized, spec_visibility};
use crate::library::{
    spec_mod_contents, spec_output_units, spec_reexport, spec_unit_name, LibraryView,
};
use crate::stmt::{spec_stmt_in_unit, StatementView};
use crate::text::{lemma_lex_lt_irreflexive, lemma_sorted_by_key_unique};
use crate::file::FileView;

verus! {

/// Determinism: two libraries holding the same files — in whatever order
/// they arrived from the front end — under the same link name and linkage
/// style render byte-identical output units and aggregator. The internal
/// sort by sanitized identity makes the layout canonical.
pub proof fn lemma_assembly_deterministic(a: LibraryView, b: LibraryView)
    requires
        a.wf(),
        b.wf(),
        a.files.to_set() == b.files.to_set(),
        a.link_name == b.link_name,
        a.linkage_style == b.linkage_style,
    ensures
        spec_mod_contents(a) == spec_mod_contents(b),
        spec_output_units(a) == spec_output_units(b),
{
    lemma_sorted_by_key_unique(a.files, b.files, |f: FileView| sanitized(f.identity));
    assert(a == b);
}

/// Gate consistency: the re-export of a statement in the aggregator stands
/// behind exactly that gate which stands over the statement's own rendering in
/// its owning unit — both are derived from the one stored capability set.
pub proof fn lemma_gate_consistency(s: StatementView, identity: Seq<char>)
    requires
        s.exported_symbol is Some,
    ensures
        spec_stmt_in_unit(s).take(spec_cfg_gate(s.required_capabilities).len() as int)
            == spec_cfg_gate(s.required_capabilities),
        spec_reexport(s, identity).take(spec_cfg_gate(s.required_capabilities).len() as int)
            == spec_cfg_gate(s.required_capabilities),
{
    let gate = spec_cfg_gate(s.required_capabilities);
    assert(spec_stmt_in_unit(s).take(gate.len() as int) =~= gate);
    assert(spec_reexport(s, identity).take(gate.len() as int) =~= gate);
}

/// Visibility rule: a symbol name beginning with the reserved marker `_`
/// re-exports with package-internal visibility; every other name re-exports
/// publicly.
pub proof fn lemma_visibility_rule(name: Seq<char>)
    ensures
        name.len() > 0 && name[0] == '_' ==> spec_visibility(name) == "pub(crate)"@,
        !(name.len() > 0 && name[0] == '_') ==> spec_visibility(name) == "pub"@,
{
}

/// The sanitized module identifiers of a library's files, in layout order.
pub open spec fn spec_module_ids(files: Seq<FileView>) -> Seq<Seq<char>> {
    files.map_values(|f: FileView| sanitized(f.identity))
}

/// Completeness: after a successful run, every file identity in the package
/// map has exactly one module declaration (the ids are distinct, one per
/// file) and exactly one output unit under the matching name, and every
/// re-export's owning file resolves to a declared module.
pub proof fn lemma_completeness(lv: LibraryView)
    requires
        lv.wf(),
        lv.consistent(),
    ensures
        spec_module_ids(lv.files).no_duplicates(),
        spec_output_units(lv).len() == lv.files.len() + 1,
        forall|k: int|
            0 <= k < lv.files.len() ==> (#[trigger] spec_output_units(lv)[k]).name
                == spec_module_ids(lv.files)[k] + ".rs"@,
        forall|k1: int, k2: int|
            0 <= k1 < k2 < lv.files.len() ==> (#[trigger] spec_output_units(lv)[k1]).name != (
            #[trigger] spec_output_units(lv)[k2]).name,
        forall|i: int, j: int|
            0 <= i < lv.files.len() && 0 <= j < lv.files[i].stmts.len() && (#[trigger] lv.files[
                i
            ].stmts[j]).exported_symbol is Some ==> spec_module_ids(lv.files).contains(
                sanitized(lv.files[i].stmts[j].owning_file),
            ),
{
    let ids = spec_module_ids(lv.files);
    assert forall|p: int, q: int| 0 <= p < q < ids.len() implies ids[p] != ids[q] by {
        if ids[p] == ids[q] {
            lemma_lex_lt_irreflexive(sanitized(lv.files[p].identity));
        }
    }
    assert forall|k: int| 0 <= k < lv.files.len() implies (#[trigger] spec_output_units(
        lv,
    )[k]).name == spec_module_ids(lv.files)[k] + ".rs"@ by {
        assert(spec_output_units(lv)[k].name == spec_unit_name(lv.files[k].identity));
    }
    assert forall|k1: int, k2: int| 0 <= k1 < k2 < lv.files.len() implies (
    #[trigger] spec_output_units(lv)[k1]).name != (#[trigger] spec_output_units(lv)[k2]).name by {
        let a = ids[k1];
        let b = ids[k2];
        assert(spec_output_units(lv)[k1].name == a + ".rs"@);
        assert(spec_output_units(lv)[k2].name == b + ".rs"@);
        if a + ".rs"@ == b + ".rs"@ {
            assert(a.len() == b.len());
            assert(a =~= b) by {
                assert(forall|m: int| 0 <= m < a.len() ==> a[m] == (a + ".rs"@)[m]);
                assert(forall|m: int| 0 <= m < b.len() ==> b[m] == (b + ".rs"@)[m]);
            }
            assert(false);
        }
    }
    assert forall|i: int, j: int|
        0 <= i < lv.files.len() && 0 <= j < lv.files[i].stmts.len() && (#[trigger] lv.files[
            i
        ].stmts[j]).exported_symbol is Some implies spec_module_ids(lv.files).contains(
        sanitized(lv.files[i].stmts[j].owning_file),
    ) by {
        assert(lv.files[i].stmts[j].owning_file == lv.files[i].identity);
        assert(ids[i] == sanitized(lv.files[i].identity));
    }
}

} // verus!
