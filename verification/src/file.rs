use vstd::prelude::*;
use vstd::string::*;

use crate::stmt::{spec_stmt_in_unit, Statement, StatementView};

verus! {

/// The ordered group of statements that one input header turned into.
/// The order is the header's declaration order and is preserved verbatim.
pub struct BindingFile {
    pub identity: String,
    pub stmts: Vec<Statement>,
}

pub ghost struct FileView {
    pub identity: Seq<char>,
    pub stmts: Seq<StatementView>,
}

impl View for BindingFile {
    type V = FileView;

    open spec fn view(&self) -> FileView {
        FileView { identity: self.identity@, stmts: self.stmts@.map_values(|s: Statement| s@) }
    }
}

/// The full text of one per-file output unit: every statement in preserved
/// order, each under its own capability gate.
pub open spec fn spec_file_contents(stmts: Seq<StatementView>) -> Seq<char>
    decreases stmts.len(),
{
    if stmts.len() == 0 {
        Seq::empty()
    } else {
        spec_stmt_in_unit(stmts[0]) + spec_file_contents(stmts.skip(1))
    }
}

pub proof fn lemma_file_contents_push(stmts: Seq<StatementView>, x: StatementView)
    ensures
        spec_file_contents(stmts.push(x)) == spec_file_contents(stmts) + spec_stmt_in_unit(x),
    decreases stmts.len(),
{
    let p = stmts.push(x);
    if stmts.len() == 0 {
        assert(p[0] == x);
        assert(p.skip(1) =~= Seq::<StatementView>::empty());
        assert(spec_file_contents(p.skip(1)) =~= Seq::<char>::empty());
        assert(spec_file_contents(stmts) =~= Seq::<char>::empty());
        assert(spec_file_contents(p) =~= spec_file_contents(stmts) + spec_stmt_in_unit(x));
    } else {
        assert(p[0] == stmts[0]);
        assert(p.skip(1) =~= stmts.skip(1).push(x));
        lemma_file_contents_push(stmts.skip(1), x);
        assert(spec_file_contents(p) == spec_stmt_in_unit(p[0]) + spec_file_contents(p.skip(1)));
        assert(spec_file_contents(p) =~= spec_file_contents(stmts) + spec_stmt_in_unit(x));
    }
}

impl BindingFile {
    /// Renders this file's self-contained output unit: the statements'
    /// rendered texts in declaration order, each behind its own gate.
    pub fn contents(&self) -> (r: String)
        ensures
            r@ == spec_file_contents(self@.stmts),
    {
        let mut out = String::new();
        let mut i: usize = 0;
        proof {
            assert(self@.stmts.take(0) =~= Seq::<StatementView>::empty());
            assert(spec_file_contents(self@.stmts.take(0)) =~= Seq::<char>::empty());
        }
        while i < self.stmts.len()
            invariant
                i <= self.stmts.len(),
                self@.stmts.len() == self.stmts.len(),
                self@.stmts == self.stmts@.map_values(|s: Statement| s@),
                out@ == spec_file_contents(self@.stmts.take(i as int)),
            decreases self.stmts.len() - i,
        {
            let st = &self.stmts[i];
            let gate = st.required_capabilities.cfg_gate_ln();
            out.append(gate.as_str());
            out.append(st.rendered.as_str());
            proof {
                assert(self@.stmts[i as int] == self.stmts@[i as int]@);
                lemma_file_contents_push(self@.stmts.take(i as int), self@.stmts[i as int]);
                assert(self@.stmts.take(i + 1) =~= self@.stmts.take(i as int).push(
                    self@.stmts[i as int],
                ));
            }
            i = i + 1;
        }
        proof {
            assert(self@.stmts.take(self.stmts.len() as int) =~= self@.stmts);
        }
        out
    }
}

} // verus!
