use vstd::prelude::*;
use vstd::string::*;

use crate::caps::spec_cfg_gate;
use crate::file::{lemma_file_contents_push, spec_file_contents, BindingFile, FileView};
use crate::ident::{clean_file_name, sanitized, spec_visibility, visibility_for};
use crate::stmt::StatementView;
use crate::text::{
    lex_lt, lemma_insert_to_set, lemma_lex_lt_connected, lemma_lex_lt_irreflexive,
    lemma_lex_lt_transitive, str_lt,
};

verus! {

/// How the linkage directive is emitted: gated per platform (one form for
/// the native platform, one for the compatibility runtime), or a single
/// unconditional directive.
#[derive(Clone, Copy, PartialEq, Eq, Structural, Debug)]
pub enum LinkageStyle {
    PlatformConditional,
    Unconditional,
}

/// Per-package metadata supplied by configuration, loaded outside this stage.
#[derive(Clone, Copy, PartialEq, Eq, Structural, Debug)]
pub struct LibraryData {
    pub linkage_style: LinkageStyle,
}

/// An input-consistency defect found before any output is produced; the
/// indices identify the offending statement.
#[derive(Clone, Copy, PartialEq, Eq, Structural, Debug)]
pub enum AssemblyError {
    /// The statement's owning file is not the file it is grouped under.
    OwningFileMismatch { file_index: usize, stmt_index: usize },
    /// The statement's exported symbol names a different owning file than
    /// the statement itself.
    SymbolOwnerMismatch { file_index: usize, stmt_index: usize },
}

/// One rendered output unit: the file name it is written under (relative to
/// the package's output directory) and its full fresh contents.
pub struct OutputUnit {
    pub name: String,
    pub contents: String,
}

pub ghost struct OutputUnitView {
    pub name: Seq<char>,
    pub contents: Seq<char>,
}

impl View for OutputUnit {
    type V = OutputUnitView;

    open spec fn view(&self) -> OutputUnitView {
        OutputUnitView { name: self.name@, contents: self.contents@ }
    }
}

/// The module assembler: a mapping from file identity to file, kept sorted
/// by sanitized identity, plus the package metadata needed for linkage.
pub struct Library {
    files: Vec<BindingFile>,
    link_name: String,
    data: LibraryData,
}

pub ghost struct LibraryView {
    pub files: Seq<FileView>,
    pub link_name: Seq<char>,
    pub linkage_style: LinkageStyle,
}

impl View for Library {
    type V = LibraryView;

    closed spec fn view(&self) -> LibraryView {
        LibraryView {
            files: self.files@.map_values(|f: BindingFile| f@),
            link_name: self.link_name@,
            linkage_style: self.data.linkage_style,
        }
    }
}

impl LibraryView {
    /// The files stand in strictly ascending order of sanitized identity:
    /// unique keys, one canonical layout.
    pub open spec fn wf(self) -> bool {
        forall|i: int, j: int|
            0 <= i < j < self.files.len() ==> lex_lt(
                sanitized(self.files[i].identity),
                sanitized(self.files[j].identity),
            )
    }

    /// Every statement is attributed to the file it is grouped under, and
    /// every exported symbol to its own statement's file.
    pub open spec fn consistent(self) -> bool {
        forall|i: int, j: int|
            0 <= i < self.files.len() && 0 <= j < self.files[i].stmts.len() ==> {
                &&& (#[trigger] self.files[i].stmts[j]).owning_file == self.files[i].identity
                &&& self.files[i].stmts[j].consistent()
            }
    }
}

/// The fixed text that opens the aggregator, around the link name: the
/// provenance banner, the crate-level doc line, and the lint suppressions
/// appropriate to generated code.
pub open spec fn spec_header(link_name: Seq<char>) -> Seq<char> {
    "// This file has been automatically generated by `objc2`'s `header-translator`.\n// DO NOT EDIT\n\n//! # Bindings to the `"@
        + link_name
        + "` framework\n#![allow(unused_imports)]\n#![allow(deprecated)]\n#![allow(non_snake_case)]\n#![allow(non_camel_case_types)]\n#![allow(non_upper_case_globals)]\n#![allow(missing_docs)]\n#![allow(clippy::too_many_arguments)]\n#![allow(clippy::type_complexity)]\n#![allow(clippy::upper_case_acronyms)]\n#![allow(clippy::identity_op)]\n#![allow(clippy::missing_safety_doc)]\n\n"@
}

/// The linkage directives and the empty linkage scope that anchors them.
pub open spec fn spec_link_section(link_name: Seq<char>, style: LinkageStyle) -> Seq<char> {
    match style {
        LinkageStyle::PlatformConditional => "#[cfg_attr(feature = \"apple\", link(name = \""@
            + link_name + "\", kind = \"framework\"))]\n#[cfg_attr(feature = \"gnustep-1-7\", link(name = \""@
            + link_name + "\", kind = \"dylib\"))]\nextern \"C\" {}\n\n"@,
        LinkageStyle::Unconditional => "#[link(name = \""@ + link_name
            + "\", kind = \"framework\")]\nextern \"C\" {}\n\n"@,
    }
}

/// The module declaration binding one sanitized file identity to its unit's
/// path. The sanitizer is applied both in the path attribute and in the
/// module name: partial application would break compilation.
pub open spec fn spec_module_decl(identity: Seq<char>) -> Seq<char> {
    "#[path = \""@ + sanitized(identity) + ".rs\"]\nmod __"@ + sanitized(identity) + ";\n"@
}

pub open spec fn spec_decl_section(files: Seq<FileView>) -> Seq<char>
    decreases files.len(),
{
    if files.len() == 0 {
        Seq::empty()
    } else {
        spec_module_decl(files[0].identity) + spec_decl_section(files.skip(1))
    }
}

pub proof fn lemma_decl_section_push(files: Seq<FileView>, x: FileView)
    ensures
        spec_decl_section(files.push(x)) == spec_decl_section(files) + spec_module_decl(x.identity),
    decreases files.len(),
{
    let p = files.push(x);
    if files.len() == 0 {
        assert(p[0] == x);
        assert(p.skip(1) =~= Seq::<FileView>::empty());
        assert(spec_decl_section(p.skip(1)) =~= Seq::<char>::empty());
        assert(spec_decl_section(files) =~= Seq::<char>::empty());
        assert(spec_decl_section(p) =~= spec_decl_section(files) + spec_module_decl(x.identity));
    } else {
        assert(p[0] == files[0]);
        assert(p.skip(1) =~= files.skip(1).push(x));
        lemma_decl_section_push(files.skip(1), x);
        assert(spec_decl_section(p) == spec_module_decl(p[0].identity) + spec_decl_section(
            p.skip(1),
        ));
        assert(spec_decl_section(p) =~= spec_decl_section(files) + spec_module_decl(x.identity));
    }
}

/// The re-export line of one statement in the aggregator: its capability
/// gate — the same gate that stands over its declaration in its owning unit
/// — then the derived visibility, then the re-export from the owning
/// sub-module. A statement without an exported symbol contributes nothing.
pub open spec fn spec_reexport(s: StatementView, identity: Seq<char>) -> Seq<char> {
    match s.exported_symbol {
        Some(e) => spec_cfg_gate(s.required_capabilities) + spec_visibility(e.name)
            + " use self::__"@ + sanitized(identity) + "::{"@ + e.name + "};"@,
        None => Seq::empty(),
    }
}

pub open spec fn spec_file_reexports(stmts: Seq<StatementView>, identity: Seq<char>) -> Seq<char>
    decreases stmts.len(),
{
    if stmts.len() == 0 {
        Seq::empty()
    } else {
        spec_reexport(stmts[0], identity) + spec_file_reexports(stmts.skip(1), identity)
    }
}

pub proof fn lemma_file_reexports_push(stmts: Seq<StatementView>, x: StatementView, id: Seq<char>)
    ensures
        spec_file_reexports(stmts.push(x), id) == spec_file_reexports(stmts, id) + spec_reexport(
            x,
            id,
        ),
    decreases stmts.len(),
{
    let p = stmts.push(x);
    if stmts.len() == 0 {
        assert(p[0] == x);
        assert(p.skip(1) =~= Seq::<StatementView>::empty());
        assert(spec_file_reexports(p.skip(1), id) =~= Seq::<char>::empty());
        assert(spec_file_reexports(stmts, id) =~= Seq::<char>::empty());
        assert(spec_file_reexports(p, id) =~= spec_file_reexports(stmts, id) + spec_reexport(
            x,
            id,
        ));
    } else {
        assert(p[0] == stmts[0]);
        assert(p.skip(1) =~= stmts.skip(1).push(x));
        lemma_file_reexports_push(stmts.skip(1), x, id);
        assert(spec_file_reexports(p, id) == spec_reexport(p[0], id) + spec_file_reexports(
            p.skip(1),
            id,
        ));
        assert(spec_file_reexports(p, id) =~= spec_file_reexports(stmts, id) + spec_reexport(
            x,
            id,
        ));
    }
}

pub open spec fn spec_reexport_section(files: Seq<FileView>) -> Seq<char>
    decreases files.len(),
{
    if files.len() == 0 {
        Seq::empty()
    } else {
        spec_file_reexports(files[0].stmts, files[0].identity) + spec_reexport_section(
            files.skip(1),
        )
    }
}

pub proof fn lemma_reexport_section_push(files: Seq<FileView>, x: FileView)
    ensures
        spec_reexport_section(files.push(x)) == spec_reexport_section(files)
            + spec_file_reexports(x.stmts, x.identity),
    decreases files.len(),
{
    let p = files.push(x);
    if files.len() == 0 {
        assert(p[0] == x);
        assert(p.skip(1) =~= Seq::<FileView>::empty());
        assert(spec_reexport_section(p.skip(1)) =~= Seq::<char>::empty());
        assert(spec_reexport_section(files) =~= Seq::<char>::empty());
        assert(spec_reexport_section(p) =~= spec_reexport_section(files) + spec_file_reexports(
            x.stmts,
            x.identity,
        ));
    } else {
        assert(p[0] == files[0]);
        assert(p.skip(1) =~= files.skip(1).push(x));
        lemma_reexport_section_push(files.skip(1), x);
        assert(spec_reexport_section(p) == spec_file_reexports(p[0].stmts, p[0].identity)
            + spec_reexport_section(p.skip(1)));
        assert(spec_reexport_section(p) =~= spec_reexport_section(files) + spec_file_reexports(
            x.stmts,
            x.identity,
        ));
    }
}

/// The whole aggregator unit, in fixed order: banner and lints, linkage,
/// sorted module declarations, then capability-gated re-exports in
/// file-then-declaration order.
pub open spec fn spec_mod_contents(lv: LibraryView) -> Seq<char> {
    spec_header(lv.link_name) + spec_link_section(lv.link_name, lv.linkage_style)
        + spec_decl_section(lv.files) + "\n"@ + spec_reexport_section(lv.files)
}

/// The name under which one file's unit is written.
pub open spec fn spec_unit_name(identity: Seq<char>) -> Seq<char> {
    sanitized(identity) + ".rs"@
}

pub open spec fn spec_file_unit(f: FileView) -> OutputUnitView {
    OutputUnitView { name: spec_unit_name(f.identity), contents: spec_file_contents(f.stmts) }
}

pub open spec fn spec_mod_unit(lv: LibraryView) -> OutputUnitView {
    OutputUnitView { name: "mod.rs"@, contents: spec_mod_contents(lv) }
}

/// Every output unit of one run: one per file, in sorted identity order,
/// then the aggregator under its fixed, package-reserved name.
pub open spec fn spec_output_units(lv: LibraryView) -> Seq<OutputUnitView> {
    lv.files.map_values(|f: FileView| spec_file_unit(f)).push(spec_mod_unit(lv))
}

impl Library {
    pub fn new(name: &str, data: &LibraryData) -> (r: Library)
        ensures
            r@.files == Seq::<FileView>::empty(),
            r@.link_name == name@,
            r@.linkage_style == data.linkage_style,
            r@.wf(),
    {
        let r = Library { files: Vec::new(), link_name: name.to_owned(), data: *data };
        proof {
            assert(r@.files =~= Seq::<FileView>::empty());
        }
        r
    }

    /// Adds one file under its sanitized identity. A file whose sanitized
    /// identity is already present replaces the earlier one — a sanitization
    /// collision between distinct identities is an input-data error that
    /// this stage does not detect.
    pub fn add_file(&mut self, file: BindingFile)
        requires
            old(self)@.wf(),
        ensures
            final(self)@.wf(),
            final(self)@.link_name == old(self)@.link_name,
            final(self)@.linkage_style == old(self)@.linkage_style,
            final(self)@.files.to_set() == old(self)@.files.to_set().filter(
                |f: FileView| sanitized(f.identity) != sanitized(file@.identity),
            ).insert(file@),
    {
        let ghost olds = self@.files;
        let ghost key = sanitized(file@.identity);
        let clean = clean_file_name(file.identity.as_str());
        let n = self.files.len();
        let mut i: usize = 0;
        while i < n && str_lt(clean_file_name(self.files[i].identity.as_str()).as_str(),
            clean.as_str(),
        )
            invariant
                i <= n,
                n == self.files.len(),
                self@.files == olds,
                clean@ == key,
                forall|j: int| 0 <= j < i ==> lex_lt(sanitized(olds[j].identity), key),
            decreases n - i,
        {
            proof {
                assert(self@.files[i as int].identity == self.files@[i as int]@.identity);
            }
            i = i + 1;
        }
        proof {
            assert forall|j: int| 0 <= j < olds.len() && j != i implies sanitized(olds[j].identity)
                != key by {
                if j < i {
                    lemma_lex_lt_irreflexive(key);
                } else {
                    assert(i < olds.len());
                    assert(!lex_lt(sanitized(olds[i as int].identity), key));
                    if sanitized(olds[j].identity) == key {
                        if j > i {
                            assert(lex_lt(
                                sanitized(olds[i as int].identity),
                                sanitized(olds[j].identity),
                            ));
                            assert(false);
                        }
                    }
                }
            }
        }
        if i < n && clean_file_name(self.files[i].identity.as_str()) == clean {
            proof {
                assert(sanitized(olds[i as int].identity) == key);
            }
            self.files.remove(i);
            proof {
                assert(self@.files =~= olds.remove(i as int));
                lemma_removed_distinct_key_to_set(olds, i as int, key);
            }
            self.files.insert(i, file);
            proof {
                let mid = olds.remove(i as int);
                assert(self@.files =~= mid.insert(i as int, file@));
                lemma_insert_to_set(mid, i as int, file@);
                assert(self@.files.to_set() =~= olds.to_set().filter(
                    |f: FileView| sanitized(f.identity) != key,
                ).insert(file@));
                assert forall|p: int, q: int| 0 <= p < q < self@.files.len() implies lex_lt(
                    sanitized(self@.files[p].identity),
                    sanitized(self@.files[q].identity),
                ) by {
                    let s = self@.files;
                    assert(forall|k: int|
                        0 <= k < s.len() && k != i ==> s[k] == olds[k] && sanitized(s[k].identity)
                            == sanitized(olds[k].identity));
                    assert(sanitized(s[i as int].identity) == key);
                }
            }
        } else {
            proof {
                if i < olds.len() {
                    assert(sanitized(olds[i as int].identity) != key);
                    assert(!lex_lt(sanitized(olds[i as int].identity), key));
                    if !lex_lt(key, sanitized(olds[i as int].identity)) {
                        lemma_lex_lt_connected(sanitized(olds[i as int].identity), key);
                        assert(false);
                    }
                    assert forall|j: int| i <= j < olds.len() implies lex_lt(
                        key,
                        sanitized(olds[j].identity),
                    ) by {
                        if j > i {
                            lemma_lex_lt_transitive(
                                key,
                                sanitized(olds[i as int].identity),
                                sanitized(olds[j].identity),
                            );
                        }
                    }
                }
            }
            self.files.insert(i, file);
            proof {
                assert(self@.files =~= olds.insert(i as int, file@));
                lemma_insert_to_set(olds, i as int, file@);
                assert(olds.to_set().filter(|f: FileView| sanitized(f.identity) != key)
                    =~= olds.to_set());
                assert(self@.files.to_set() =~= olds.to_set().filter(
                    |f: FileView| sanitized(f.identity) != key,
                ).insert(file@));
                assert forall|p: int, q: int| 0 <= p < q < self@.files.len() implies lex_lt(
                    sanitized(self@.files[p].identity),
                    sanitized(self@.files[q].identity),
                ) by {
                    let s = self@.files;
                    if q < i {
                        assert(s[p] == olds[p] && s[q] == olds[q]);
                    } else if p > i {
                        assert(s[p] == olds[p - 1] && s[q] == olds[q - 1]);
                    } else if p < i && q == i {
                        assert(s[p] == olds[p]);
                    } else if p < i && q > i {
                        assert(s[p] == olds[p] && s[q] == olds[q - 1]);
                    } else if p == i {
                        assert(s[q] == olds[q - 1]);
                    }
                }
            }
        }
    }

    pub fn link_name(&self) -> (r: &str)
        ensures
            r@ == self@.link_name,
    {
        self.link_name.as_str()
    }

    pub fn file_count(&self) -> (r: usize)
        ensures
            r == self@.files.len(),
    {
        self.files.len()
    }

    /// The explicit validation pass: checks every statement's owning-file
    /// attribution before any output is produced, and reports the first
    /// offending statement. Returns `Ok` exactly on consistent input.
    pub fn validate(&self) -> (r: Result<(), AssemblyError>)
        ensures
            r is Ok <==> self@.consistent(),
            r matches Err(AssemblyError::OwningFileMismatch { file_index, stmt_index })
                ==> file_index < self@.files.len() && stmt_index
                < self@.files[file_index as int].stmts.len()
                && self@.files[file_index as int].stmts[stmt_index as int].owning_file
                != self@.files[file_index as int].identity,
            r matches Err(AssemblyError::SymbolOwnerMismatch { file_index, stmt_index })
                ==> file_index < self@.files.len() && stmt_index
                < self@.files[file_index as int].stmts.len() && !self@.files[
                file_index as int
            ].stmts[stmt_index as int].consistent(),
    {
        let mut i: usize = 0;
        while i < self.files.len()
            invariant
                i <= self.files.len(),
                self@.files.len() == self.files.len(),
                forall|p: int, q: int|
                    0 <= p < i && 0 <= q < self@.files[p].stmts.len() ==> {
                        &&& (#[trigger] self@.files[p].stmts[q]).owning_file
                            == self@.files[p].identity
                        &&& self@.files[p].stmts[q].consistent()
                    },
            decreases self.files.len() - i,
        {
            let file = &self.files[i];
            let mut j: usize = 0;
            while j < file.stmts.len()
                invariant
                    j <= file.stmts.len(),
                    self@.files.len() == self.files.len(),
                    i < self.files.len(),
                    file == &self.files[i as int],
                    file@ == self@.files[i as int],
                    forall|q: int|
                        0 <= q < j ==> {
                            &&& (#[trigger] self@.files[i as int].stmts[q]).owning_file
                                == self@.files[i as int].identity
                            &&& self@.files[i as int].stmts[q].consistent()
                        },
                decreases file.stmts.len() - j,
            {
                let st = &file.stmts[j];
                proof {
                    assert(self@.files[i as int].stmts[j as int] == file.stmts@[j as int]@);
                }
                if !(st.owning_file == file.identity) {
                    return Err(AssemblyError::OwningFileMismatch { file_index: i, stmt_index: j });
                }
                if let Some(e) = &st.exported_symbol {
                    if !(e.owning_file == st.owning_file) {
                        return Err(
                            AssemblyError::SymbolOwnerMismatch { file_index: i, stmt_index: j },
                        );
                    }
                }
                j = j + 1;
            }
            i = i + 1;
        }
        Ok(())
    }

    /// Renders the aggregator unit.
    pub fn mod_contents(&self) -> (r: String)
        ensures
            r@ == spec_mod_contents(self@),
    {
        let mut out = String::new();
        out.append(
            "// This file has been automatically generated by `objc2`'s `header-translator`.\n// DO NOT EDIT\n\n//! # Bindings to the `",
        );
        out.append(self.link_name.as_str());
        out.append(
            "` framework\n#![allow(unused_imports)]\n#![allow(deprecated)]\n#![allow(non_snake_case)]\n#![allow(non_camel_case_types)]\n#![allow(non_upper_case_globals)]\n#![allow(missing_docs)]\n#![allow(clippy::too_many_arguments)]\n#![allow(clippy::type_complexity)]\n#![allow(clippy::upper_case_acronyms)]\n#![allow(clippy::identity_op)]\n#![allow(clippy::missing_safety_doc)]\n\n",
        );
        proof {
            assert(out@ =~= spec_header(self@.link_name));
        }
        match self.data.linkage_style {
            LinkageStyle::PlatformConditional => {
                out.append("#[cfg_attr(feature = \"apple\", link(name = \"");
                out.append(self.link_name.as_str());
                out.append("\", kind = \"framework\"))]\n#[cfg_attr(feature = \"gnustep-1-7\", link(name = \"");
                out.append(self.link_name.as_str());
                out.append("\", kind = \"dylib\"))]\nextern \"C\" {}\n\n");
            },
            LinkageStyle::Unconditional => {
                out.append("#[link(name = \"");
                out.append(self.link_name.as_str());
                out.append("\", kind = \"framework\")]\nextern \"C\" {}\n\n");
            },
        }
        proof {
            assert(out@ =~= spec_header(self@.link_name) + spec_link_section(
                self@.link_name,
                self@.linkage_style,
            ));
        }
        let ghost pre_decls = out@;
        let mut i: usize = 0;
        proof {
            assert(self@.files.take(0) =~= Seq::<FileView>::empty());
            assert(spec_decl_section(self@.files.take(0)) =~= Seq::<char>::empty());
            assert(out@ =~= pre_decls + spec_decl_section(self@.files.take(0)));
        }
        while i < self.files.len()
            invariant
                i <= self.files.len(),
                self@.files.len() == self.files.len(),
                out@ == pre_decls + spec_decl_section(self@.files.take(i as int)),
            decreases self.files.len() - i,
        {
            let clean = clean_file_name(self.files[i].identity.as_str());
            out.append("#[path = \"");
            out.append(clean.as_str());
            out.append(".rs\"]\nmod __");
            out.append(clean.as_str());
            out.append(";\n");
            proof {
                assert(self@.files[i as int] == self.files@[i as int]@);
                lemma_decl_section_push(self@.files.take(i as int), self@.files[i as int]);
                assert(self@.files.take(i + 1) =~= self@.files.take(i as int).push(
                    self@.files[i as int],
                ));
                assert(out@ =~= pre_decls + spec_decl_section(self@.files.take(i + 1)));
            }
            i = i + 1;
        }
        proof {
            assert(self@.files.take(self.files.len() as int) =~= self@.files);
        }
        out.append("\n");
        let ghost pre_uses = out@;
        let mut i: usize = 0;
        proof {
            assert(self@.files.take(0) =~= Seq::<FileView>::empty());
            assert(spec_reexport_section(self@.files.take(0)) =~= Seq::<char>::empty());
            assert(out@ =~= pre_uses + spec_reexport_section(self@.files.take(0)));
        }
        while i < self.files.len()
            invariant
                i <= self.files.len(),
                self@.files.len() == self.files.len(),
                out@ == pre_uses + spec_reexport_section(self@.files.take(i as int)),
            decreases self.files.len() - i,
        {
            let file = &self.files[i];
            let ghost fv = self@.files[i as int];
            proof {
                assert(fv == self.files@[i as int]@);
            }
            let ghost pre_file = out@;
            let mut j: usize = 0;
            proof {
                assert(fv.stmts.take(0) =~= Seq::<StatementView>::empty());
                assert(spec_file_reexports(fv.stmts.take(0), fv.identity) =~= Seq::<char>::empty());
                assert(out@ =~= pre_file + spec_file_reexports(fv.stmts.take(0), fv.identity));
            }
            while j < file.stmts.len()
                invariant
                    j <= file.stmts.len(),
                    file == &self.files[i as int],
                    i < self.files.len(),
                    self@.files.len() == self.files.len(),
                    fv == self@.files[i as int],
                    fv == self.files@[i as int]@,
                    fv.stmts.len() == file.stmts.len(),
                    out@ == pre_file + spec_file_reexports(fv.stmts.take(j as int), fv.identity),
                decreases file.stmts.len() - j,
            {
                let st = &file.stmts[j];
                proof {
                    assert(fv.stmts[j as int] == file.stmts@[j as int]@);
                }
                if let Some(e) = &st.exported_symbol {
                    let gate = st.required_capabilities.cfg_gate_ln();
                    out.append(gate.as_str());
                    out.append(visibility_for(e.name.as_str()));
                    out.append(" use self::__");
                    let clean = clean_file_name(file.identity.as_str());
                    out.append(clean.as_str());
                    out.append("::{");
                    out.append(e.name.as_str());
                    out.append("};");
                }
                proof {
                    lemma_file_reexports_push(
                        fv.stmts.take(j as int),
                        fv.stmts[j as int],
                        fv.identity,
                    );
                    assert(fv.stmts.take(j + 1) =~= fv.stmts.take(j as int).push(
                        fv.stmts[j as int],
                    ));
                    assert(out@ =~= pre_file + spec_file_reexports(
                        fv.stmts.take(j + 1),
                        fv.identity,
                    ));
                }
                j = j + 1;
            }
            proof {
                assert(fv.stmts.take(file.stmts.len() as int) =~= fv.stmts);
                lemma_reexport_section_push(self@.files.take(i as int), fv);
                assert(self@.files.take(i + 1) =~= self@.files.take(i as int).push(fv));
                assert(out@ =~= pre_uses + spec_reexport_section(self@.files.take(i + 1)));
            }
            i = i + 1;
        }
        proof {
            assert(self@.files.take(self.files.len() as int) =~= self@.files);
            assert(out@ =~= spec_mod_contents(self@));
        }
        out
    }

    /// Validates, then renders every output unit of one assembly run: one
    /// per file under its sanitized name, then the aggregator under its
    /// fixed name. On a defect, no unit at all is produced.
    pub fn output(&self) -> (r: Result<Vec<OutputUnit>, AssemblyError>)
        ensures
            r is Ok <==> self@.consistent(),
            r matches Ok(units) ==> units@.map_values(|u: OutputUnit| u@) == spec_output_units(
                self@,
            ),
            r matches Err(AssemblyError::OwningFileMismatch { file_index, stmt_index })
                ==> file_index < self@.files.len() && stmt_index
                < self@.files[file_index as int].stmts.len()
                && self@.files[file_index as int].stmts[stmt_index as int].owning_file
                != self@.files[file_index as int].identity,
            r matches Err(AssemblyError::SymbolOwnerMismatch { file_index, stmt_index })
                ==> file_index < self@.files.len() && stmt_index
                < self@.files[file_index as int].stmts.len() && !self@.files[
                file_index as int
            ].stmts[stmt_index as int].consistent(),
    {
        match self.validate() {
            Err(e) => {
                return Err(e);
            },
            Ok(()) => {},
        }
        let mut units: Vec<OutputUnit> = Vec::new();
        let mut i: usize = 0;
        while i < self.files.len()
            invariant
                i <= self.files.len(),
                self@.files.len() == self.files.len(),
                units@.len() == i,
                forall|k: int| 0 <= k < i ==> (#[trigger] units@[k])@ == spec_file_unit(
                    self@.files[k],
                ),
            decreases self.files.len() - i,
        {
            let file = &self.files[i];
            let mut name = clean_file_name(file.identity.as_str());
            name.append(".rs");
            let contents = file.contents();
            proof {
                assert(self@.files[i as int] == self.files@[i as int]@);
                assert(name@ == spec_unit_name(self@.files[i as int].identity));
                assert(contents@ == spec_file_contents(self@.files[i as int].stmts));
            }
            units.push(OutputUnit { name, contents });
            proof {
                assert(units@.last()@ == spec_file_unit(self@.files[i as int]));
            }
            i = i + 1;
        }
        let mod_name: String = "mod.rs".to_owned();
        let mod_text = self.mod_contents();
        units.push(OutputUnit { name: mod_name, contents: mod_text });
        proof {
            assert(units@.last()@ == spec_mod_unit(self@));
            assert(units@.map_values(|u: OutputUnit| u@) =~= spec_output_units(self@));
        }
        Ok(units)
    }
}

/// Removing the only element that carries a given key takes exactly that
/// element out of the member set.
proof fn lemma_removed_distinct_key_to_set(s: Seq<FileView>, i: int, key: Seq<char>)
    requires
        0 <= i < s.len(),
        sanitized(s[i].identity) == key,
        forall|j: int| 0 <= j < s.len() && j != i ==> sanitized(s[j].identity) != key,
    ensures
        s.remove(i).to_set() == s.to_set().filter(|f: FileView| sanitized(f.identity) != key),
{
    let t = s.remove(i);
    let target = s.to_set().filter(|f: FileView| sanitized(f.identity) != key);
    assert forall|y: FileView| t.to_set().contains(y) implies target.contains(y) by {
        let k = choose|k: int| 0 <= k < t.len() && t[k] == y;
        if k < i {
            assert(s[k] == y);
            assert(sanitized(y.identity) != key);
        } else {
            assert(s[k + 1] == y);
            assert(sanitized(y.identity) != key);
        }
    }
    assert forall|y: FileView| target.contains(y) implies t.to_set().contains(y) by {
        let k = choose|k: int| 0 <= k < s.len() && s[k] == y;
        assert(sanitized(y.identity) != key);
        assert(k != i);
        if k < i {
            assert(t[k] == y);
        } else {
            assert(t[k - 1] == y);
        }
    }
    assert(t.to_set() =~= target);
}

} // verus!
