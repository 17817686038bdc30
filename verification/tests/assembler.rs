use header_translator::caps::CapabilitySet;
use header_translator::file::BindingFile;
use header_translator::ident::{clean_file_name, visibility_for};
use header_translator::library::{
    AssemblyError, Library, LibraryData, LinkageStyle, OutputUnit,
};
use header_translator::stmt::{ExportedItem, Statement};
use header_translator::text::str_lt;

fn caps(flags: &[&str]) -> CapabilitySet {
    CapabilitySet::from_flags(flags.iter().map(|f| f.to_string()).collect())
}

fn stmt(owner: &str, flags: &[&str], symbol: Option<&str>, rendered: &str) -> Statement {
    Statement {
        owning_file: owner.to_string(),
        required_capabilities: caps(flags),
        exported_symbol: symbol.map(|name| ExportedItem {
            name: name.to_string(),
            owning_file: owner.to_string(),
        }),
        rendered: rendered.to_string(),
    }
}

fn header_text(link_name: &str) -> String {
    let mut s = String::new();
    s.push_str("// This file has been automatically generated by `objc2`'s `header-translator`.\n");
    s.push_str("// DO NOT EDIT\n\n");
    s.push_str(&format!("//! # Bindings to the `{link_name}` framework\n"));
    s.push_str("#![allow(unused_imports)]\n");
    s.push_str("#![allow(deprecated)]\n");
    s.push_str("#![allow(non_snake_case)]\n");
    s.push_str("#![allow(non_camel_case_types)]\n");
    s.push_str("#![allow(non_upper_case_globals)]\n");
    s.push_str("#![allow(missing_docs)]\n");
    s.push_str("#![allow(clippy::too_many_arguments)]\n");
    s.push_str("#![allow(clippy::type_complexity)]\n");
    s.push_str("#![allow(clippy::upper_case_acronyms)]\n");
    s.push_str("#![allow(clippy::identity_op)]\n");
    s.push_str("#![allow(clippy::missing_safety_doc)]\n\n");
    s
}

#[test]
fn sanitizer_replaces_plus() {
    assert_eq!(clean_file_name("AVFoundation+Private"), "AVFoundation_Private");
    assert_eq!(clean_file_name("NSObject"), "NSObject");
    assert_eq!(clean_file_name("a+b+c"), "a_b_c");
    assert_eq!(clean_file_name(""), "");
}

#[test]
fn sanitizer_idempotent() {
    let once = clean_file_name("AVFoundation+Private");
    let twice = clean_file_name(&once);
    assert_eq!(once, "AVFoundation_Private");
    assert_eq!(twice, once);
}

#[test]
fn visibility_of_reserved_marker() {
    assert_eq!(visibility_for("_NSPrivateHelper"), "pub(crate)");
    assert_eq!(visibility_for("NSObject"), "pub");
    assert_eq!(visibility_for(""), "pub");
    assert_eq!(visibility_for("x_"), "pub");
}

#[test]
fn string_order() {
    assert!(str_lt("a", "b"));
    assert!(!str_lt("b", "a"));
    assert!(!str_lt("a", "a"));
    assert!(str_lt("a", "ab"));
    assert!(str_lt("AVFoundation", "Foundation"));
}

#[test]
fn gate_empty_set_is_unconditional() {
    assert_eq!(caps(&[]).cfg_gate_ln(), "");
}

#[test]
fn gate_single_feature() {
    assert_eq!(caps(&["Foundation_NSString"]).cfg_gate_ln(), "#[cfg(feature = \"Foundation_NSString\")]\n");
}

#[test]
fn gate_conjunction_over_all_features() {
    assert_eq!(
        caps(&["B", "A"]).cfg_gate_ln(),
        "#[cfg(all(feature = \"A\", feature = \"B\"))]\n"
    );
    assert_eq!(
        caps(&["C", "A", "B"]).cfg_gate_ln(),
        "#[cfg(all(feature = \"A\", feature = \"B\", feature = \"C\"))]\n"
    );
}

#[test]
fn capability_set_is_canonical() {
    let a = caps(&["X", "Y", "Z"]);
    let b = caps(&["Z", "Y", "X", "Y"]);
    assert_eq!(a.len(), 3);
    assert_eq!(b.len(), 3);
    assert_eq!(a.cfg_gate_ln(), b.cfg_gate_ln());
}

#[test]
fn file_unit_preserves_declaration_order_and_gates() {
    let file = BindingFile {
        identity: "foo".to_string(),
        stmts: vec![
            stmt("foo", &["F1"], Some("Second"), "struct Second;\n"),
            stmt("foo", &[], Some("First"), "struct First;\n"),
        ],
    };
    assert_eq!(
        file.contents(),
        "#[cfg(feature = \"F1\")]\nstruct Second;\nstruct First;\n"
    );
}

#[test]
fn scenario_single_file_unconditional() {
    let data = LibraryData { linkage_style: LinkageStyle::Unconditional };
    let mut lib = Library::new("Foo", &data);
    lib.add_file(BindingFile {
        identity: "foo".to_string(),
        stmts: vec![stmt("foo", &[], Some("FooThing"), "pub struct FooThing;\n")],
    });
    let units = lib.output().unwrap();
    assert_eq!(units.len(), 2);
    assert_eq!(units[0].name, "foo.rs");
    assert_eq!(units[0].contents, "pub struct FooThing;\n");
    assert_eq!(units[1].name, "mod.rs");

    let mut expected = header_text("Foo");
    expected.push_str("#[link(name = \"Foo\", kind = \"framework\")]\nextern \"C\" {}\n\n");
    expected.push_str("#[path = \"foo.rs\"]\nmod __foo;\n");
    expected.push_str("\n");
    expected.push_str("pub use self::__foo::{FooThing};");
    assert_eq!(units[1].contents, expected);

    // exactly one linkage directive, one module declaration, one re-export
    assert_eq!(units[1].contents.matches("#[link(").count(), 1);
    assert_eq!(units[1].contents.matches("mod __").count(), 1);
    assert_eq!(units[1].contents.matches("pub use self::").count(), 1);
}

#[test]
fn platform_conditional_linkage_has_both_forms() {
    let data = LibraryData { linkage_style: LinkageStyle::PlatformConditional };
    let lib = Library::new("Metal", &data);
    let text = lib.mod_contents();
    assert!(text.contains(
        "#[cfg_attr(feature = \"apple\", link(name = \"Metal\", kind = \"framework\"))]\n"
    ));
    assert!(text.contains(
        "#[cfg_attr(feature = \"gnustep-1-7\", link(name = \"Metal\", kind = \"dylib\"))]\n"
    ));
    assert_eq!(text.matches("link(name = \"Metal\"").count(), 2);
    assert_eq!(text.matches("extern \"C\" {}").count(), 1);
}

#[test]
fn determinism_insertion_order_irrelevant() {
    let data = LibraryData { linkage_style: LinkageStyle::Unconditional };
    let make = |order: &[&str]| {
        let mut lib = Library::new("AppKit", &data);
        for id in order {
            lib.add_file(BindingFile {
                identity: id.to_string(),
                stmts: vec![stmt(id, &["AppKit_all"], Some("Thing"), "// decl\n")],
            });
        }
        lib
    };
    let a = make(&["NSView", "NSApp+extras", "AAA"]);
    let b = make(&["AAA", "NSView", "NSApp+extras"]);
    let ua = a.output().unwrap();
    let ub = b.output().unwrap();
    assert_eq!(ua.len(), ub.len());
    for (x, y) in ua.iter().zip(ub.iter()) {
        assert_eq!(x.name, y.name);
        assert_eq!(x.contents, y.contents);
    }
}

#[test]
fn regeneration_is_a_pure_function_of_the_input() {
    let data = LibraryData { linkage_style: LinkageStyle::Unconditional };
    let mut lib = Library::new("Foo", &data);
    lib.add_file(BindingFile {
        identity: "bar".to_string(),
        stmts: vec![stmt("bar", &[], Some("Bar"), "pub type Bar = u8;\n")],
    });
    let first: Vec<OutputUnit> = lib.output().unwrap();
    let second: Vec<OutputUnit> = lib.output().unwrap();
    assert_eq!(first.len(), second.len());
    for (x, y) in first.iter().zip(second.iter()) {
        assert_eq!(x.name, y.name);
        assert_eq!(x.contents, y.contents);
    }
}

#[test]
fn adding_same_identity_replaces_earlier_file() {
    let data = LibraryData { linkage_style: LinkageStyle::Unconditional };
    let mut lib = Library::new("Foo", &data);
    lib.add_file(BindingFile {
        identity: "foo".to_string(),
        stmts: vec![stmt("foo", &[], None, "// stale\n")],
    });
    lib.add_file(BindingFile {
        identity: "foo".to_string(),
        stmts: vec![stmt("foo", &[], None, "// fresh\n")],
    });
    assert_eq!(lib.file_count(), 1);
    let units = lib.output().unwrap();
    assert_eq!(units.len(), 2);
    assert_eq!(units[0].name, "foo.rs");
    assert_eq!(units[0].contents, "// fresh\n");
}

#[test]
fn gate_of_reexport_equals_gate_of_declaration() {
    let data = LibraryData { linkage_style: LinkageStyle::Unconditional };
    let mut lib = Library::new("Foo", &data);
    lib.add_file(BindingFile {
        identity: "gated".to_string(),
        stmts: vec![stmt("gated", &["F2", "F1"], Some("Gated"), "pub struct Gated;\n")],
    });
    let gate = caps(&["F1", "F2"]).cfg_gate_ln();
    let units = lib.output().unwrap();
    // the declaration in its owning unit stands behind its gate ...
    assert!(units[0].contents.starts_with(&gate));
    // ... and the re-export in the aggregator stands behind the same gate
    let text = &units[1].contents;
    let reexport = format!("{gate}pub use self::__gated::{{Gated}};");
    assert!(text.ends_with(&reexport));
}

#[test]
fn restricted_visibility_in_reexport() {
    let data = LibraryData { linkage_style: LinkageStyle::Unconditional };
    let mut lib = Library::new("Foo", &data);
    lib.add_file(BindingFile {
        identity: "priv".to_string(),
        stmts: vec![stmt("priv", &[], Some("_NSPrivateHelper"), "// decl\n")],
    });
    let text = lib.mod_contents();
    assert!(text.ends_with("pub(crate) use self::__priv::{_NSPrivateHelper};"));
}

#[test]
fn completeness_one_declaration_and_unit_per_file() {
    let data = LibraryData { linkage_style: LinkageStyle::Unconditional };
    let mut lib = Library::new("Foo", &data);
    for id in ["c", "a+x", "b"] {
        lib.add_file(BindingFile {
            identity: id.to_string(),
            stmts: vec![stmt(id, &[], Some("T"), "// decl\n")],
        });
    }
    let units = lib.output().unwrap();
    assert_eq!(units.len(), 4);
    // units come in sorted sanitized order, the aggregator last
    assert_eq!(units[0].name, "a_x.rs");
    assert_eq!(units[1].name, "b.rs");
    assert_eq!(units[2].name, "c.rs");
    assert_eq!(units[3].name, "mod.rs");
    let text = &units[3].contents;
    for id in ["a_x", "b", "c"] {
        assert_eq!(
            text.matches(&format!("#[path = \"{id}.rs\"]\nmod __{id};\n")).count(),
            1
        );
    }
    // every re-export names a declared module
    assert!(text.contains("use self::__a_x::{T};"));
    assert!(text.contains("use self::__b::{T};"));
    assert!(text.contains("use self::__c::{T};"));
}

#[test]
fn validate_rejects_owning_file_mismatch() {
    let data = LibraryData { linkage_style: LinkageStyle::Unconditional };
    let mut lib = Library::new("Foo", &data);
    lib.add_file(BindingFile {
        identity: "foo".to_string(),
        stmts: vec![stmt("bar", &[], None, "// decl\n")],
    });
    assert_eq!(
        lib.validate(),
        Err(AssemblyError::OwningFileMismatch { file_index: 0, stmt_index: 0 })
    );
    assert!(lib.output().is_err());
}

#[test]
fn validate_rejects_symbol_owner_mismatch() {
    let data = LibraryData { linkage_style: LinkageStyle::Unconditional };
    let mut lib = Library::new("Foo", &data);
    let bad = Statement {
        owning_file: "foo".to_string(),
        required_capabilities: caps(&[]),
        exported_symbol: Some(ExportedItem {
            name: "Thing".to_string(),
            owning_file: "other".to_string(),
        }),
        rendered: "// decl\n".to_string(),
    };
    lib.add_file(BindingFile { identity: "foo".to_string(), stmts: vec![bad] });
    assert_eq!(
        lib.validate(),
        Err(AssemblyError::SymbolOwnerMismatch { file_index: 0, stmt_index: 0 })
    );
    assert!(lib.output().is_err());
}

#[test]
fn validate_accepts_consistent_package() {
    let data = LibraryData { linkage_style: LinkageStyle::Unconditional };
    let mut lib = Library::new("Foo", &data);
    assert_eq!(lib.validate(), Ok(()));
    lib.add_file(BindingFile {
        identity: "foo".to_string(),
        stmts: vec![
            stmt("foo", &[], Some("A"), "// a\n"),
            stmt("foo", &["X"], None, "// b\n"),
        ],
    });
    assert_eq!(lib.validate(), Ok(()));
    assert_eq!(lib.link_name(), "Foo");
}
