use kt_resolver::completion_items::{BareCompleter, CompletionItemKind};
use kt_resolver::extensions::{
    extension_is_in_scope, ExtensionCompletionBuilder, ExtensionContext, ExtensionEntry,
};
use kt_resolver::types::{FileData, ImportEntry, SourceSet, SymbolKind, Visibility};

fn ctx() -> ExtensionContext {
    ExtensionContext {
        from_uri: "file:///app/Main.kt".into(),
        imports: vec![
            ImportEntry { full_path: "kotlinx.coroutines.launch".into(), local_name: "launch".into(), is_star: false },
            ImportEntry { full_path: "com.util".into(), local_name: "*".into(), is_star: true },
        ],
        package_name: "com.app".into(),
    }
}

fn ext(name: &str, uri: &str, package: Option<&str>) -> ExtensionEntry {
    ExtensionEntry {
        file_uri: uri.into(),
        name: name.into(),
        kind: SymbolKind::Function,
        detail: String::new(),
        visibility: Visibility::Public,
        package: package.map(|p| p.into()),
        container: None,
        trailing_lambda: false,
        deprecated: false,
    }
}

#[test]
fn extension_import_rules() {
    let c = ctx();
    assert!(!c.needs_import("kotlinx.coroutines.launch", false));
    assert!(!c.needs_import("com.util.trim", false));
    assert!(!c.needs_import("com.app.local", false));
    assert!(c.needs_import("com.other.helper", false));
    assert!(!c.needs_import("com.other.helper", true));
}

#[test]
fn extension_items_carry_their_import() {
    let c = ctx();
    let item = c.build_item_from_entry(&ext("helper", "file:///lib/H.kt", Some("com.other")), true);
    assert_eq!(item.label, "helper");
    assert_eq!(item.kind, CompletionItemKind::Function);
    assert_eq!(item.sort_text.as_deref(), Some("01:ext:helper"));
    assert_eq!(item.insert_text.as_deref(), Some("helper($1)"));
    assert!(item.snippet_format && item.triggers_parameter_hints);
    assert_eq!(item.detail.as_deref(), Some("com.other"));
    assert_eq!(item.auto_import.as_deref(), Some("com.other.helper"));

    let mut e = ext("trim", "file:///util/T.kt", Some("com.util"));
    e.detail = "fun String.trim(): String".into();
    e.kind = SymbolKind::Property;
    e.deprecated = true;
    let item = c.build_item_from_entry(&e, true);
    assert_eq!(item.kind, CompletionItemKind::Value);
    assert_eq!(item.insert_text, None);
    assert_eq!(item.detail.as_deref(), Some("fun String.trim(): String"));
    assert_eq!(item.auto_import, None);
    assert!(item.deprecated);
    assert_eq!(item.sort_text.as_deref(), Some("99:01:ext:trim"));
}

#[test]
fn lambda_items() {
    let c = ctx();
    let item = c.build_lambda_item_from_entry(&ext("launch", "jar:file:///c.jar!/L.kt", Some("kotlinx.coroutines")), true);
    assert_eq!(item.label, "launch { }");
    assert_eq!(item.insert_text.as_deref(), Some("launch { $1 }"));
    assert_eq!(item.sort_text.as_deref(), Some("01:ext:launch:z"));
    assert!(!item.triggers_parameter_hints);
    assert_eq!(item.auto_import, None);
    let plain = c.build_lambda_item_from_entry(&ext("launch", "jar:file:///c.jar!/L.kt", Some("kotlinx.coroutines")), false);
    assert_eq!(plain.insert_text, None);
    assert!(!plain.snippet_format);
}

#[test]
fn builder_offers_each_accessible_name_once() {
    let c = ctx();
    let mut b = ExtensionCompletionBuilder::new(true);
    let mut launch = ext("launch", "jar:file:///c.jar!/L.kt", Some("kotlinx.coroutines"));
    launch.trailing_lambda = true;
    b.add_entry(&c, &launch, true);
    // The same name from another archive merges.
    b.add_entry(&c, &ext("launch", "file:///src/L.kt", Some("kotlinx.coroutines")), true);
    let mut private = ext("secret", "file:///lib/S.kt", Some("com.other"));
    private.visibility = Visibility::Private;
    b.add_entry(&c, &private, false);
    let mut own_private = ext("mine", "file:///app/Main.kt", Some("com.app"));
    own_private.visibility = Visibility::Private;
    b.add_entry(&c, &own_private, false);
    let mut internal = ext("inner", "jar:file:///x.jar!/I.kt", Some("com.x"));
    internal.visibility = Visibility::Internal;
    b.add_entry(&c, &internal, true);
    let mut old = ext("old", "jar:file:///x.jar!/O.kt", Some("com.x"));
    old.deprecated = true;
    b.add_entry(&c, &old, true);
    let mut member = ext("scoped", "file:///app/M.kt", Some("com.app"));
    member.container = Some("Scope".into());
    b.add_entry(&c, &member, false);
    let labels: Vec<String> = b.items.iter().map(|i| i.label.clone()).collect();
    assert_eq!(labels, vec!["launch", "launch { }", "mine"]);
    assert_eq!(b.seen, vec!["launch", "launch:lam", "mine"]);
}

#[test]
fn this_extensions_need_a_kotlin_file_and_a_matching_name() {
    let c = ctx();
    let mut completer = BareCompleter::new("lo", true, false);
    completer.add_this_extension(&c, &ext("log", "file:///app/Log.kt", Some("com.app")), false, "lo");
    completer.add_this_extension(&c, &ext("load", "file:///app/Load.java", Some("com.app")), false, "lo");
    completer.add_this_extension(&c, &ext("save", "file:///app/Save.kt", Some("com.app")), false, "lo");
    completer.add_this_extension(&c, &ext("log", "file:///app/Log2.kt", Some("com.app")), false, "lo");
    let labels: Vec<String> = completer.items.iter().map(|i| i.label.clone()).collect();
    assert_eq!(labels, vec!["log"]);
    assert_eq!(completer.items[0].sort_text.as_deref(), Some("01:ext:log"));
}

fn caller(package: Option<&str>, imports: Vec<ImportEntry>) -> FileData {
    FileData {
        symbols: Vec::new(),
        imports,
        package: package.map(|p| p.into()),
        lines: Vec::new(),
        declared_names: Vec::new(),
        source_set: SourceSet::Main,
        supers: Vec::new(),
    }
}

#[test]
fn extension_is_in_scope_treats_default_package_as_same_package() {
    let caller_file_data = caller(None, Vec::new());
    assert!(extension_is_in_scope(None, "helper", Some(&caller_file_data)));
}

#[test]
fn extension_is_in_scope_does_not_treat_unknown_caller_as_default_package() {
    assert!(!extension_is_in_scope(None, "helper", None));
}

#[test]
fn extension_scope_by_package_or_import() {
    let pkg = "com.util".to_string();
    let same = caller(Some("com.util"), Vec::new());
    assert!(extension_is_in_scope(Some(&pkg), "trim", Some(&same)));
    let other = caller(Some("com.app"), Vec::new());
    assert!(!extension_is_in_scope(Some(&pkg), "trim", Some(&other)));
    let star = caller(Some("com.app"), vec![ImportEntry { full_path: "com.util".into(), local_name: "*".into(), is_star: true }]);
    assert!(extension_is_in_scope(Some(&pkg), "trim", Some(&star)));
    let named = caller(Some("com.app"), vec![ImportEntry { full_path: "com.util.trim".into(), local_name: "trim".into(), is_star: false }]);
    assert!(extension_is_in_scope(Some(&pkg), "trim", Some(&named)));
    assert!(!extension_is_in_scope(Some(&pkg), "pad", Some(&named)));
    // A default-package extension from a packaged caller: only a matching local import name.
    assert!(extension_is_in_scope(None, "trim", Some(&named)));
    assert!(!extension_is_in_scope(None, "trim", Some(&other)));
}

#[test]
fn this_extensions_of_every_ancestor_are_offered_once_from_kotlin_files() {
    let c = ctx();
    let mut deprecated_lib = ext("lockRead", "jar:file:///lib.jar!/L.kt", Some("com.lib"));
    deprecated_lib.deprecated = true;
    let mut internal_lib = ext("lookup", "file:///sdk/Lib.kt", Some("com.lib"));
    internal_lib.visibility = Visibility::Internal;
    let entries = vec![
        ext("log", "file:///app/Log.kt", Some("com.app")),
        ext("load", "file:///app/Load.java", Some("com.app")),
        deprecated_lib,
        internal_lib,
        ext("log", "file:///app/Other.kt", Some("com.app")),
        ext("locate", "file:///app/Loc.kt", Some("com.app")),
    ];
    let libs = vec!["file:///sdk/Lib.kt".to_string()];
    let mut completer = BareCompleter::new("lo", true, false);
    completer.add_this_extensions(&c, &entries, &libs, "lo");
    let labels: Vec<String> = completer.items.iter().map(|i| i.label.clone()).collect();
    assert_eq!(labels, vec!["log", "locate"]);
    assert_eq!(completer.seen, vec!["log".to_string(), "locate".to_string()]);

    // Not from a Kotlin file, or in an annotation: nothing.
    let mut java = c;
    java.from_uri = "file:///app/Main.java".into();
    let mut completer = BareCompleter::new("lo", true, false);
    completer.add_this_extensions(&java, &entries, &libs, "lo");
    assert!(completer.items.is_empty());
    let mut annotations = BareCompleter::new("lo", true, true);
    annotations.add_this_extensions(&ctx(), &entries, &libs, "lo");
    assert!(annotations.items.is_empty());
}

#[test]
fn a_this_extension_item_is_built_from_the_entry_that_was_accepted() {
    let c = ctx();
    let mut refused = ext("log", "file:///app/Secret.kt", Some("com.app"));
    refused.visibility = Visibility::Private;
    refused.detail = "fun Any.log(secret: String)".into();
    let mut accepted = ext("log", "file:///app/Log.kt", Some("com.app"));
    accepted.detail = "fun Any.log(message: String)".into();
    let entries = vec![refused, accepted];
    let mut completer = BareCompleter::new("lo", false, false);
    completer.add_this_extensions(&c, &entries, &Vec::new(), "lo");
    assert_eq!(completer.items.len(), 1);
    assert_eq!(completer.items[0].detail.as_deref(), Some("fun Any.log(message: String)"));
}
