use kt_resolver::completion::{
    camel_acronym_match, extension_symbol_fqn, is_annotation_context, is_library_extension,
    is_screaming_snake, match_score, package_of_fqn, vis_tag, CurrentFileCompletionContext,
    DotReceiver,
};
use kt_resolver::types::{ImportEntry, Visibility};

#[test]
fn screaming_snake_names() {
    assert!(is_screaming_snake("MAX_VALUE"));
    assert!(is_screaming_snake("HTTP2_OK"));
    assert!(!is_screaming_snake("MaxValue"));
    assert!(!is_screaming_snake("___"));
    assert!(!is_screaming_snake(""));
}

#[test]
fn camel_acronym_examples() {
    assert!(camel_acronym_match("ColumnButton", "CB"));
    assert!(camel_acronym_match("myStateFlow", "mSF"));
    assert!(!camel_acronym_match("CoolBar", "CX"));
    assert!(camel_acronym_match("coolBar", "cb"));
    assert!(camel_acronym_match("HTMLParser", "HP"));
    assert!(camel_acronym_match("snake_case_name", "scn"));
    assert!(!camel_acronym_match("ColumnButton", "BC"));
}

#[test]
fn match_scores() {
    assert_eq!(match_score("ColumnButton", ""), Some(0));
    assert_eq!(match_score("ColumnButton", "colu"), Some(0));
    assert_eq!(match_score("ColumnButton", "CB"), Some(1));
    assert_eq!(match_score("ColumnButton", "button"), Some(2));
    assert_eq!(match_score("ColumnButton", "xyz"), None);
}

#[test]
fn annotation_context() {
    assert!(is_annotation_context("    @Compo", "Compo"));
    assert!(!is_annotation_context("    Compo", "Compo"));
    assert!(!is_annotation_context("Compo", "Compo"));
}

#[test]
fn fqn_helpers() {
    assert_eq!(extension_symbol_fqn("com.app", "ext"), "com.app.ext");
    assert_eq!(extension_symbol_fqn("", "ext"), "ext");
    assert_eq!(package_of_fqn("com.app.Widget"), "com.app");
    assert_eq!(package_of_fqn("Widget"), "");
}

#[test]
fn visibility_tags() {
    assert_eq!(vis_tag(Visibility::Private), "prv:");
    assert_eq!(vis_tag(Visibility::Protected), "prt:");
    assert_eq!(vis_tag(Visibility::Public), "");
    assert_eq!(vis_tag(Visibility::Internal), "");
}

#[test]
fn dot_receiver_text() {
    assert_eq!(DotReceiver::expr("viewModel").text(), "viewModel");
    assert_eq!(DotReceiver::Super.text(), "super");
    assert_eq!(DotReceiver::Scope("this@Outer".to_owned()).text(), "this@Outer");
}

fn import(full_path: &str, local_name: &str, is_star: bool) -> ImportEntry {
    ImportEntry { full_path: full_path.to_owned(), local_name: local_name.to_owned(), is_star }
}

#[test]
fn completion_needs_import_only_for_foreign_unimported_names() {
    let ctx = CurrentFileCompletionContext {
        imports: vec![import("com.a.Widget", "Widget", false), import("com.b", "*", true)],
        package_name: "com.app".to_owned(),
        lines: Vec::new(),
        needs_semicolons: false,
    };
    assert!(!ctx.needs_import("com.a.Widget"));
    assert!(!ctx.needs_import("com.b.Gadget"));
    assert!(!ctx.needs_import("com.app.Local"));
    assert!(ctx.needs_import("com.c.Other"));
    assert!(ctx.needs_import("com.a.Other"));
}

#[test]
fn library_extensions() {
    let libs = vec!["file:///sdk/Lib.kt".to_owned()];
    assert!(is_library_extension(&libs, "jar:file:///x.jar!/A.class"));
    assert!(is_library_extension(&libs, "file:///sdk/Lib.kt"));
    assert!(!is_library_extension(&libs, "file:///src/App.kt"));
}

#[test]
fn camel_acronym_word_after_lowercase_run_counts() {
    // `B` follows a lowercase letter, so it starts the word `Bar`, exactly
    // as `B` starts `Button` in `ColumnButton`: the two names have the same
    // shape, so they match `CB` alike.
    assert!(camel_acronym_match("ColumnButton", "CB"));
    assert!(camel_acronym_match("CoolBar", "CB"));
}
