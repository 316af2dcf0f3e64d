use kt_resolver::tie_break::{
    ambiguity_safe_tail_with_denylist, default_kotlin_import_tie_break, import_package_tie_break,
    module_scoped_tie_break, Candidate, ModuleScopedOutcome, TieBreakOrigin,
};
use kt_resolver::types::{ImportEntry, Location, Position, Range};

fn cand(uri: &str, package: Option<&str>, module_dependency: bool) -> Candidate {
    let p = Position { line: 0, character: 0 };
    Candidate {
        location: Location { uri: uri.to_owned(), range: Range { start: p, end: p } },
        package: package.map(|s| s.to_owned()),
        module_dependency,
    }
}

fn uris(v: &[Candidate]) -> Vec<String> {
    v.iter().map(|c| c.location.uri.clone()).collect()
}

fn origin(module_data_known: bool, imports: Option<Vec<ImportEntry>>) -> TieBreakOrigin {
    TieBreakOrigin { module_data_known, imports }
}

#[test]
fn a_unique_candidate_wins_outright_even_if_denylisted() {
    let out = ambiguity_safe_tail_with_denylist(
        &origin(false, None),
        vec![cand("jar:a", Some("com.android.internal.policy"), false)],
    );
    assert_eq!(uris(&out), vec!["jar:a"]);
}

#[test]
fn denylisted_package_candidate_is_dropped_in_favour_of_the_other() {
    let out = ambiguity_safe_tail_with_denylist(
        &origin(false, None),
        vec![
            cand("jar:internal", Some("com.android.internal.widget"), false),
            cand("jar:real", Some("androidx.recyclerview.widget"), false),
        ],
    );
    assert_eq!(uris(&out), vec!["jar:real"]);
}

#[test]
fn module_dependencies_narrow_a_jar_collision() {
    let out = ambiguity_safe_tail_with_denylist(
        &origin(true, None),
        vec![
            cand("jar:a", Some("com.a"), false),
            cand("jar:b", Some("com.b"), true),
        ],
    );
    assert_eq!(uris(&out), vec!["jar:b"]);
}

#[test]
fn without_module_data_a_collision_is_declined() {
    let out = ambiguity_safe_tail_with_denylist(
        &origin(false, None),
        vec![
            cand("jar:a", Some("com.a"), true),
            cand("jar:b", Some("com.b"), true),
        ],
    );
    assert!(out.is_empty());
}

#[test]
fn default_import_package_wins_a_tie() {
    let out = ambiguity_safe_tail_with_denylist(
        &origin(false, None),
        vec![
            cand("jar:a", Some("com.a"), false),
            cand("jar:kotlin", Some("kotlin.collections"), false),
        ],
    );
    assert_eq!(uris(&out), vec!["jar:kotlin"]);
}

#[test]
fn the_calling_files_imports_pick_the_candidate() {
    let imports = vec![ImportEntry {
        full_path: "com.b.Widget".to_owned(),
        local_name: "Widget".to_owned(),
        is_star: false,
    }];
    let out = ambiguity_safe_tail_with_denylist(
        &origin(false, Some(imports)),
        vec![cand("jar:a", Some("com.a"), false), cand("jar:b", Some("com.b"), false)],
    );
    assert_eq!(uris(&out), vec!["jar:b"]);
}

#[test]
fn module_scoped_outcomes() {
    let cands = vec![cand("a", None, false), cand("b", None, true)];
    assert!(matches!(module_scoped_tie_break(false, &cands), ModuleScopedOutcome::NoData));
    match module_scoped_tie_break(true, &cands) {
        ModuleScopedOutcome::Narrowed(v) => assert_eq!(uris(&v), vec!["b"]),
        _ => panic!("expected a narrowed set"),
    }
    let none = vec![cand("a", None, false)];
    assert!(matches!(
        module_scoped_tie_break(true, &none),
        ModuleScopedOutcome::NoDependenciesSurvived
    ));
}

#[test]
fn default_import_tie_break_is_a_no_op_without_kotlin_packages() {
    let cands = vec![cand("a", Some("com.a"), false), cand("b", None, false)];
    assert_eq!(uris(&default_kotlin_import_tie_break(cands)), vec!["a", "b"]);
}

fn star_import(pkg: &str) -> Vec<ImportEntry> {
    vec![ImportEntry { full_path: pkg.to_owned(), local_name: "*".to_owned(), is_star: true }]
}

#[test]
fn import_package_tie_break_declines_unless_exactly_one_survives() {
    let both = vec![cand("a1", Some("com.a"), false), cand("a2", Some("com.a"), false)];
    assert!(import_package_tie_break(&origin(false, Some(star_import("com.a"))), both).is_empty());
    let one = vec![cand("a1", Some("com.a"), false), cand("b", Some("com.b"), false)];
    assert_eq!(
        uris(&import_package_tie_break(&origin(false, Some(star_import("com.a"))), one)),
        vec!["a1"]
    );
    let unindexed = vec![cand("a1", Some("com.a"), false), cand("b", Some("com.b"), false)];
    assert!(import_package_tie_break(&origin(false, None), unindexed).is_empty());
}
