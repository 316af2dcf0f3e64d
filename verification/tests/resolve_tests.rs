use kt_resolver::resolve::{
    after_qualified_lookup, chain_after, chain_start, dotted_type_path, imports_may_search_files,
    is_step_enabled, prefer_swift_locations, resolve_local, rg_location_satisfies_call_shape,
    split_outer_type, tail_origin, ChainAction, ChainConfig, ChainStep, QualifiedOutcome,
    ResolveIo, StepOutcome,
};
use kt_resolver::types::{FileData, Location, Position, Range, SymbolEntry, SymbolKind, Visibility, SourceSet};

fn config(io: ResolveIo) -> ChainConfig {
    ChainConfig {
        io,
        with_hierarchy: true,
        name_starts_uppercase: false,
        from_swift_file: false,
        from_file_indexed: true,
    }
}

/// The steps a pass runs when no step finds anything.
fn walk(cfg: &ChainConfig) -> Vec<ChainStep> {
    let mut steps = Vec::new();
    let mut action = chain_start(cfg);
    while let ChainAction::Run(step) = action {
        steps.push(step);
        action = chain_after(cfg, step, StepOutcome::NotFound);
    }
    assert_eq!(action, ChainAction::ReturnNothing);
    steps
}

#[test]
fn full_policy_walks_every_io_step_in_order() {
    let mut cfg = config(ResolveIo::Full);
    cfg.from_file_indexed = false;
    assert_eq!(
        walk(&cfg),
        vec![
            ChainStep::IndexCurrentFile,
            ChainStep::Local,
            ChainStep::LocalDeclaration,
            ChainStep::Imports,
            ChainStep::SamePackage,
            ChainStep::StarImportsSearch,
            ChainStep::Hierarchy,
            ChainStep::ImportPackageGate,
            ChainStep::ProjectSearch,
            ChainStep::AmbiguitySafeTail,
            ChainStep::PlatformEquivalent,
        ]
    );
}

#[test]
fn full_policy_for_a_swift_type_name_uses_the_definitions_index() {
    let cfg = ChainConfig {
        io: ResolveIo::Full,
        with_hierarchy: false,
        name_starts_uppercase: true,
        from_swift_file: true,
        from_file_indexed: true,
    };
    assert_eq!(
        walk(&cfg),
        vec![
            ChainStep::Local,
            ChainStep::Imports,
            ChainStep::SwiftDefinitions,
            ChainStep::SamePackage,
            ChainStep::StarImportsSearch,
            ChainStep::ImportPackageGate,
            ChainStep::ProjectSearch,
            ChainStep::AmbiguitySafeTail,
            ChainStep::PlatformEquivalent,
        ]
    );
}

#[test]
fn in_memory_policies_differ_only_in_their_tail() {
    let common = [ChainStep::Local, ChainStep::Imports, ChainStep::SamePackage, ChainStep::StarImportsIndexed];
    let mut no_rg = common.to_vec();
    no_rg.extend([ChainStep::FirstDefinition, ChainStep::PlatformEquivalent]);
    assert_eq!(walk(&config(ResolveIo::NoRg)), no_rg);
    let mut safe = common.to_vec();
    safe.extend([ChainStep::AmbiguitySafeTail, ChainStep::PlatformEquivalent]);
    assert_eq!(walk(&config(ResolveIo::IndexOnly)), safe);
    assert_eq!(walk(&config(ResolveIo::HierarchyAmbiguitySafe)), safe);
    assert_eq!(walk(&config(ResolveIo::ScopedOnly)), common.to_vec());
}

#[test]
fn a_find_or_a_stop_ends_the_chain() {
    let cfg = config(ResolveIo::Full);
    assert_eq!(chain_after(&cfg, ChainStep::Imports, StepOutcome::Found), ChainAction::ReturnFound);
    assert_eq!(
        chain_after(&cfg, ChainStep::ImportPackageGate, StepOutcome::Stop),
        ChainAction::ReturnNothing
    );
    assert_eq!(
        chain_after(&cfg, ChainStep::ImportPackageGate, StepOutcome::NotFound),
        ChainAction::Run(ChainStep::ProjectSearch)
    );
    assert_eq!(
        chain_after(&cfg, ChainStep::PlatformEquivalent, StepOutcome::NotFound),
        ChainAction::ReturnNothing
    );
    assert_eq!(chain_start(&cfg), ChainAction::Run(ChainStep::Local));
    assert!(is_step_enabled(&cfg, ChainStep::Hierarchy));
    assert!(!is_step_enabled(&config(ResolveIo::NoRg), ChainStep::Hierarchy));
}

#[test]
fn only_the_index_only_policy_keeps_imports_in_memory() {
    assert!(!imports_may_search_files(ResolveIo::IndexOnly));
    assert!(imports_may_search_files(ResolveIo::Full));
    assert!(imports_may_search_files(ResolveIo::NoRg));
    assert!(imports_may_search_files(ResolveIo::ScopedOnly));
    assert!(imports_may_search_files(ResolveIo::HierarchyAmbiguitySafe));
}

#[test]
fn tail_origin_is_the_walks_start_only_for_the_hierarchy_pass() {
    let from = "jar:file:///lib.jar!/A.class";
    let origin = "file:///app/Main.kt";
    assert_eq!(tail_origin(ResolveIo::HierarchyAmbiguitySafe, from, Some(origin)), origin);
    assert_eq!(tail_origin(ResolveIo::HierarchyAmbiguitySafe, from, None), from);
    assert_eq!(tail_origin(ResolveIo::IndexOnly, from, Some(origin)), from);
}

#[test]
fn qualifier_outcomes() {
    assert_eq!(after_qualified_lookup("repo", true), QualifiedOutcome::UseQualified);
    assert_eq!(after_qualified_lookup("super", false), QualifiedOutcome::NothingFound);
    assert_eq!(after_qualified_lookup("this", false), QualifiedOutcome::NothingFound);
    assert_eq!(after_qualified_lookup("Foo", false), QualifiedOutcome::NothingFound);
    assert_eq!(after_qualified_lookup("com", false), QualifiedOutcome::TryUnqualified);
    assert_eq!(after_qualified_lookup("superb", false), QualifiedOutcome::TryUnqualified);
}

#[test]
fn dotted_type_paths_skip_package_segments() {
    let d = dotted_type_path("demo.Outer.Inner").expect("a type path");
    assert_eq!(d.segments, vec!["demo", "Outer", "Inner"]);
    assert_eq!(d.start, 1);
    let d = dotted_type_path("Outer.Factory").expect("a type path");
    assert_eq!(d.start, 0);
    assert!(dotted_type_path("Plain").is_none());
    assert!(dotted_type_path("com.example.util").is_none());
}

#[test]
fn outer_type_split_at_the_first_dot() {
    assert_eq!(split_outer_type("Contract.Effect.Sub"), Some(("Contract".to_string(), "Effect.Sub".to_string())));
    assert_eq!(split_outer_type("Plain"), None);
}

fn pos(line: u32, character: u32) -> Position {
    Position { line, character }
}

fn span(l0: u32, c0: u32, l1: u32, c1: u32) -> Range {
    Range { start: pos(l0, c0), end: pos(l1, c1) }
}

fn function(name: &str, range: Range, counts: (u8, u8)) -> SymbolEntry {
    SymbolEntry {
        name: name.to_owned(),
        kind: SymbolKind::Function,
        visibility: Visibility::Public,
        range,
        selection_range: Range { start: range.start, end: range.start },
        detail: String::new(),
        params: String::new(),
        param_counts: counts,
        container: None,
        cold: None,
        trailing_lambda: false,
        deprecated: false,
    }
}

fn file(symbols: Vec<SymbolEntry>) -> FileData {
    FileData { symbols, imports: Vec::new(), package: None, lines: Vec::new(), declared_names: Vec::new(), source_set: SourceSet::Main, supers: Vec::new() }
}

#[test]
fn local_step_filters_by_call_shape() {
    let fd = file(vec![
        function("load", span(0, 0, 2, 1), (0, 0)),
        function("load", span(3, 0, 5, 1), (2, 2)),
        function("other", span(6, 0, 7, 1), (2, 2)),
    ]);
    let all = resolve_local(Some(&fd), "load", "file:///A.kt", None::<fn(&SymbolEntry) -> bool>);
    assert_eq!(all.len(), 2);
    let two_args = |s: &SymbolEntry| s.param_counts.0 <= 2 && 2 <= s.param_counts.1;
    let shaped = resolve_local(Some(&fd), "load", "file:///A.kt", Some(two_args));
    assert_eq!(shaped.len(), 1);
    assert_eq!(shaped[0].range.start.line, 3);
    assert_eq!(shaped[0].uri, "file:///A.kt");
    assert!(resolve_local(None, "load", "file:///A.kt", Some(two_args)).is_empty());
}

#[test]
fn text_search_hit_is_checked_against_the_enclosing_symbol() {
    let fd = file(vec![function("load", span(3, 0, 5, 1), (2, 2))]);
    let hit = Location { uri: "file:///A.kt".into(), range: span(3, 4, 3, 8) };
    let two_args = |s: &SymbolEntry| s.param_counts.0 <= 2 && 2 <= s.param_counts.1;
    let no_args = |s: &SymbolEntry| s.param_counts.0 == 0;
    assert!(rg_location_satisfies_call_shape(Some(&fd), &hit, "load", two_args));
    assert!(!rg_location_satisfies_call_shape(Some(&fd), &hit, "load", no_args));
    // Unindexed file, or no enclosing symbol: the hit is kept.
    assert!(rg_location_satisfies_call_shape(None, &hit, "load", no_args));
    let elsewhere = Location { uri: "file:///A.kt".into(), range: span(9, 0, 9, 4) };
    assert!(rg_location_satisfies_call_shape(Some(&fd), &elsewhere, "load", no_args));
}

#[test]
fn swift_definitions_are_preferred() {
    let loc = |u: &str| Location { uri: u.to_string(), range: span(0, 0, 0, 1) };
    let locs = vec![loc("file:///a/View.kt"), loc("file:///a/View.swift")];
    let paths = vec!["/a/View.kt".to_string(), "/a/View.swift".to_string()];
    let out = prefer_swift_locations(locs, &paths);
    assert_eq!(out.len(), 1);
    assert_eq!(out[0].uri, "file:///a/View.swift");
    let locs = vec![loc("file:///a/View.kt")];
    let out = prefer_swift_locations(locs, &vec!["/a/View.kt".to_string()]);
    assert_eq!(out.len(), 1);
}
