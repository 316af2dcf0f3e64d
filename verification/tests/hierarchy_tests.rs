use kt_resolver::hierarchy::{
    receiver_type_agreement, super_names_for_class, supertype_chain_contains, supertype_spelling,
    supertype_edges, walk_hierarchy, walk_hierarchy_breadth_first, walk_hierarchy_collecting, ReceiverTypeAgreement,
    SupertypeCandidates, SupertypeEdges, SupertypeGraph, TypeRef,
};
use kt_resolver::tie_break::{ambiguity_safe_tail_with_denylist, Candidate, TieBreakOrigin};
use kt_resolver::types::Location;
use kt_resolver::types::{
    FileData, Position, Range, SourceSet, SymbolEntry, SymbolKind, Visibility,
};

fn t(name: &str, uri: &str) -> TypeRef {
    TypeRef { name: name.to_owned(), uri: uri.to_owned() }
}

fn edges(class: (&str, &str), supers: &[(&str, &str)]) -> SupertypeEdges {
    SupertypeEdges {
        class: t(class.0, class.1),
        supers: supers.iter().map(|(n, u)| t(n, u)).collect(),
    }
}

fn names(v: &[TypeRef]) -> Vec<String> {
    v.iter().map(|r| r.name.clone()).collect()
}

/// `C : A, B`, `A : Base`, `B : Base`, `Base : Root`, `Root : C` (a cycle).
fn diamond() -> SupertypeGraph {
    SupertypeGraph {
        nodes: vec![
            edges(("C", "f:c"), &[("A", "f:a"), ("B", "f:b")]),
            edges(("A", "f:a"), &[("Base", "f:base")]),
            edges(("B", "f:b"), &[("Base", "f:base")]),
            edges(("Base", "f:base"), &[("Root", "f:root")]),
            edges(("Root", "f:root"), &[("C", "f:c")]),
        ],
    }
}

#[test]
fn depth_first_walk_visits_each_supertype_once_and_never_the_start() {
    let g = diamond();
    assert_eq!(names(&walk_hierarchy(&g, "C", "f:c", 10)), vec!["A", "Base", "Root", "B"]);
}

#[test]
fn depth_first_walk_respects_the_hop_limit() {
    let g = diamond();
    assert_eq!(names(&walk_hierarchy(&g, "C", "f:c", 1)), vec!["A", "B"]);
    assert!(walk_hierarchy(&g, "C", "f:c", 0).is_empty());
    assert!(walk_hierarchy(&g, "Unknown", "f:x", 5).is_empty());
}

#[test]
fn breadth_first_walk_returns_the_nearest_level_with_results() {
    let g = diamond();
    // Only `Base` and `Root` declare a member; the nearest level wins.
    let found = walk_hierarchy_breadth_first(&g, "C", "f:c", 10, |r: &TypeRef| {
        if r.name == "Base" || r.name == "Root" {
            vec![r.name.clone()]
        } else {
            Vec::new()
        }
    });
    assert_eq!(found, vec!["Base".to_string()]);
}

#[test]
fn breadth_first_walk_collects_a_whole_level() {
    let g = diamond();
    let found = walk_hierarchy_breadth_first(&g, "C", "f:c", 10, |r: &TypeRef| vec![r.uri.clone()]);
    assert_eq!(found, vec!["f:a".to_string(), "f:b".to_string()]);
}

#[test]
fn breadth_first_walk_gives_up_past_the_hop_limit() {
    let g = diamond();
    let found = walk_hierarchy_breadth_first(&g, "C", "f:c", 2, |r: &TypeRef| {
        if r.name == "Root" { vec![1u8] } else { Vec::new() }
    });
    assert!(found.is_empty());
}

#[test]
fn chain_contains_and_agreement() {
    let g = diamond();
    assert!(supertype_chain_contains(&g, "C", "f:c", "Root"));
    assert!(!supertype_chain_contains(&g, "A", "f:a", "Unknown"));
    assert_eq!(receiver_type_agreement(&g, "C", "f:c", "C", false), ReceiverTypeAgreement::Exact);
    assert_eq!(
        receiver_type_agreement(&g, "C", "f:c", "Base", true),
        ReceiverTypeAgreement::Inherited
    );
    assert_eq!(
        receiver_type_agreement(&g, "A", "f:a", "Unknown", true),
        ReceiverTypeAgreement::Unrelated
    );
    assert_eq!(
        receiver_type_agreement(&g, "A", "f:a", "Unknown", false),
        ReceiverTypeAgreement::Unresolvable
    );
}

fn class_symbol(name: &str, line: u32) -> SymbolEntry {
    let r = Range { start: Position { line, character: 6 }, end: Position { line, character: 12 } };
    SymbolEntry {
        name: name.into(),
        kind: SymbolKind::Class,
        visibility: Visibility::Public,
        range: r,
        selection_range: r,
        detail: String::new(),
        params: String::new(),
        param_counts: (0, 0),
        container: None,
        cold: None,
        trailing_lambda: false,
        deprecated: false,
    }
}

#[test]
fn super_names_are_read_from_the_class_line() {
    let file = FileData {
        symbols: vec![class_symbol("Screen", 2), class_symbol("Dialog", 9)],
        imports: Vec::new(),
        package: None,
        lines: Vec::new(),
        declared_names: Vec::new(),
        source_set: SourceSet::Main,
        supers: vec![
            (2, "BaseScreen".into(), vec!["State".into()]),
            (2, "Tracking".into(), vec![]),
            (9, "DialogFragment".into(), vec![]),
        ],
    };
    assert_eq!(super_names_for_class(&file, "Screen"), vec!["BaseScreen", "Tracking"]);
    assert_eq!(super_names_for_class(&file, "Dialog"), vec!["DialogFragment"]);
    assert_eq!(super_names_for_class(&file, ""), vec!["BaseScreen", "Tracking", "DialogFragment"]);
    assert_eq!(super_names_for_class(&file, "Unknown"), vec!["BaseScreen", "Tracking", "DialogFragment"]);
}

#[test]
fn supertype_spellings() {
    let plain = supertype_spelling("Base");
    assert_eq!(plain.leaf, "Base");
    assert!(plain.qualified.is_none());
    let qualified = supertype_spelling("com.lib.Outer.Inner");
    assert_eq!(qualified.leaf, "Inner");
    assert_eq!(
        qualified.qualified,
        Some((Some("com.lib".to_string()), "Outer".to_string(), vec!["Inner".to_string()]))
    );
    let nested = supertype_spelling("Outer.Inner");
    assert_eq!(nested.qualified, Some((None, "Outer".to_string(), vec!["Inner".to_string()])));
    let package_only = supertype_spelling("com.lib.base");
    assert_eq!(package_only.leaf, "base");
    assert!(package_only.qualified.is_none());
}

// The graphs below are what the index records for the quoted Kotlin source
// in `file:///t/D.kt`.

const D_KT: &str = "file:///t/D.kt";

#[test]
fn exact_type_match_is_exact() {
    // class User
    let g = SupertypeGraph { nodes: vec![edges(("User", D_KT), &[])] };
    assert_eq!(receiver_type_agreement(&g, "User", D_KT, "User", true), ReceiverTypeAgreement::Exact);
}

#[test]
fn subtype_of_target_is_inherited() {
    // open class User
    // class DerivedUser : User()
    let g = SupertypeGraph {
        nodes: vec![edges(("User", D_KT), &[]), edges(("DerivedUser", D_KT), &[("User", D_KT)])],
    };
    assert!(supertype_chain_contains(&g, "DerivedUser", D_KT, "User"));
    assert_eq!(
        receiver_type_agreement(&g, "DerivedUser", D_KT, "User", true),
        ReceiverTypeAgreement::Inherited
    );
}

#[test]
fn unrelated_indexed_type_is_unrelated() {
    // class User
    // class File
    let g = SupertypeGraph { nodes: vec![edges(("User", D_KT), &[]), edges(("File", D_KT), &[])] };
    assert!(!supertype_chain_contains(&g, "File", D_KT, "User"));
    assert_eq!(receiver_type_agreement(&g, "File", D_KT, "User", true), ReceiverTypeAgreement::Unrelated);
}

#[test]
fn unindexed_type_is_unresolvable_not_unrelated() {
    // class User — "Ghost" is never declared anywhere, so it has no type
    // definition and nothing may be claimed about it.
    let g = SupertypeGraph { nodes: vec![edges(("User", D_KT), &[])] };
    assert_eq!(
        receiver_type_agreement(&g, "Ghost", D_KT, "User", false),
        ReceiverTypeAgreement::Unresolvable
    );
}

/// A two-level hierarchy: the target is a grandparent, not the immediate
/// supertype.
#[test]
fn transitive_supertype_is_inherited() {
    // open class Base
    // open class Middle : Base()
    // class Leaf : Middle()
    let g = SupertypeGraph {
        nodes: vec![
            edges(("Base", D_KT), &[]),
            edges(("Middle", D_KT), &[("Base", D_KT)]),
            edges(("Leaf", D_KT), &[("Middle", D_KT)]),
        ],
    };
    assert_eq!(receiver_type_agreement(&g, "Leaf", D_KT, "Base", true), ReceiverTypeAgreement::Inherited);
}

// ─── Supertype edges through the ambiguity-safe tie-breaks ─────────────────
//
// Each test states, as candidate lists, what the index holds for the
// supertype names of the quoted source; the edges are chosen by
// `supertype_edges` and walked by `walk_hierarchy`.

fn gradle_cache_jar_uri(group: &str, artifact: &str, version: &str) -> String {
    format!(
        "jar:file:///home/user/.gradle/caches/modules-2/files-2.1/{group}/{artifact}/{version}/deadbeef/{artifact}-{version}.jar"
    )
}

fn at(uri: &str, line: u32) -> Location {
    Location {
        uri: uri.to_owned(),
        range: Range { start: Position { line, character: 0 }, end: Position { line, character: 8 } },
    }
}

fn candidate(uri: &str, package: Option<&str>, module_dependency: bool) -> Candidate {
    Candidate { location: at(uri, 0), package: package.map(|p| p.to_owned()), module_dependency }
}

fn one_super(spelling: &str, candidates: Vec<Candidate>) -> Vec<SupertypeCandidates> {
    vec![SupertypeCandidates { spelling: spelling.to_owned(), candidates }]
}

fn no_origin_data() -> TieBreakOrigin {
    TieBreakOrigin { module_data_known: false, imports: Some(Vec::new()) }
}

fn targets(e: &SupertypeEdges) -> Vec<(String, String)> {
    e.supers.iter().map(|t| (t.name.clone(), t.uri.clone())).collect()
}

const BAR: &str = "file:///t/app/Bar.kt";

/// class Bar : Activity() — with two unrelated `Activity` classes indexed,
/// `com.example.decoy` and `com.example.real`: the tail must decline.
#[test]
fn ambiguous_same_name_supertype_declines_instead_of_guessing() {
    let e = supertype_edges(
        t("Bar", BAR),
        &one_super(
            "Activity",
            vec![
                candidate("file:///t/decoy/Activity.kt", Some("com.example.decoy"), false),
                candidate("file:///t/real/Activity.kt", Some("com.example.real"), false),
            ],
        ),
        &no_origin_data(),
    );
    assert!(targets(&e).is_empty(), "expected the ambiguous tail to decline");
}

/// The `com.android.internal.*` decoy (indexed first) is dropped from a
/// two-way tie, leaving `android.app.Activity`.
#[test]
fn denylisted_package_candidate_is_deprioritized_in_favor_of_the_other() {
    let e = supertype_edges(
        t("Bar", BAR),
        &one_super(
            "Activity",
            vec![
                candidate("file:///t/internal/Activity.kt", Some("com.android.internal.telephony"), false),
                candidate("file:///t/android/Activity.kt", Some("android.app"), false),
            ],
        ),
        &no_origin_data(),
    );
    let got = targets(&e);
    assert_eq!(got.len(), 1, "expected exactly one target, got {got:?}");
    assert_eq!(got[0].0, "Activity");
    assert!(got[0].1.ends_with("/android/Activity.kt"));
}

/// Neither `com.vendor.one` nor `com.vendor.two` is denylisted: no
/// preference may be invented between them.
#[test]
fn unlisted_package_prefix_is_never_deprioritized() {
    let e = supertype_edges(
        t("Bar", BAR),
        &one_super(
            "Activity",
            vec![
                candidate("file:///t/vendor1/Activity.kt", Some("com.vendor.one"), false),
                candidate("file:///t/vendor2/Activity.kt", Some("com.vendor.two"), false),
            ],
        ),
        &no_origin_data(),
    );
    assert!(targets(&e).is_empty(), "expected still-ambiguous decline (no denylist match)");
}

/// Both candidates are compiled-JAR only; the decoy's package is
/// `com.android.internal.telephony`.
#[test]
fn denylisted_jar_only_package_candidate_is_deprioritized_in_favor_of_the_other() {
    let decoy = gradle_cache_jar_uri("com.android.internal", "telephony-stubs", "1.0.0");
    let real = gradle_cache_jar_uri("android", "android-stubs", "34.0.0");
    let e = supertype_edges(
        t("Bar", BAR),
        &one_super(
            "Activity",
            vec![
                candidate(&decoy, Some("com.android.internal.telephony"), false),
                candidate(&real, Some("android.app"), false),
            ],
        ),
        &no_origin_data(),
    );
    assert_eq!(targets(&e), vec![("Activity".to_owned(), real)]);
}

/// Two candidates in one multi-package JAR: the per-symbol package (line 0
/// is really `com.android.internal.*`) decides, not the file's first-symbol
/// package guess.
#[test]
fn denylisted_check_uses_the_real_per_symbol_package_not_the_jars_first_symbol_guess() {
    let same_jar = gradle_cache_jar_uri("android", "multi-pkg-stubs", "1.0.0");
    let decoy = Candidate {
        location: at(&same_jar, 0),
        package: Some("com.android.internal.telephony".to_owned()),
        module_dependency: false,
    };
    let real = Candidate { location: at(&same_jar, 1), package: Some("android.app".to_owned()), module_dependency: false };
    let locs = ambiguity_safe_tail_with_denylist(&no_origin_data(), vec![decoy, real]);
    assert_eq!(locs.len(), 1);
    assert_eq!(locs[0].location.uri, same_jar);
    assert_eq!(locs[0].location.range, at(&same_jar, 1).range);
}

/// CallUsActivity → AppCompatActivity → FragmentActivity → ComponentActivity
/// → Activity, with a `com.android.internal.*` decoy `Activity` indexed
/// first at the last hop.
#[test]
fn four_hop_walk_reaches_the_real_ancestor_past_a_denylisted_decoy() {
    let call_us = "file:///t/app/CallUsActivity.kt";
    let appcompat = "file:///t/appcompat/AppCompatActivity.kt";
    let fragment = "file:///t/fragment/FragmentActivity.kt";
    let component = "file:///t/core/ComponentActivity.kt";
    let origin = no_origin_data();
    let g = SupertypeGraph {
        nodes: vec![
            supertype_edges(
                t("CallUsActivity", call_us),
                &one_super("AppCompatActivity", vec![candidate(appcompat, Some("androidx.appcompat.app"), false)]),
                &origin,
            ),
            supertype_edges(
                t("AppCompatActivity", appcompat),
                &one_super("FragmentActivity", vec![candidate(fragment, Some("androidx.fragment.app"), false)]),
                &origin,
            ),
            supertype_edges(
                t("FragmentActivity", fragment),
                &one_super("ComponentActivity", vec![candidate(component, Some("androidx.core.app"), false)]),
                &origin,
            ),
            supertype_edges(
                t("ComponentActivity", component),
                &one_super(
                    "Activity",
                    vec![
                        candidate("file:///t/internal/Activity.kt", Some("com.android.internal.telephony"), false),
                        candidate("file:///t/android/Activity.kt", Some("android.app"), false),
                    ],
                ),
                &origin,
            ),
        ],
    };
    let items = walk_hierarchy(&g, "CallUsActivity", call_us, 12);
    assert!(items.iter().any(|r| r.name == "Activity" && r.uri.ends_with("/android/Activity.kt")));
    assert!(!items.iter().any(|r| r.name == "Activity" && r.uri.contains("/internal/")));
}

/// Two JAR-backed `Activity` candidates; the calling module depends on
/// `com.example.real:real-lib:2.0.0` only.
#[test]
fn module_scoped_tie_break_narrows_jar_collision_to_the_calling_modules_dependency() {
    let decoy = gradle_cache_jar_uri("com.example.decoy", "decoy-lib", "1.0.0");
    let real = gradle_cache_jar_uri("com.example.real", "real-lib", "2.0.0");
    let origin = TieBreakOrigin { module_data_known: true, imports: Some(Vec::new()) };
    let e = supertype_edges(
        t("Bar", BAR),
        &one_super("Activity", vec![candidate(&decoy, None, false), candidate(&real, None, true)]),
        &origin,
    );
    assert_eq!(targets(&e), vec![("Activity".to_owned(), real)]);
}

#[test]
fn no_module_dependency_data_still_declines_on_jar_collision() {
    let decoy = gradle_cache_jar_uri("com.example.decoy", "decoy-lib", "1.0.0");
    let real = gradle_cache_jar_uri("com.example.real", "real-lib", "2.0.0");
    let e = supertype_edges(
        t("Bar", BAR),
        &one_super("Activity", vec![candidate(&decoy, None, false), candidate(&real, None, false)]),
        &no_origin_data(),
    );
    assert!(targets(&e).is_empty());
}

/// A four-hop JAR-backed chain whose last hop collides; the walk's real
/// origin module depends on `android:android-stubs:34.0.0`.
#[test]
fn module_scoped_tie_break_narrows_a_hop_four_jar_collision_using_the_walks_real_origin() {
    let call_us = "file:///t/app/CallUsActivity.kt";
    let appcompat = gradle_cache_jar_uri("androidx.appcompat", "appcompat", "1.6.1");
    let fragment = gradle_cache_jar_uri("androidx.fragment", "fragment", "1.6.1");
    let component = gradle_cache_jar_uri("androidx.activity", "activity", "1.7.0");
    let decoy = gradle_cache_jar_uri("com.example.decoy", "decoy-lib", "1.0.0");
    let real = gradle_cache_jar_uri("android", "android-stubs", "34.0.0");
    let origin = TieBreakOrigin { module_data_known: true, imports: Some(Vec::new()) };
    let g = SupertypeGraph {
        nodes: vec![
            supertype_edges(
                t("CallUsActivity", call_us),
                &one_super("AppCompatActivity", vec![candidate(&appcompat, None, false)]),
                &origin,
            ),
            supertype_edges(
                t("AppCompatActivity", &appcompat),
                &one_super("FragmentActivity", vec![candidate(&fragment, None, false)]),
                &origin,
            ),
            supertype_edges(
                t("FragmentActivity", &fragment),
                &one_super("ComponentActivity", vec![candidate(&component, None, false)]),
                &origin,
            ),
            supertype_edges(
                t("ComponentActivity", &component),
                &one_super("Activity", vec![candidate(&decoy, None, false), candidate(&real, None, true)]),
                &origin,
            ),
        ],
    };
    let items = walk_hierarchy(&g, "CallUsActivity", call_us, 12);
    assert!(items.iter().any(|r| r.name == "Activity" && r.uri == real));
}

#[test]
fn collecting_walk_concatenates_what_each_visited_supertype_gives() {
    let g = diamond();
    let names = walk_hierarchy_collecting(&g, "C", "f:c", 10, |t: &TypeRef| vec![t.name.clone()]);
    assert_eq!(names, vec!["A", "Base", "Root", "B"]);
    let members = walk_hierarchy_collecting(&g, "C", "f:c", 10, |t: &TypeRef| {
        if t.name == "Base" { vec!["Base.a".to_string(), "Base.b".to_string()] } else { Vec::new() }
    });
    assert_eq!(members, vec!["Base.a", "Base.b"]);
    assert!(walk_hierarchy_collecting(&g, "C", "f:c", 0, |t: &TypeRef| vec![t.name.clone()]).is_empty());
    assert_eq!(walk_hierarchy_collecting(&g, "C", "f:c", 1, |t: &TypeRef| vec![t.uri.clone()]), vec!["f:a", "f:b"]);
}
