//! Standard-library package detection and the Kotlin built-in type →
//! JVM platform type fallback.

use vstd::prelude::*;

use crate::imports::str_in;
use crate::segments::{
    first_segment, first_segment_str, join_char, join_strings, last_segment, last_segment_str,
    split_char, split_str,
};
use crate::text::{seq_starts_with, starts_with, str_chars};
use crate::types::str_eq;

verus! {

/// Root packages whose sources are not present in a typical project: the
/// Kotlin/Java/Android platforms and the standard Swift frameworks.
pub open spec fn stdlib_roots() -> Seq<Seq<char>> {
    seq![
        "kotlin"@,
        "java"@,
        "javax"@,
        "android"@,
        "androidx"@,
        "sun"@,
        "Foundation"@,
        "UIKit"@,
        "SwiftUI"@,
        "Combine"@,
        "CoreData"@,
        "CoreGraphics"@,
        "CoreLocation"@,
        "MapKit"@,
        "AVFoundation"@,
        "WebKit"@,
        "StoreKit"@,
        "GameKit"@,
        "ARKit"@,
        "RealityKit"@,
        "Swift"@,
        "ObjectiveC"@,
        "Darwin"@,
        "Dispatch"@,
        "os"@,
    ]
}

/// A package whose sources a typical project does not ship: anything under
/// `com.sun`, or whose first segment is one of [`stdlib_roots`].
pub open spec fn stdlib_package(pkg: Seq<char>) -> bool {
    seq_starts_with(pkg, "com.sun"@) || stdlib_roots().contains(first_segment(pkg))
}

/// Returns true for packages whose sources aren't present in a typical
/// project (see [`stdlib_package`]).
pub fn is_stdlib(pkg: &str) -> (r: bool)
    ensures
        r == stdlib_package(pkg@),
{
    if starts_with(&str_chars(pkg), &str_chars("com.sun")) {
        return true;
    }
    let first = first_segment_str(pkg);
    let roots: [&str; 25] = [
        "kotlin",
        "java",
        "javax",
        "android",
        "androidx",
        "sun",
        "Foundation",
        "UIKit",
        "SwiftUI",
        "Combine",
        "CoreData",
        "CoreGraphics",
        "CoreLocation",
        "MapKit",
        "AVFoundation",
        "WebKit",
        "StoreKit",
        "GameKit",
        "ARKit",
        "RealityKit",
        "Swift",
        "ObjectiveC",
        "Darwin",
        "Dispatch",
        "os",
    ];
    let r = str_in(first, roots.as_slice());
    assert(roots@.map_values(|c: &str| c@) =~= stdlib_roots());
    r
}

/// Kotlin's compiler-intrinsic built-in types that have no compiled class
/// of their own, each with the JVM platform type the compiler substitutes.
pub open spec fn builtin_platform_types() -> Seq<(Seq<char>, Seq<char>)> {
    seq![
        ("String"@, "java.lang.String"@),
        ("CharSequence"@, "java.lang.CharSequence"@),
        ("List"@, "java.util.List"@),
        ("MutableList"@, "java.util.List"@),
        ("Set"@, "java.util.Set"@),
        ("MutableSet"@, "java.util.Set"@),
        ("Map"@, "java.util.Map"@),
        ("MutableMap"@, "java.util.Map"@),
        ("Collection"@, "java.util.Collection"@),
        ("MutableCollection"@, "java.util.Collection"@),
        ("Iterable"@, "java.lang.Iterable"@),
        ("MutableIterable"@, "java.lang.Iterable"@),
        ("Iterator"@, "java.util.Iterator"@),
        ("MutableIterator"@, "java.util.Iterator"@),
        ("Int"@, "java.lang.Integer"@),
        ("Long"@, "java.lang.Long"@),
        ("Double"@, "java.lang.Double"@),
        ("Float"@, "java.lang.Float"@),
        ("Boolean"@, "java.lang.Boolean"@),
        ("Byte"@, "java.lang.Byte"@),
        ("Short"@, "java.lang.Short"@),
        ("Char"@, "java.lang.Character"@),
    ]
}

/// The platform type of the first entry of `table` at or after `i` whose
/// built-in name is `name`.
pub open spec fn platform_lookup_from(table: Seq<(Seq<char>, Seq<char>)>, name: Seq<char>, i: int) -> Option<
    Seq<char>,
>
    decreases table.len() - i,
{
    if i < 0 || i >= table.len() {
        None
    } else if table[i].0 == name {
        Some(table[i].1)
    } else {
        platform_lookup_from(table, name, i + 1)
    }
}

/// The JVM platform type that stands for the built-in type `name`, if any.
pub open spec fn builtin_platform_fqn(name: Seq<char>) -> Option<Seq<char>> {
    platform_lookup_from(builtin_platform_types(), name, 0)
}

/// Where the sources of a built-in type's platform equivalent live.
pub struct PlatformTarget {
    /// Fully-qualified platform type, e.g. `java.util.List`.
    pub fqn: String,
    /// Its own simple name, e.g. `List` (for `MutableList` too).
    pub simple_name: String,
    /// Its source file relative to a sources root, e.g. `java/util/List.java`.
    pub relative_path: String,
}

/// The platform equivalent of the built-in type `name`: its fully-qualified
/// name, its simple name (the last segment) and its source path (segments
/// joined by `/`, then `.java`); `None` for any other name.
pub fn builtin_type_platform_target(name: &str) -> (r: Option<PlatformTarget>)
    ensures
        match r {
            Some(t) => builtin_platform_fqn(name@) == Some(t.fqn@) && t.simple_name@ == last_segment(
                t.fqn@,
            ) && t.relative_path@ == join_char(split_char(t.fqn@, '.'), '/') + ".java"@,
            None => builtin_platform_fqn(name@) is None,
        },
{
    let table: [(&str, &str); 22] = [
        ("String", "java.lang.String"),
        ("CharSequence", "java.lang.CharSequence"),
        ("List", "java.util.List"),
        ("MutableList", "java.util.List"),
        ("Set", "java.util.Set"),
        ("MutableSet", "java.util.Set"),
        ("Map", "java.util.Map"),
        ("MutableMap", "java.util.Map"),
        ("Collection", "java.util.Collection"),
        ("MutableCollection", "java.util.Collection"),
        ("Iterable", "java.lang.Iterable"),
        ("MutableIterable", "java.lang.Iterable"),
        ("Iterator", "java.util.Iterator"),
        ("MutableIterator", "java.util.Iterator"),
        ("Int", "java.lang.Integer"),
        ("Long", "java.lang.Long"),
        ("Double", "java.lang.Double"),
        ("Float", "java.lang.Float"),
        ("Boolean", "java.lang.Boolean"),
        ("Byte", "java.lang.Byte"),
        ("Short", "java.lang.Short"),
        ("Char", "java.lang.Character"),
    ];
    let ghost spec_table = builtin_platform_types();
    assert(table@.map_values(|e: (&str, &str)| (e.0@, e.1@)) =~= spec_table);
    let mut i: usize = 0;
    while i < table.len()
        invariant
            i <= table@.len(),
            table@.len() == spec_table.len(),
            spec_table == builtin_platform_types(),
            table@.map_values(|e: (&str, &str)| (e.0@, e.1@)) == spec_table,
            platform_lookup_from(spec_table, name@, 0) == platform_lookup_from(
                spec_table,
                name@,
                i as int,
            ),
        decreases table.len() - i,
    {
        let (builtin, fqn) = table[i];
        assert(spec_table[i as int] == (builtin@, fqn@));
        if str_eq(builtin, name) {
            let simple_name = last_segment_str(fqn).to_owned();
            proof {
                reveal_strlit("/");
            }
            let mut relative_path = join_strings(&split_str(fqn, '.'), "/");
            relative_path.append(".java");
            return Some(
                PlatformTarget { fqn: fqn.to_owned(), simple_name, relative_path },
            );
        }
        i = i + 1;
    }
    None
}

} // verus!
