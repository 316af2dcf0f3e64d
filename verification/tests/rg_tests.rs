use kt_resolver::rg::{
    is_declaration_occurrence_at, is_declaration_of, is_java_method_declaration_at,
    is_unusable_producer_name, parse_rg_line, rg_hit_location, split_rg_line,
    type_annotation_matches_owner,
};

#[test]
fn parse_rg_line_basic() {
    let line = "/home/user/project/Foo.kt:10:5:class Foo {";

    let loc = parse_rg_line(line).unwrap();
    assert_eq!(loc.range.start.line, 9); // 1-indexed → 0-indexed
    assert_eq!(loc.range.start.character, 4);
    assert_eq!(loc.uri, "file:///home/user/project/Foo.kt");
}

#[test]
fn rg_line_relative_path_ignored() {
    // Before the fix this would panic / produce a wrong URI
    let line = "src/Foo.kt:10:5:class Foo {";
    assert!(
        parse_rg_line(line).is_none(),
        "relative paths must be ignored"
    );
}

#[test]
fn rg_line_fields_need_numbers() {
    assert!(split_rg_line("/a/B.kt:x:5:text").is_none());
    assert!(split_rg_line("/a/B.kt:10").is_none());
    assert!(split_rg_line("/a/B.kt:99999999999:1:t").is_none());
    let f = split_rg_line("C:/a/B.kt:3:7:val x: Int").unwrap();
    assert_eq!(f.path, "C:/a/B.kt");
    assert_eq!((f.line, f.column), (3, 7));
}

#[test]
fn is_declaration_of_matches_exact_name() {
    assert!(is_declaration_of("    fun create(): Foo", "create"));
    assert!(is_declaration_of("    fun create(x: Int): Foo", "create"));
    assert!(is_declaration_of("val create: Factory", "create"));
}

#[test]
fn is_declaration_of_rejects_longer_name_with_same_prefix() {
    // "fun createWidget" must NOT be treated as a declaration of "create"
    assert!(!is_declaration_of(
        "    fun createWidget(): Widget",
        "create"
    ));
    assert!(!is_declaration_of(
        "    fun createReducer() = factory.create()",
        "create"
    ));
    assert!(!is_declaration_of(
        "    fun createAccount(name: String): Account",
        "create"
    ));
}

#[test]
fn is_declaration_of_rejects_call_site_in_non_declaration() {
    assert!(!is_declaration_of("    val x = factory.create()", "create"));
    assert!(!is_declaration_of(
        "    fun build() = factory.create()",
        "create"
    ));
}

#[test]
fn decl_occurrence_at_fun_declaration() {
    // "    fun getRate()" — col of 'g' is 8 (after "    fun ")
    let line = "    fun getRate(): Int";
    let col = line.find("getRate").unwrap() as u32;
    assert!(is_declaration_occurrence_at(line, col));
}

#[test]
fn decl_occurrence_at_override_fun_declaration() {
    // "    override fun getRate()" — the 'g' is a declaration
    let line = "    override fun getRate(): Int";
    let col = line.find("getRate").unwrap() as u32;
    assert!(is_declaration_occurrence_at(line, col));
}

#[test]
fn decl_occurrence_at_call_site_is_not_declaration() {
    // "    return delegate.getRate()" — the 'g' in 'getRate' is a call site
    let line = "    return delegate.getRate()";
    let col = line.find("getRate").unwrap() as u32;
    assert!(!is_declaration_occurrence_at(line, col));
}

#[test]
fn decl_occurrence_at_second_occurrence_is_call_site() {
    // Expression-body override: first `getRate` is the declaration, second is a call.
    let line = "    override fun getRate() = delegate.getRate()";
    let first_col = line.find("getRate").unwrap() as u32;
    let second_col = line.rfind("getRate").unwrap() as u32;
    assert!(
        is_declaration_occurrence_at(line, first_col),
        "first occurrence should be a declaration"
    );
    assert!(
        !is_declaration_occurrence_at(line, second_col),
        "second occurrence (call site) should not be a declaration"
    );
}

#[test]
fn decl_occurrence_at_does_not_match_longer_prefixed_identifier() {
    // "    fun notafun getRate()" — prefix ends with "notafun", not keyword "fun"
    let line = "    val notafunRate = 1";
    let col = line.find("Rate").unwrap() as u32;
    assert!(!is_declaration_occurrence_at(line, col));
}

#[test]
fn java_method_declaration_recognises_semicolon_form() {
    // Interface / abstract method — no body, ends with `;`
    assert!(is_java_method_declaration_at(
        "    void process(String input);",
        "process",
        9
    ));
    // Normal concrete method — ends with `{`
    assert!(is_java_method_declaration_at(
        "    void process(String input) {",
        "process",
        9
    ));
    // Abstract with throws clause
    assert!(is_java_method_declaration_at(
        "    void process(String input) throws IOException;",
        "process",
        9
    ));
    // Call site — ends with `);` should NOT be treated as a declaration
    assert!(!is_java_method_declaration_at(
        "        obj.process(input);",
        "process",
        12
    ));
    // Dot-qualified call
    assert!(!is_java_method_declaration_at(
        "    helper.process(x);",
        "process",
        11
    ));
}

#[test]
fn type_annotation_matches_owner_accepts_nested_type_shape() {
    assert!(
        type_annotation_matches_owner("Reducer.Factory", "Reducer"),
        "a member declared to return `Owner.Nested` explicitly mentions `Owner` \
         as its first segment and must count as a producer of `Owner`"
    );
}

#[test]
fn type_annotation_matches_owner_accepts_fully_qualified_shape() {
    assert!(
        type_annotation_matches_owner("a.Body", "Body"),
        "a member declared to return a fully-qualified `pkg.Owner` explicitly \
         mentions `Owner` as its last segment and must count as a producer of `Owner`"
    );
}

#[test]
fn type_annotation_matches_owner_rejects_unrelated_dotted_type() {
    assert!(
        !type_annotation_matches_owner("a.Other", "Body"),
        "a dotted type whose segments do not include `Body` at all must not match"
    );
}

#[test]
fn is_unusable_producer_name_detects_the_synthesized_data_class_copy() {
    assert!(is_unusable_producer_name("copy"));
}

#[test]
fn is_unusable_producer_name_detects_the_synthesized_enum_members() {
    assert!(is_unusable_producer_name("values"));
    assert!(is_unusable_producer_name("valueOf"));
    assert!(is_unusable_producer_name("entries"));
}

#[test]
fn is_unusable_producer_name_does_not_match_a_differently_named_producer() {
    assert!(!is_unusable_producer_name("openBody"));
}

// ─── further cases ──────────────────────────────────────────────────────────

#[test]
fn declaration_through_extension_receiver_and_type_parameters() {
    let line = "fun <T> List<T>.second(): T";
    let col = line.find("second").unwrap() as u32;
    assert!(is_declaration_occurrence_at(line, col));
    assert!(is_declaration_of("class Widget(val x: Int)", "Widget"));
    assert!(!is_declaration_of("return Widget(1)", "Widget"));
}

#[test]
fn java_statement_keyword_before_call_is_not_a_return_type() {
    assert!(!is_java_method_declaration_at("    return process(x);", "process", 11));
    assert!(is_java_method_declaration_at("    List<String> process(int a) {", "process", 17));
}

#[test]
fn type_annotation_ignores_generics_and_nullability() {
    assert!(type_annotation_matches_owner("Body<T>?", "Body"));
    assert!(!type_annotation_matches_owner("Bodyguard", "Body"));
}

#[test]
fn hit_location_uses_zero_based_positions_and_needs_a_url() {
    let fields = split_rg_line("/src/Foo.kt:12:5:class Foo").unwrap();
    let loc = rg_hit_location(&fields, Some("file:///src/Foo.kt".to_string())).unwrap();
    assert_eq!(loc.uri, "file:///src/Foo.kt");
    assert_eq!(loc.range.start.line, 11);
    assert_eq!(loc.range.start.character, 4);
    assert_eq!(loc.range.start, loc.range.end);
    let zero = split_rg_line("/src/Foo.kt:0:0:x").unwrap();
    let loc = rg_hit_location(&zero, Some("file:///src/Foo.kt".to_string())).unwrap();
    assert_eq!((loc.range.start.line, loc.range.start.character), (0, 0));
    assert!(rg_hit_location(&fields, None).is_none());
}
