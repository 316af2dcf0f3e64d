use kt_resolver::infer::apply_supertype_subst;
use kt_resolver::infer_lines::{
    extract_fn_type_return, extract_property_type_from_detail, extract_return_type_from_detail,
    find_outer_arrow, has_dot_after_first_call, line_declared_type,
};

#[test]
fn return_type_simple() {
    assert_eq!(
        extract_return_type_from_detail("fun getDetail(req: Req): AccountDetail"),
        Some("AccountDetail".into()),
    );
}

#[test]
fn return_type_generic() {
    assert_eq!(
        extract_return_type_from_detail(
            "fun getAccountDetail(body: Body): Response<AccountDetail>"
        ),
        Some("Response<AccountDetail>".into()),
    );
}

#[test]
fn return_type_unit_returns_none() {
    assert_eq!(
        extract_return_type_from_detail("fun doSomething(x: Int)"),
        None
    );
}

#[test]
fn return_type_primitive_returns_none() {
    assert_eq!(extract_return_type_from_detail("fun count(): int"), None);
}

#[test]
fn return_type_nullable_stripped() {
    assert_eq!(
        extract_return_type_from_detail("fun find(): User?"),
        Some("User".into()),
    );
}

#[test]
fn has_dot_after_first_call_chained() {
    // paren_pos=7: "getList" is 7 chars, then "("
    assert!(has_dot_after_first_call("getList(isRefresh).joinAll()", 7));
}

#[test]
fn has_dot_after_first_call_standalone() {
    assert!(!has_dot_after_first_call(
        "getConnectedAccounts(isRefresh)",
        20
    ));
}

#[test]
fn has_dot_after_first_call_nested_parens() {
    // Nested parens inside arg list must not fool the scanner.
    assert!(has_dot_after_first_call("getList(foo(x)).map()", 7));
}

#[test]
fn supertype_subst_replaces_generic_params() {
    let raw = "Flow<ReducedResult<EffectType, StateType>>";
    let params: Vec<String> = vec!["EventType".into(), "EffectType".into(), "StateType".into()];
    let args: Vec<String> = vec![
        "BuildingSavingsInputEvent".into(),
        "BuildingSavingsEffect".into(),
        "Sheet".into(),
    ];
    assert_eq!(
        apply_supertype_subst(raw, &params, &args),
        "Flow<ReducedResult<BuildingSavingsEffect, Sheet>>"
    );
}

#[test]
fn supertype_subst_whole_word_only() {
    let raw = "EventTypeHandler<EventType>";
    let params: Vec<String> = vec!["EventType".into()];
    let args: Vec<String> = vec!["Click".into()];
    // "EventType" inside "EventTypeHandler" should NOT be replaced
    assert_eq!(
        apply_supertype_subst(raw, &params, &args),
        "EventTypeHandler<Click>"
    );
}

#[test]
fn property_type_extension_with_receiver() {
    assert_eq!(
        extract_property_type_from_detail(
            "val ViewModel.viewModelScope: CoroutineScope get() = TODO()"
        ),
        Some("CoroutineScope".into()),
    );
}

#[test]
fn property_type_with_public_visibility_prefix() {
    assert_eq!(
        extract_property_type_from_detail("public val ViewModel.viewModelScope: CoroutineScope"),
        Some("CoroutineScope".into()),
    );
}

#[test]
fn property_type_with_internal_visibility_prefix() {
    assert_eq!(
        extract_property_type_from_detail("internal var MyClass.count: Int"),
        Some("Int".into()),
    );
}

#[test]
fn property_type_with_protected_visibility_prefix() {
    assert_eq!(
        extract_property_type_from_detail("protected val Base.tag: String"),
        Some("String".into()),
    );
}

#[test]
fn property_type_simple() {
    assert_eq!(
        extract_property_type_from_detail("val items: List<Product>"),
        Some("List<Product>".into()),
    );
}

#[test]
fn property_type_no_keyword_returns_none() {
    assert_eq!(
        extract_property_type_from_detail("fun doSomething(): Int"),
        None,
    );
}

// ─── further cases ──────────────────────────────────────────────────────────

#[test]
fn return_type_keeps_nested_generics_and_skips_parameter_parens() {
    assert_eq!(
        extract_return_type_from_detail("fun load(cb: (Int) -> Unit): Flow<Map<K, V>>?"),
        Some("Flow<Map<K, V>>".into()),
    );
}

#[test]
fn return_type_without_parameter_list_is_none() {
    assert_eq!(extract_return_type_from_detail("val x: Int"), None);
}

#[test]
fn return_type_unclosed_parameter_list_is_none() {
    assert_eq!(extract_return_type_from_detail("fun f(a: Int: Foo"), None);
}

#[test]
fn has_dot_after_first_call_unclosed_is_false() {
    assert!(!has_dot_after_first_call("getList(foo(x).map()", 7));
}

#[test]
fn has_dot_after_first_call_position_past_end_is_false() {
    assert!(!has_dot_after_first_call("f()", 10));
}

#[test]
fn property_type_stops_at_initializer_and_strips_nullable() {
    assert_eq!(
        extract_property_type_from_detail("private var user: User? = null"),
        Some("User".into()),
    );
}

#[test]
fn property_type_word_containing_val_is_not_a_keyword() {
    assert_eq!(extract_property_type_from_detail("fun interval: Long"), None);
}

#[test]
fn property_type_without_colon_is_none() {
    assert_eq!(extract_property_type_from_detail("val items = listOf()"), None);
}

#[test]
fn line_declared_type_finds_annotated_property() {
    assert_eq!(
        line_declared_type("    private val repo: Repository<User>? = null", "repo"),
        Some("Repository<User>?".into()),
    );
}

#[test]
fn line_declared_type_requires_whole_word_and_single_colon() {
    assert_eq!(line_declared_type("val repository: Repo", "repo"), None);
    assert_eq!(line_declared_type("repo::class", "repo"), None);
    assert_eq!(
        line_declared_type("fun f(x: Int, repo: Store)", "repo"),
        Some("Store".into())
    );
}

#[test]
fn outer_arrow_skips_parenthesised_arrows() {
    assert_eq!(find_outer_arrow("((Foo) -> Bar) -> Baz"), Some(14));
    assert_eq!(find_outer_arrow("Int"), None);
}

#[test]
fn fn_type_return_examples() {
    assert_eq!(
        extract_fn_type_return("(isRefresh: Boolean) -> Flow<ResultState<T>>"),
        Some("Flow<ResultState<T>>".into())
    );
    assert_eq!(extract_fn_type_return("() -> Unit"), Some("Unit".into()));
    assert_eq!(extract_fn_type_return("((Foo) -> Bar) -> Baz"), Some("Baz".into()));
    assert_eq!(extract_fn_type_return("() ->   "), None);
    assert_eq!(extract_fn_type_return("Foo"), None);
}
