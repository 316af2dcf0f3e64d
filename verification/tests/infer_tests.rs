use kt_resolver::infer::{apply_supertype_subst, strip_generics, windowed_infer_type_raw, ReceiverType};

#[test]
fn strip_generics_examples() {
    assert_eq!(strip_generics("List<Product>"), "List");
    assert_eq!(strip_generics("String?"), "String");
    assert_eq!(strip_generics("Outer.Inner<T>"), "Outer.Inner");
    assert_eq!(strip_generics("Outer..<T>"), "Outer");
    assert_eq!(strip_generics("<T>"), "");
}

#[test]
fn receiver_type_forms() {
    let r = ReceiverType::from_raw("Outer.Inner<Param>?".to_owned());
    assert_eq!(r.raw, "Outer.Inner<Param>?");
    assert_eq!(r.qualified, "Outer.Inner");
    assert_eq!(r.outer, "Outer");
    assert_eq!(r.leaf, "Inner");
    assert!(r.nullable);
}

#[test]
fn receiver_type_inner_question_mark_is_not_nullable() {
    let r = ReceiverType::from_raw("Box<String?>".to_owned());
    assert_eq!(r.qualified, "Box");
    assert_eq!(r.outer, "Box");
    assert_eq!(r.leaf, "Box");
    assert!(!r.nullable);
}

#[test]
fn supertype_subst_uses_pairs_as_far_as_both_lists_reach() {
    let params: Vec<String> = vec!["A".into(), "B".into()];
    let args: Vec<String> = vec!["X".into()];
    assert_eq!(apply_supertype_subst("Pair<A, B>", &params, &args), "Pair<X, B>");
}

#[test]
fn supertype_subst_leaves_parameters_inside_longer_words() {
    let params: Vec<String> = vec!["T".into()];
    let args: Vec<String> = vec!["Int".into()];
    assert_eq!(apply_supertype_subst("Box<TT>", &params, &args), "Box<TT>");
    assert_eq!(apply_supertype_subst("T_T", &params, &args), "T_T");
    assert_eq!(apply_supertype_subst("Pair<T,T>", &params, &args), "Pair<Int,Int>");
}

#[test]
fn supertype_subst_does_not_substitute_an_inserted_argument_again() {
    // class Sub<B> : Base<B, String>() with open class Base<A, B>
    let params: Vec<String> = vec!["A".into(), "B".into()];
    let args: Vec<String> = vec!["B".into(), "String".into()];
    assert_eq!(apply_supertype_subst("Map<A, B>", &params, &args), "Map<B, String>");
}

fn lines(v: &[&str]) -> Vec<String> {
    v.iter().map(|s| s.to_string()).collect()
}

#[test]
fn windowed_lookup_prefers_the_closest_declaration() {
    let src = lines(&[
        "class A(val event: AEvent)",
        "",
        "class B(",
        "    val event: BEvent,",
        ")",
    ]);
    assert_eq!(windowed_infer_type_raw(&src, "event", 3), Some("BEvent".into()));
    assert_eq!(windowed_infer_type_raw(&src, "event", 0), Some("AEvent".into()));
}

#[test]
fn windowed_lookup_breaks_ties_toward_the_earlier_line() {
    let src = lines(&["val x: Up", "", "val x: Down"]);
    assert_eq!(windowed_infer_type_raw(&src, "x", 1), Some("Up".into()));
}

#[test]
fn windowed_lookup_ignores_lines_outside_the_window() {
    let mut v = vec!["val far: Far".to_string()];
    for _ in 0..30 {
        v.push(String::new());
    }
    assert_eq!(windowed_infer_type_raw(&v, "far", 30), None);
    assert_eq!(windowed_infer_type_raw(&v, "far", 20), Some("Far".into()));
    assert_eq!(windowed_infer_type_raw(&v, "far", 1000), None);
}
