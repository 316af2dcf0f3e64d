use std::cell::RefCell;

use kt_resolver::infer::{infer_method_return_type, method_call_candidates};

fn strings(v: &[&str]) -> Vec<String> {
    v.iter().map(|s| s.to_string()).collect()
}

#[test]
fn initializer_calls_are_read_and_receivers_kept_once() {
    let rhs = strings(&[
        "repo.load(id)",
        " repo . save(x)",
        "this.refresh()",
        "a.b.c()",
        "Factory.Create()",
        "getItems().map { it }",
        "buildList(3)",
        "Widget()",
        "42",
    ]);
    let (members, plains) = method_call_candidates(&rhs);
    assert_eq!(members, vec![("repo".to_string(), "load".to_string())]);
    assert_eq!(plains, strings(&["buildList"]));
}

#[test]
fn receiver_calls_are_tried_before_plain_calls_and_the_first_answer_wins() {
    let rhs = strings(&["compute(1)", "store.flow()", "cache.get(k)"]);
    let asked = RefCell::new(Vec::new());
    let r = infer_method_return_type(
        &rhs,
        |recv: &String, method: &String| {
            asked.borrow_mut().push(format!("{recv}.{method}"));
            if recv == "cache" { Some("Entry".to_string()) } else { None }
        },
        |f: &String| {
            asked.borrow_mut().push(f.clone());
            Some("Int".to_string())
        },
    );
    assert_eq!(r.as_deref(), Some("Entry"));
    assert_eq!(*asked.borrow(), strings(&["store.flow", "cache.get"]));

    let r = infer_method_return_type(&rhs, |_r: &String, _m: &String| None, |f: &String| {
        if f == "compute" { Some("Int".to_string()) } else { None }
    });
    assert_eq!(r.as_deref(), Some("Int"));
    assert_eq!(infer_method_return_type(&rhs, |_r: &String, _m: &String| None, |_f: &String| None), None);
}

use kt_resolver::infer::{annotation_type, infer_variable_type_core, VarTypeStep};

#[test]
fn recorded_annotations_keep_or_strip_generics() {
    let anns = vec![
        (2, "repo".to_string(), "UserRepository".to_string()),
        (3, "state".to_string(), "StateFlow<UiState>?".to_string()),
    ];
    assert_eq!(annotation_type(&anns, "state", true).as_deref(), Some("StateFlow<UiState>?"));
    assert_eq!(annotation_type(&anns, "state", false).as_deref(), Some("StateFlow"));
    assert_eq!(annotation_type(&anns, "missing", false), None);
}

#[test]
fn variable_type_steps_run_in_order_until_one_answers() {
    let anns = vec![(2, "items".to_string(), "List<Product>".to_string())];
    let asked = RefCell::new(Vec::new());
    // An indexed file: the annotation answers before any scan.
    let r = infer_variable_type_core("items", 4, false, false, Some(&anns), |s: VarTypeStep| {
        asked.borrow_mut().push(s);
        None
    });
    assert_eq!(r.as_deref(), Some("List"));
    assert!(asked.borrow().is_empty());

    // Unsaved editor lines are scanned first.
    let r = infer_variable_type_core("other", 4, true, true, Some(&anns), |s: VarTypeStep| {
        asked.borrow_mut().push(s);
        if s == VarTypeStep::MethodCallInLiveLines { Some("Job".to_string()) } else { None }
    });
    assert_eq!(r.as_deref(), Some("Job"));
    assert_eq!(
        *asked.borrow(),
        vec![VarTypeStep::ScanLiveLines, VarTypeStep::Initializer, VarTypeStep::MethodCallInLiveLines]
    );

    // Neither open nor indexed: the file is read from disk; no depth left: nothing.
    let r = infer_variable_type_core("x", 1, false, false, None, |s: VarTypeStep| {
        if s == VarTypeStep::ScanDiskLines { Some("Int".to_string()) } else { None }
    });
    assert_eq!(r.as_deref(), Some("Int"));
    assert_eq!(infer_variable_type_core("x", 0, false, false, None, |_s: VarTypeStep| Some("Int".to_string())), None);
}
