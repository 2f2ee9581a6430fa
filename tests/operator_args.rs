use operatorargs::OperatorArgs;

fn pipeline_text() -> &'static str {
    "a_pipeline_for_testing:\n  globals:\n    x: 3\n    inv: true\n  steps:\n    - cart: {ellps: intl}\n    - helmert: {dx: 1}\n"
}

#[test]
fn operator_args() {
    let mut args = OperatorArgs::new();

    // dx and dy are straightforward
    args.insert("dx", "11");
    args.insert("dy", "22");

    // But we hide dz behind two levels of indirection
    args.insert("dz", "^ddz");
    args.insert("ddz", "^dddz");
    args.insert("dddz", "33");

    assert_eq!("00", args.value("", "00"));
    assert_eq!("11", args.value("dx", ""));
    assert_eq!("22", args.value("dy", ""));
    assert_eq!(args.used.len(), 2);

    assert_eq!("33", args.value("dz", ""));
    let dz = match args.numeric_arg("dz") {
        Some(text) => text.parse::<f64>().unwrap(),
        None => 42.0,
    };
    assert_eq!(33.0, dz);
    let bar = match args.numeric_arg("bar") {
        Some(text) => text.parse::<f64>().unwrap(),
        None => 42.0,
    };
    assert_eq!(42.0, bar);

    assert_eq!(args.used.len(), 3);
    assert_eq!(args.all_used.len(), 5);

    assert_eq!("", args.value("abcdefg", ""));

    // Finally one for testing 'err' returned for non-numerics
    args.insert("ds", "foo");
    let ds = args.numeric_arg("ds").unwrap();
    assert!(ds.parse::<f64>().is_err());
}

#[test]
fn preparing_args() {
    let mut args = OperatorArgs::global_defaults();

    // Explicitly stating the name of the pipeline
    let txt = pipeline_text();
    assert!(args.populate(txt, "a_pipeline_for_testing").unwrap());
    assert_eq!(&args.value("_step_0", "    ")[0..4], "cart");

    // Let populate() figure out what we want
    let mut args = OperatorArgs::global_defaults();
    assert!(args.populate(txt, "").unwrap());
    assert_eq!(&args.value("x", "5"), "3");

    // When op is not a pipeline
    let mut args = OperatorArgs::global_defaults();
    assert!(args.populate("cart: {ellps: intl}", "").unwrap());
    assert_eq!(args.name, "cart");
    assert_eq!(&args.value("ellps", ""), "intl");
}

#[test]
fn absent_key_gives_default_and_records_nothing() {
    let mut args = OperatorArgs::new();
    args.insert("a", "1");
    assert_eq!(args.value("b", "dflt"), "dflt");
    assert_eq!(args.used.len(), 0);
    assert_eq!(args.all_used.len(), 0);
}

#[test]
fn direct_key_is_recorded_once() {
    let mut args = OperatorArgs::new();
    args.insert("a", "1");
    assert_eq!(args.value("a", ""), "1");
    assert_eq!(args.used.get("a"), Some("1".to_string()));
    assert_eq!(args.all_used.get("a"), Some("1".to_string()));
    assert_eq!(args.used.len(), 1);
    assert_eq!(args.all_used.len(), 1);
    // equal to the default: not recorded as used
    let mut args = OperatorArgs::new();
    args.insert("a", "1");
    assert_eq!(args.value("a", "1"), "1");
    assert_eq!(args.used.len(), 0);
    assert_eq!(args.all_used.len(), 1);
}

#[test]
fn indirection_chain() {
    let mut args = OperatorArgs::new();
    args.insert("a", "^b");
    args.insert("b", "^c");
    args.insert("c", "33");
    assert_eq!(args.value("a", ""), "33");
    assert_eq!(args.all_used.len(), 3);
    assert_eq!(args.all_used.get("a"), Some("^b".to_string()));
    assert_eq!(args.all_used.get("b"), Some("^c".to_string()));
    assert_eq!(args.all_used.get("c"), Some("33".to_string()));
    assert_eq!(args.used.len(), 1);
    assert_eq!(args.used.get("a"), Some("33".to_string()));
}

#[test]
fn indirection_to_absent_key_gives_default() {
    let mut args = OperatorArgs::new();
    args.insert("a", "^nowhere");
    assert_eq!(args.value("a", "d"), "d");
    assert_eq!(args.used.len(), 0);
    assert_eq!(args.all_used.get("a"), Some("^nowhere".to_string()));
}

#[test]
fn indirection_cycle_gives_default() {
    let mut args = OperatorArgs::new();
    args.insert("a", "^b");
    args.insert("b", "^a");
    assert_eq!(args.value("a", "d"), "d");
    assert_eq!(args.used.len(), 0);
}

#[test]
fn numeric_arguments() {
    let mut args = OperatorArgs::new();
    assert_eq!(args.numeric_arg("k"), None);
    args.insert("k", "2.5");
    assert_eq!(args.numeric_arg("k"), Some("2.5".to_string()));
    args.insert("ds", "foo");
    assert_eq!(args.numeric_arg("ds"), Some("foo".to_string()));
    assert_eq!(
        OperatorArgs::numeric_error("bar", "ds", "foo"),
        "Numeric value expected for 'bar.ds' - got [ds: foo]."
    );
}

#[test]
fn flags() {
    let mut args = OperatorArgs::new();
    assert!(!args.flag("inv"));
    args.insert("inv", "false");
    assert!(!args.flag("inv"));
    args.insert("inv", "0");
    assert!(args.flag("inv"));
    args.insert("inv", "");
    assert!(args.flag("inv"));
    args.insert("inv", "true");
    assert!(args.flag("inv"));
}

#[test]
fn plain_operator_definition() {
    let mut args = OperatorArgs::new();
    assert_eq!(args.populate("cart: {ellps: intl, n: -12, r: 1.5, b: true, s: [1, 2], e: ''}", ""), Ok(true));
    assert_eq!(args.name, "cart");
    assert_eq!(args.value("ellps", ""), "intl");
    assert_eq!(args.value("n", ""), "-12");
    assert_eq!(args.value("r", ""), "1.5");
    assert_eq!(args.value("b", ""), "true");
    assert!(!args.args.contains_key("s"));
    assert!(!args.args.contains_key("e"));
    assert_eq!(args.value("_definition", ""), "cart: {ellps: intl, n: -12, r: 1.5, b: true, s: [1, 2], e: ''}");
}

#[test]
fn pipeline_definition() {
    let mut args = OperatorArgs::new();
    assert_eq!(args.populate(pipeline_text(), ""), Ok(true));
    assert_eq!(args.name, "a_pipeline_for_testing");
    assert_eq!(args.value("_nsteps", ""), "2");
    let step0 = args.value("_step_0", "");
    let step1 = args.value("_step_1", "");
    assert!(step0.starts_with("cart"));
    assert!(step1.starts_with("helmert"));
    assert!(!step0.starts_with("---"));
    assert!(!args.args.contains_key("_step_2"));
    // globals are flattened, but for inv
    assert_eq!(args.value("x", ""), "3");
    assert!(!args.args.contains_key("inv"));
}

#[test]
fn selecting_among_documents() {
    let text = "first: {a: 1}\n---\nsecond: {a: 2}\n";
    let mut args = OperatorArgs::new();
    assert_eq!(args.populate(text, "second"), Ok(true));
    assert_eq!(args.name, "second");
    assert_eq!(args.value("a", ""), "2");
    let mut args = OperatorArgs::new();
    assert_eq!(args.populate(text, ""), Ok(true));
    assert_eq!(args.name, "first");
    assert_eq!(args.value("a", ""), "1");
}

#[test]
fn load_failures() {
    let mut args = OperatorArgs::new();
    assert_eq!(args.populate("cart: {ellps: intl}", "helmert"), Ok(false));
    assert_eq!(args.name, "badvalue");
    assert_eq!(args.value("cause", ""), "Cannot locate definition");

    let mut args = OperatorArgs::new();
    assert_eq!(args.populate("a: {x: 1}\nb: {y: 2}\n", ""), Ok(false));
    assert_eq!(args.value("cause", ""), "Too many items in definition root");

    let mut args = OperatorArgs::new();
    assert_eq!(args.populate("42", ""), Ok(false));
    assert_eq!(args.value("cause", ""), "Cannot parse definition");

    let mut args = OperatorArgs::new();
    assert_eq!(args.populate("cart: 5", ""), Ok(false));
    assert_eq!(args.value("cause", ""), "Cannot read args");

    let mut args = OperatorArgs::new();
    assert_eq!(args.populate("_only: {x: 1}", ""), Ok(false));
    assert_eq!(args.value("cause", ""), "Cannot locate definition");

    let mut args = OperatorArgs::new();
    assert_eq!(args.populate("", ""), Ok(false));
    assert_eq!(args.value("cause", ""), "Cannot locate definition");
}

#[test]
fn text_that_does_not_parse() {
    let mut args = OperatorArgs::new();
    args.insert("k", "v");
    assert!(args.populate("a: [1, 2", "").is_err());
    assert_eq!(args.args.len(), 1);
    assert!(args.name.is_empty());
}

#[test]
fn inheritance_from_parent() {
    let mut parent = OperatorArgs::global_defaults();
    parent.insert("_nsteps", "3");
    parent.insert("inv", "true");
    parent.insert("foo", "parent");
    parent.insert("keep", "yes");
    let child = OperatorArgs::with_globals_from(&parent, "helmert: {foo: child}", "").unwrap();
    assert_eq!(child.name, "helmert");
    assert!(!child.args.contains_key("_nsteps"));
    assert!(!child.args.contains_key("inv"));
    assert_eq!(child.args.get("foo"), Some("child".to_string()));
    assert_eq!(child.args.get("keep"), Some("yes".to_string()));
    assert_eq!(child.args.get("ellps"), Some("GRS80".to_string()));
    assert!(OperatorArgs::with_globals_from(&parent, "a: [", "").is_err());
}

#[test]
fn append_and_name() {
    let mut a = OperatorArgs::new();
    a.insert("x", "1");
    a.insert("y", "2");
    let mut b = OperatorArgs::new();
    b.insert("y", "3");
    b.insert("z", "4");
    a.append(&b);
    assert_eq!(a.args.len(), 3);
    assert_eq!(a.args.get("y"), Some("3".to_string()));
    a.name("op");
    assert_eq!(a.name, "op");
}

#[test]
fn integer_extremes_in_decimal() {
    let mut args = OperatorArgs::new();
    let text = "op: {lo: -9223372036854775808, hi: 9223372036854775807, z: 0}";
    assert_eq!(args.populate(text, "op"), Ok(true));
    assert_eq!(args.value("lo", ""), "-9223372036854775808");
    assert_eq!(args.value("hi", ""), "9223372036854775807");
    assert_eq!(args.value("z", ""), "0");
}
