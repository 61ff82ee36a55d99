use poincare_trace::options::Arguments;
use poincare_trace::poincare::{PoincareAttributes, PoincareNode};
use poincare_trace::reduction::{StepNode, StepPart, StepTypeMask};

fn node(name: &str, id: &str, children: Vec<PoincareNode>) -> PoincareNode {
    PoincareNode { name: name.to_string(), id: id.to_string(), children, attributes: None }
}

fn integer(id: &str, value: &str) -> PoincareNode {
    PoincareNode {
        name: "Integer".to_string(),
        id: id.to_string(),
        children: Vec::new(),
        attributes: Some(PoincareAttributes::Integer { value: value.to_string() }),
    }
}

fn step(name: &str, before: Option<PoincareNode>, after: Option<PoincareNode>, parts: Vec<StepPart>) -> StepNode {
    StepNode { before, after, parts, name: name.to_string() }
}

fn leaf(name: &str, before: PoincareNode, after: PoincareNode) -> StepPart {
    StepPart::Substep(step(name, Some(before), Some(after), Vec::new()))
}

fn names(parts: &Vec<StepPart>) -> Vec<String> {
    parts
        .iter()
        .map(|part| match part {
            StepPart::State(label, _) => format!("state:{}", label.clone().unwrap_or_default()),
            StepPart::Substep(step) => format!("{}{:?}", step.name, names(&step.parts)),
        })
        .collect()
}

fn both() -> StepTypeMask {
    StepTypeMask { based_integer_to_rational: true, to_undef: true }
}

fn neither() -> StepTypeMask {
    StepTypeMask { based_integer_to_rational: false, to_undef: false }
}

fn based_to_rational() -> StepPart {
    let before = PoincareNode {
        name: "BasedInteger".to_string(),
        id: "5".to_string(),
        children: Vec::new(),
        attributes: Some(PoincareAttributes::BasedInteger { base: "10".to_string(), integer: "4".to_string() }),
    };
    let after = PoincareNode {
        name: "Rational".to_string(),
        id: "6".to_string(),
        children: Vec::new(),
        attributes: Some(PoincareAttributes::Rational {
            negative: "0".to_string(),
            numerator: "4".to_string(),
            denominator: "1".to_string(),
        }),
    };
    leaf("ToRational", before, after)
}

#[test]
fn unchanged_leaf_is_removed_under_default_options() {
    let mut top = step("Top", None, None, vec![leaf("Same", integer("1", "3"), integer("1", "3"))]);
    Arguments::default().prune(&mut top);
    assert!(top.parts.is_empty());
    assert_eq!(top.name, "Top");
}

#[test]
fn unchanged_leaf_is_removed_under_every_configuration() {
    for hide_states in [false, true] {
        for mask in [both(), neither()] {
            let mut parts = vec![
                leaf("Changed", integer("1", "3"), integer("2", "4")),
                leaf("Same", integer("1", "3"), integer("1", "3")),
            ];
            StepPart::remove_useless_recursive(&mut parts, hide_states, mask);
            assert_eq!(names(&parts), vec!["Changed[]"]);
        }
    }
}

#[test]
fn based_integer_to_rational_is_removed_unless_shown() {
    let same_id = || {
        let before = PoincareNode {
            name: "BasedInteger".to_string(),
            id: "5".to_string(),
            children: Vec::new(),
            attributes: Some(PoincareAttributes::BasedInteger { base: "10".to_string(), integer: "4".to_string() }),
        };
        let after = PoincareNode {
            name: "Rational".to_string(),
            id: "5".to_string(),
            children: Vec::new(),
            attributes: Some(PoincareAttributes::Rational {
                negative: "0".to_string(),
                numerator: "4".to_string(),
                denominator: "1".to_string(),
            }),
        };
        leaf("ToRational", before, after)
    };
    let mut top = step("Top", None, None, vec![same_id(), based_to_rational()]);
    Arguments::default().prune(&mut top);
    assert!(top.parts.is_empty());

    let mut shown = Arguments::default();
    shown.show_number_to_rational = true;
    let mut top = step("Top", None, None, vec![same_id(), based_to_rational()]);
    shown.prune(&mut top);
    // the step whose snapshots have the same id is unchanged, and goes in any case
    assert_eq!(names(&top.parts), vec!["ToRational[]"]);
}

#[test]
fn trivial_classes_follow_the_mask() {
    let mask = |based_integer_to_rational, to_undef| StepTypeMask { based_integer_to_rational, to_undef };
    let undefined_below = node("Addition", "9", vec![node("Power", "10", vec![node("Undefined", "11", Vec::new())])]);
    let to_undef = || step("ToUndef", Some(integer("1", "3")), Some(undefined_below.clone()), Vec::new());
    let to_rational = || match based_to_rational() {
        StepPart::Substep(step) => step,
        StepPart::State(..) => unreachable!(),
    };
    assert!(mask(true, false).step_is_either(&to_rational()));
    assert!(!mask(false, true).step_is_either(&to_rational()));
    assert!(mask(false, true).step_is_either(&to_undef()));
    assert!(!mask(true, false).step_is_either(&to_undef()));
    assert!(!mask(false, false).step_is_either(&to_undef()));
    assert!(!StepTypeMask::default().step_is_either(&to_rational()));
    assert_eq!(StepTypeMask::default(), mask(false, false));
}

#[test]
fn trivial_classes_need_both_snapshots_and_no_parts() {
    let undefined = node("Undefined", "2", Vec::new());
    let without_before = step("S", None, Some(undefined.clone()), Vec::new());
    assert!(!both().step_is_either(&without_before));
    let with_parts = step(
        "S",
        Some(integer("1", "3")),
        Some(undefined.clone()),
        vec![StepPart::State(None, integer("3", "1"))],
    );
    assert!(!both().step_is_either(&with_parts));
    let plain = step("S", Some(integer("1", "3")), Some(undefined), Vec::new());
    assert!(both().step_is_either(&plain));
    let swapped = step(
        "S",
        Some(node("Rational", "1", Vec::new())),
        Some(node("BasedInteger", "2", Vec::new())),
        Vec::new(),
    );
    assert!(!both().step_is_either(&swapped));
}

#[test]
fn does_nothing_needs_both_snapshots() {
    assert!(step("S", Some(integer("1", "3")), Some(integer("1", "4")), Vec::new()).does_nothing());
    assert!(!step("S", Some(integer("1", "3")), Some(integer("2", "3")), Vec::new()).does_nothing());
    assert!(!step("S", Some(integer("1", "3")), None, Vec::new()).does_nothing());
    assert!(!step("S", None, Some(integer("1", "3")), Vec::new()).does_nothing());
    assert!(!step("S", None, None, Vec::new()).does_nothing());
}

#[test]
fn step_without_parts_or_snapshots_is_kept() {
    let mut parts = vec![StepPart::Substep(step("Bare", None, None, Vec::new()))];
    StepPart::remove_useless_recursive(&mut parts, true, both());
    assert_eq!(names(&parts), vec!["Bare[]"]);
}

#[test]
fn states_are_removed_only_when_hidden() {
    let make = || vec![
        StepPart::State(Some("mid".to_string()), integer("1", "3")),
        leaf("Changed", integer("1", "3"), integer("2", "4")),
        StepPart::State(None, integer("1", "3")),
    ];
    let mut parts = make();
    StepPart::remove_useless_recursive(&mut parts, true, both());
    assert_eq!(names(&parts), vec!["Changed[]"]);
    let mut parts = make();
    StepPart::remove_useless_recursive(&mut parts, false, both());
    assert_eq!(names(&parts), vec!["state:mid", "Changed[]", "state:"]);
}

#[test]
fn step_with_a_deep_useful_part_is_kept_and_pruned_inside() {
    let useful = leaf("Useful", integer("1", "3"), integer("2", "4"));
    let useless = leaf("Useless", integer("1", "3"), integer("1", "3"));
    let inner = StepPart::Substep(step("Inner", None, None, vec![useless, useful]));
    let middle = StepPart::Substep(step(
        "Middle",
        Some(integer("7", "1")),
        Some(integer("7", "1")),
        vec![leaf("Gone", integer("1", "3"), integer("1", "3")), inner],
    ));
    let mut parts = vec![middle, leaf("AlsoGone", integer("1", "3"), integer("1", "3"))];
    StepPart::remove_useless_recursive(&mut parts, true, both());
    assert_eq!(names(&parts), vec!["Middle[\"Inner[\\\"Useful[]\\\"]\"]"]);
}

#[test]
fn step_of_useless_parts_is_removed_entirely() {
    let inner = StepPart::Substep(step(
        "Inner",
        None,
        None,
        vec![leaf("A", integer("1", "3"), integer("1", "3")), StepPart::State(None, integer("2", "1"))],
    ));
    let outer = StepPart::Substep(step(
        "Outer",
        Some(integer("1", "1")),
        Some(integer("2", "2")),
        vec![inner, leaf("B", integer("4", "3"), integer("4", "3"))],
    ));
    let mut parts = vec![outer];
    StepPart::remove_useless_recursive(&mut parts, true, neither());
    assert!(parts.is_empty());
}

#[test]
fn step_of_states_stays_when_states_are_shown() {
    let make = || vec![StepPart::Substep(step(
        "Outer",
        None,
        None,
        vec![StepPart::State(None, integer("2", "1"))],
    ))];
    let mut parts = make();
    StepPart::remove_useless_recursive(&mut parts, false, both());
    assert_eq!(names(&parts), vec!["Outer[\"state:\"]"]);
    let mut parts = make();
    StepPart::remove_useless_recursive(&mut parts, true, both());
    assert!(parts.is_empty());
}

#[test]
fn pruning_twice_changes_nothing_more() {
    let make = || {
        let useful = leaf("Useful", integer("1", "3"), integer("2", "4"));
        let useless = leaf("Useless", integer("1", "3"), integer("1", "3"));
        let inner = StepPart::Substep(step(
            "Inner",
            None,
            None,
            vec![useless, StepPart::State(None, integer("8", "1")), useful],
        ));
        vec![
            StepPart::State(Some("s".to_string()), integer("9", "1")),
            StepPart::Substep(step("Middle", None, None, vec![based_to_rational(), inner])),
            based_to_rational(),
        ]
    };
    for hide_states in [false, true] {
        for mask in [both(), neither()] {
            let mut parts = make();
            StepPart::remove_useless_recursive(&mut parts, hide_states, mask);
            let once = names(&parts);
            StepPart::remove_useless_recursive(&mut parts, hide_states, mask);
            assert_eq!(names(&parts), once);
        }
    }
}

#[test]
fn useless_parts_are_told_apart() {
    let useful = leaf("Useful", integer("1", "3"), integer("2", "4"));
    let useless = leaf("Useless", integer("1", "3"), integer("1", "3"));
    assert!(!StepPart::is_useless_recursive(&useful, true, both()));
    assert!(StepPart::is_useless_recursive(&useless, false, neither()));
    let state = StepPart::State(None, integer("1", "3"));
    assert!(StepPart::is_useless_recursive(&state, true, neither()));
    assert!(!StepPart::is_useless_recursive(&state, false, both()));
}

#[test]
fn showing_useless_steps_keeps_everything() {
    let mut options = Arguments::default();
    options.show_useless = true;
    let mut top = step(
        "Top",
        None,
        None,
        vec![leaf("Same", integer("1", "3"), integer("1", "3")), StepPart::State(None, integer("2", "1"))],
    );
    options.prune(&mut top);
    assert_eq!(names(&top.parts), vec!["Same[]", "state:"]);
}

#[test]
fn default_options() {
    let options = Arguments::default();
    assert!(!options.show_useless);
    assert!(!options.show_number_to_rational);
    assert!(!options.show_to_undef);
    assert!(options.dont_show_intermediate_states);
    assert!(!options.print_long_form);
    assert!(options.files.is_empty());
    assert_eq!(options.steps_to_remove_mask(), both());
}

#[test]
fn top_step_stays_even_if_it_does_nothing() {
    let mut top = step("Top", Some(integer("1", "3")), Some(integer("1", "3")), Vec::new());
    Arguments::default().prune(&mut top);
    assert_eq!(top.name, "Top");
    assert!(top.before.is_some());
}

#[test]
fn arguments_set_the_options() {
    let mut options = Arguments::default();
    for argument in ["--useless", " --number-to-rational", "--to-undef ", "\t--long\n"] {
        assert!(options.accept(argument));
    }
    assert!(options.show_useless);
    assert!(options.show_number_to_rational);
    assert!(options.show_to_undef);
    assert!(options.print_long_form);
    assert!(options.files.is_empty());
    options.dont_show_intermediate_states = false;
    assert!(options.accept("--no-states"));
    assert!(options.dont_show_intermediate_states);
    assert!(!options.accept("--states"));
}

#[test]
fn other_arguments_are_files_unless_written_as_options() {
    let mut options = Arguments::default();
    assert!(options.accept("trace.xml"));
    assert!(options.accept("  -x.xml  "));
    assert!(options.accept("-"));
    assert!(options.accept(""));
    assert!(!options.accept("--verbose"));
    assert!(!options.accept("--"));
    assert!(!options.accept("--Useless"));
    // without trimming, a space in front makes it the name of a file
    assert!(options.accept_trimmed(" --useless"));
    assert!(options.accept_trimmed(" file"));
    assert_eq!(options.files, vec!["trace.xml", "-x.xml", "-", "", " --useless", " file"]);
    let untouched = Arguments { files: options.files.clone(), ..Arguments::default() };
    assert_eq!(options, untouched);
}
