use poincare_trace::error::TraceError;
use poincare_trace::events::{get_attribute_from_start, Attribute, Lookup, StartTag, TagEvent};
use poincare_trace::options::Arguments;
use poincare_trace::poincare::{PoincareAttributes, PoincareNode};
use poincare_trace::process::{ReduceProcess, Trace};
use poincare_trace::reduction::{StepNode, StepPart};
use quick_xml::reader::Reader;

fn next_step(reader: &mut Reader<&[u8]>) -> Result<Option<StepNode>, TraceError> {
    Trace::read_next(reader).map(|found| {
        found.map(|trace| match trace {
            Trace::Step(step) => step,
            Trace::Process(_) => panic!("a step was expected"),
        })
    })
}

fn next_process(reader: &mut Reader<&[u8]>) -> Result<ReduceProcess, TraceError> {
    Trace::read_next(reader).map(|found| match found {
        Some(Trace::Process(process)) => process,
        _ => panic!("a reduction was expected"),
    })
}

fn reader(document: &str) -> Reader<&[u8]> {
    let mut reader = Reader::from_str(document);
    reader.trim_text(true);
    reader
}

fn tag(name: &str, attributes: &[(&str, &str)]) -> StartTag {
    StartTag {
        name: name.to_string(),
        attributes: attributes
            .iter()
            .map(|(key, value)| Ok(Attribute { key: key.to_string(), value: value.to_string() }))
            .collect(),
    }
}

fn integer(id: &str, value: &str) -> PoincareNode {
    PoincareNode {
        name: "Integer".to_string(),
        id: id.to_string(),
        children: Vec::new(),
        attributes: Some(PoincareAttributes::Integer { value: value.to_string() }),
    }
}

const TRACE: &str = r#"
<Step name="Reduce">
  <State name="before">
    <Addition id="1">
      <Integer id="2" value="1"></Integer>
      <Integer id="3" value="2"></Integer>
    </Addition>
  </State>
  <Step name="Same">
    <State name="before"><Integer id="4" value="3"></Integer></State>
    <State name="after"><Integer id="4" value="3"></Integer></State>
  </Step>
  <Step name="Add">
    <State name="before"><Integer id="4" value="3"></Integer></State>
    <State name="middle"><Integer id="6" value="0"></Integer></State>
    <State><Integer id="7" value="9"></Integer></State>
    <State name="after"><Integer id="5" value="3"></Integer></State>
  </Step>
  <State name="after"><Integer id="5" value="3"></Integer></State>
</Step>
<Step name="Second"></Step>
"#;

#[test]
fn first_attribute_with_the_key_is_found() {
    let start = tag("Integer", &[("id", "1"), ("value", "3"), ("value", "4"), ("", "e")]);
    assert_eq!(get_attribute_from_start(&start, "id"), Lookup::Found("1".to_string()));
    assert_eq!(get_attribute_from_start(&start, "value"), Lookup::Found("3".to_string()));
    assert_eq!(get_attribute_from_start(&start, ""), Lookup::Found("e".to_string()));
    assert_eq!(get_attribute_from_start(&start, "Value"), Lookup::Missing);
    assert_eq!(get_attribute_from_start(&tag("Integer", &[]), "id"), Lookup::Missing);
}

#[test]
fn values_are_read_from_the_attributes_of_the_kind() {
    let value =
        |start: &StartTag| PoincareAttributes::try_from_start(start).unwrap().map(|a| a.pretty_print());
    assert_eq!(value(&tag("BasedInteger", &[("id", "1"), ("base", "2"), ("integer", "101")])), Some("101__2".to_string()));
    assert_eq!(value(&tag("BasedInteger", &[("base", "2")])), None);
    assert_eq!(value(&tag("CodePointLayout", &[("CodePoint", "x")])), Some("x".to_string()));
    assert_eq!(value(&tag("CodePointLayout", &[("code_point", "x")])), None);
    assert_eq!(
        value(&tag("Decimal", &[("negative", "1"), ("mantissa", "15"), ("exponent", "2")])),
        Some("-15x10^2".to_string())
    );
    assert_eq!(value(&tag("Decimal", &[("negative", "1"), ("mantissa", "15")])), None);
    assert_eq!(value(&tag("Float", &[("value", "0.5")])), Some("0.5".to_string()));
    assert_eq!(value(&tag("Infinity", &[("negative", "0")])), Some("inf".to_string()));
    assert_eq!(value(&tag("Integer", &[("value", "12")])), Some("12".to_string()));
    assert_eq!(value(&tag("Matrix", &[("rows", "1"), ("columns", "2")])), Some("rows: 1, columns: 2".to_string()));
    assert_eq!(
        value(&tag("Rational", &[("negative", "0"), ("numerator", "1"), ("denominator", "2")])),
        Some("1/2".to_string())
    );
    for name in ["SymbolAbstract", "Symbol", "Sequence", "Function", "Constant"] {
        assert_eq!(value(&tag(name, &[("name", "f")])), Some("f".to_string()));
        assert_eq!(value(&tag(name, &[("value", "f")])), None);
    }
    assert_eq!(value(&tag("Unit", &[("prefix", "m"), ("rootSymbol", "s")])), Some("ms".to_string()));
    assert_eq!(value(&tag("Unit", &[("prefix", "m"), ("root_symbol", "s")])), None);
    assert_eq!(value(&tag("Addition", &[("value", "12")])), None);
    assert!(matches!(
        PoincareAttributes::try_from_start(&tag("Constant", &[("name", "π")])),
        Ok(Some(PoincareAttributes::SymbolAbstract { name })) if name == "π"
    ));
}

#[test]
fn node_starts_from_its_tag() {
    let node = PoincareNode::from_start(&tag("Integer", &[("value", "3"), ("id", "12")]), 40).unwrap();
    assert_eq!(node.name, "Integer");
    assert_eq!(node.id, "12");
    assert!(node.children.is_empty());
    assert!(matches!(node.attributes, Some(PoincareAttributes::Integer { value }) if value == "3"));
    let bare = PoincareNode::from_start(&tag("Integer", &[("id", "12")]), 40).unwrap();
    assert!(bare.attributes.is_none());
}

#[test]
fn node_without_id_is_refused() {
    let refused = PoincareNode::from_start(&tag("Integer", &[("value", "3")]), 40);
    assert_eq!(
        refused.map(|node| node.name),
        Err(TraceError::MissingId { name: "Integer".to_string(), position: 40 })
    );
}

#[test]
fn step_starts_from_its_tag() {
    let step = StepNode::from_start(&tag("Step", &[("name", "Reduce")]), 7).unwrap();
    assert_eq!(step.name, "Reduce");
    assert!(step.before.is_none() && step.after.is_none() && step.parts.is_empty());
    let refused = StepNode::from_start(&tag("Step", &[("title", "Reduce")]), 7);
    assert_eq!(refused.map(|step| step.name), Err(TraceError::MissingName { position: 7 }));
}

#[test]
fn trace_is_read_step_by_step() {
    let mut reader = reader(TRACE);
    let first = next_step(&mut reader).unwrap().unwrap();
    assert_eq!(first.name, "Reduce");
    assert_eq!(first.before.as_ref().unwrap().pretty_print(0, false, false).unwrap(), "1 + 2");
    assert_eq!(first.after.as_ref().unwrap().pretty_print(0, true, false).unwrap(), "Integer(5): 3");
    assert_eq!(first.parts.len(), 2);
    match &first.parts[1] {
        StepPart::Substep(add) => {
            assert_eq!(add.name, "Add");
            assert_eq!(add.before.as_ref().unwrap().id, "4");
            assert_eq!(add.after.as_ref().unwrap().id, "5");
            assert_eq!(add.parts.len(), 2);
            assert!(matches!(&add.parts[0], StepPart::State(Some(label), node) if label == "middle" && node.id == "6"));
            assert!(matches!(&add.parts[1], StepPart::State(None, node) if node.id == "7"));
        },
        StepPart::State(..) => panic!("a nested step was expected"),
    }
    let second = next_step(&mut reader).unwrap().unwrap();
    assert_eq!(second.name, "Second");
    assert!(second.parts.is_empty());
    assert!(next_step(&mut reader).unwrap().is_none());
    assert!(next_step(&mut reader).unwrap().is_none());
}

#[test]
fn trace_is_pruned_and_written() {
    let mut reader = reader(TRACE);
    let mut step = next_step(&mut reader).unwrap().unwrap();
    let options = Arguments::default();
    options.prune(&mut step);
    // the states are hidden, so the step that holds nothing else goes as well
    assert_eq!(step.view(false).render(false).unwrap(), "/> Reduce \n| 1 + 2\n\\_ 3");
    let mut reader = Reader::from_str(TRACE);
    reader.trim_text(true);
    let mut step = next_step(&mut reader).unwrap().unwrap();
    let mut options = Arguments::default();
    options.dont_show_intermediate_states = false;
    options.prune(&mut step);
    assert_eq!(
        step.view(false).render(false).unwrap(),
        "/> Reduce \n| 1 + 2\n|    /> Add \n|    | 3\n|    |- middle: 0\n|    |- 9\n|    \\_ 3\n\\_ 3"
    );
}

#[test]
fn later_snapshot_replaces_an_earlier_one() {
    let document = r#"<Step name="S"><State name="after"><Integer id="1" value="1"></Integer></State><State name="after"><Integer id="2" value="2"></Integer></State></Step>"#;
    let step = next_step(&mut reader(document)).unwrap().unwrap();
    assert_eq!(step.after.unwrap().id, "2");
    assert!(step.before.is_none());
    assert!(step.parts.is_empty());
}

#[test]
fn children_are_read_in_order_and_nested() {
    let document = r#"<A id="1"><B id="2"><C id="3"></C></B><D id="4" name="d"></D></A><E id="5"></E>"#;
    let mut reader = reader(document);
    let mut node = PoincareNode::from_previous(&mut reader).unwrap();
    assert_eq!(node.name, "A");
    assert!(node.children.is_empty());
    node.build(&mut reader).unwrap();
    assert_eq!(node.pretty_print(0, true, false).unwrap(), "A(1) { B(2) { C(3) }, D(4) }");
    let next = PoincareNode::from_previous(&mut reader).unwrap();
    assert_eq!(next.name, "E");
}

#[test]
fn document_may_not_end_inside_a_node() {
    let mut reader = reader(r#"<A id="1"><B id="2">"#);
    let mut node = PoincareNode::from_previous(&mut reader).unwrap();
    assert_eq!(
        node.build(&mut reader),
        Err(TraceError::Unexpected { event: TagEvent::Eof, position: 20 })
    );
    let mut alone = self::reader(r#"<A id="1">"#);
    let mut node = PoincareNode::from_previous(&mut alone).unwrap();
    assert_eq!(
        node.build(&mut alone),
        Err(TraceError::Unexpected { event: TagEvent::Eof, position: 10 })
    );
}

#[test]
fn document_may_not_end_inside_a_step_or_a_reduction() {
    assert_eq!(
        next_step(&mut reader(r#"<Step name="a">"#)).map(|step| step.map(|s| s.name)),
        Err(TraceError::Unexpected { event: TagEvent::Eof, position: 15 })
    );
    assert_eq!(
        next_step(&mut reader(r#"<Step name="a"><Step name="b"></Step>"#)).map(|step| step.map(|s| s.name)),
        Err(TraceError::Unexpected { event: TagEvent::Eof, position: 37 })
    );
    assert_eq!(
        next_process(&mut reader(r#"<ReduceProcess><Step name="a"></Step>"#)).map(|process| process.steps.len()),
        Err(TraceError::Unexpected { event: TagEvent::Eof, position: 37 })
    );
    assert_eq!(
        next_process(&mut reader("<ReduceProcess>")).map(|process| process.steps.len()),
        Err(TraceError::Unexpected { event: TagEvent::Eof, position: 15 })
    );
    assert!(Trace::read_next(&mut reader("")).unwrap().is_none());
    assert!(Trace::read_next(&mut reader("  \n ")).unwrap().is_none());
}

#[test]
fn emphasised_report_reads_as_the_plain_one() {
    let mut plain_reader = reader(TRACE);
    let mut shown_reader = reader(TRACE);
    let mut options = Arguments::default();
    options.dont_show_intermediate_states = false;
    let plain = options.report_next(&mut plain_reader, false).unwrap().unwrap();
    colored::control::set_override(true);
    let shown = options.report_next(&mut shown_reader, true).unwrap().unwrap();
    colored::control::unset_override();
    assert_ne!(shown, plain);
    let mut read_off = String::new();
    let mut chars = shown.chars();
    while let Some(c) = chars.next() {
        if c == '\u{1b}' {
            for code in chars.by_ref() {
                if code == 'm' {
                    break;
                }
            }
        } else {
            read_off.push(c);
        }
    }
    assert_eq!(read_off, plain);
    assert_eq!(shown.matches('\n').count(), plain.matches('\n').count());
}

#[test]
fn missing_id_is_reported_with_name_and_offset() {
    let mut reader = reader(r#"<A id="1"><B></B></A>"#);
    let mut node = PoincareNode::from_previous(&mut reader).unwrap();
    assert_eq!(node.build(&mut reader), Err(TraceError::MissingId { name: "B".to_string(), position: 13 }));
}

#[test]
fn closing_tag_of_another_name_is_refused() {
    let mut reader = reader(r#"<A id="1"></B>"#);
    reader.check_end_names(false);
    let mut node = PoincareNode::from_previous(&mut reader).unwrap();
    assert_eq!(
        node.build(&mut reader),
        Err(TraceError::Unexpected { event: TagEvent::End("B".to_string()), position: 14 })
    );
}

#[test]
fn closing_tag_that_the_reader_refuses_is_a_broken_document() {
    let mut reader = reader(r#"<A id="1"></B>"#);
    let mut node = PoincareNode::from_previous(&mut reader).unwrap();
    assert!(matches!(node.build(&mut reader), Err(TraceError::Source { .. })));
}

#[test]
fn text_inside_a_node_is_refused() {
    let mut reader = reader(r#"<A id="1">hello</A>"#);
    let mut node = PoincareNode::from_previous(&mut reader).unwrap();
    assert_eq!(node.build(&mut reader), Err(TraceError::Unexpected { event: TagEvent::Other, position: 15 }));
}

#[test]
fn self_closed_tag_is_refused() {
    let mut reader = reader(r#"<A id="1"><B id="2"/></A>"#);
    let mut node = PoincareNode::from_previous(&mut reader).unwrap();
    assert!(matches!(node.build(&mut reader), Err(TraceError::Unexpected { event: TagEvent::Other, .. })));
}

#[test]
fn node_has_to_start_with_an_opening_tag() {
    assert!(matches!(
        PoincareNode::from_previous(&mut reader("")),
        Err(TraceError::Unexpected { event: TagEvent::Eof, position: 0 })
    ));
    assert!(matches!(
        PoincareNode::from_previous(&mut reader("text<A id=\"1\">")),
        Err(TraceError::Unexpected { event: TagEvent::Other, .. })
    ));
}

#[test]
fn refused_attribute_behind_the_ones_that_are_read_is_not_met() {
    let mut reader = reader(r#"<Integer id="1" value="3" id="2" broken></Integer>"#);
    let node = PoincareNode::read(&mut reader).unwrap();
    assert_eq!(node.pretty_print(0, true, false).unwrap(), "Integer(1): 3");
    let mut reader = self::reader(r#"<Step name="s" name="t"></Step>"#);
    assert_eq!(next_step(&mut reader).unwrap().unwrap().name, "s");
}

#[test]
fn refused_attribute_in_front_of_the_one_looked_for_is_an_error() {
    let mut reader = reader(r#"<Integer value="3" value="4" id="1"></Integer>"#);
    match PoincareNode::read(&mut reader) {
        Err(TraceError::Source { reason, position }) => {
            assert!(reason.contains("Duplicated"), "{}", reason);
            assert_eq!(position, 36);
        },
        other => panic!("unexpected result: {:?}", other.map(|node| node.name)),
    }
    // the id is found, the value is not: the search for it meets the attribute without value
    let mut reader = self::reader(r#"<Integer id="1" broken value="3"></Integer>"#);
    assert!(matches!(
        PoincareNode::read(&mut reader),
        Err(TraceError::Source { reason, .. }) if reason.contains("ExpectedEq")
    ));
    // a kind without value does not look beyond the id
    let mut reader = self::reader(r#"<Addition id="1" broken value="3"></Addition>"#);
    assert_eq!(PoincareNode::read(&mut reader).unwrap().id, "1");
    let mut reader = self::reader(r#"<Step broken name="s"></Step>"#);
    assert!(matches!(next_step(&mut reader), Err(TraceError::Source { position: 22, .. })));
    let mut reader = self::reader(r#"<Step name="s"><State broken name="before"><A id="1"></A></State></Step>"#);
    assert!(matches!(next_step(&mut reader), Err(TraceError::Source { position: 65, .. })));
}

#[test]
fn lookup_stops_at_what_the_reader_refuses() {
    let start = StartTag {
        name: "Integer".to_string(),
        attributes: vec![
            Ok(Attribute { key: "id".to_string(), value: "1".to_string() }),
            Err("refused".to_string()),
            Ok(Attribute { key: "value".to_string(), value: "3".to_string() }),
        ],
    };
    assert_eq!(get_attribute_from_start(&start, "id"), Lookup::Found("1".to_string()));
    assert_eq!(get_attribute_from_start(&start, "value"), Lookup::Broken("refused".to_string()));
    assert_eq!(get_attribute_from_start(&start, "other"), Lookup::Broken("refused".to_string()));
    assert_eq!(PoincareAttributes::try_from_start(&start).map(|a| a.is_some()), Err("refused".to_string()));
    assert_eq!(
        PoincareNode::from_start(&start, 9).map(|node| node.id),
        Err(TraceError::Source { reason: "refused".to_string(), position: 9 })
    );
}

#[test]
fn reader_reason_is_kept() {
    let mut reader = reader(r#"<A id="1"></B>"#);
    let mut node = PoincareNode::from_previous(&mut reader).unwrap();
    match node.build(&mut reader) {
        Err(TraceError::Source { reason, .. }) => assert!(reason.contains("EndEventMismatch"), "{}", reason),
        other => panic!("unexpected result: {:?}", other),
    }
}

#[test]
fn step_without_name_is_refused() {
    let mut reader = reader(r#"<Step title="x"></Step>"#);
    assert!(matches!(next_step(&mut reader), Err(TraceError::MissingName { position: 16 })));
    let mut reader = reader_of_nested_nameless();
    assert!(matches!(next_step(&mut reader), Err(TraceError::MissingName { .. })));
}

fn reader_of_nested_nameless() -> Reader<&'static [u8]> {
    reader(r#"<Step name="a"><Step></Step></Step>"#)
}

#[test]
fn expression_in_a_step_needs_an_id() {
    let mut reader = reader(r#"<Step name="a"><Bogus></Bogus></Step>"#);
    assert_eq!(
        next_step(&mut reader).map(|step| step.map(|s| s.name)),
        Err(TraceError::MissingId { name: "Bogus".to_string(), position: 22 })
    );
}

#[test]
fn expressions_in_a_step_are_the_ones_before_and_after() {
    let document = r#"<Step name="a"><Integer id="1" value="3"></Integer><Step name="b"></Step><Addition id="2"><Integer id="3" value="1"></Integer><Integer id="4" value="2"></Integer></Addition></Step>"#;
    let step = next_step(&mut reader(document)).unwrap().unwrap();
    assert_eq!(step.before.as_ref().unwrap().pretty_print(0, false, false).unwrap(), "3");
    assert_eq!(step.after.as_ref().unwrap().pretty_print(0, false, false).unwrap(), "1 + 2");
    assert_eq!(step.parts.len(), 1);
    assert_eq!(step.view(false).render(false).unwrap(), "/> a \n| 3\n|    /> b \n|    \\_\n\\_ 1 + 2");
    let only = next_step(&mut reader(r#"<Step name="a"><Integer id="1" value="3"></Integer></Step>"#)).unwrap().unwrap();
    assert!(only.before.is_some() && only.after.is_none());
}

#[test]
fn third_expression_in_a_step_is_refused() {
    let document = r#"<Step name="a"><A id="1"></A><B id="2"></B><C id="3"></C></Step>"#;
    assert_eq!(
        next_step(&mut reader(document)).map(|step| step.map(|s| s.name)),
        Err(TraceError::TooManyNodes { position: 57 })
    );
}

#[test]
fn reduction_is_read_with_its_expressions_and_steps() {
    let document = r#"
<ReduceProcess>
  <OriginalExpression><Addition id="1"><Integer id="2" value="1"></Integer><Integer id="3" value="2"></Integer></Addition></OriginalExpression>
  <Step name="Same"><Integer id="4" value="3"></Integer><Integer id="4" value="3"></Integer></Step>
  <Step name="Add"><Integer id="1" value="1"></Integer><Step name="Inner"><Integer id="7" value="1"></Integer><Integer id="8" value="2"></Integer></Step><Integer id="5" value="3"></Integer></Step>
  <ResultExpression><Integer id="5" value="3"></Integer></ResultExpression>
</ReduceProcess>
<ReduceProcess></ReduceProcess>
"#;
    let mut reader = reader(document);
    let mut process = next_process(&mut reader).unwrap();
    assert_eq!(process.steps.len(), 2);
    assert_eq!(process.original_expression.as_ref().unwrap().id, "1");
    assert_eq!(process.result_expression.as_ref().unwrap().id, "5");
    assert_eq!(
        process.render(false, false).unwrap(),
        "/> 1 + 2\n|    /> Same \n|    | 3\n|    \\_ 3\n|    /> Add \n|    | 1\n|    |    /> Inner \n|    |    | 1\n|    |    \\_ 2\n|    \\_ 3\n\\_ 3\n"
    );
    Arguments::default().prune_process(&mut process);
    assert_eq!(
        process.render(false, false).unwrap(),
        "/> 1 + 2\n|    /> Add \n|    | 1\n|    |    /> Inner \n|    |    | 1\n|    |    \\_ 2\n|    \\_ 3\n\\_ 3\n"
    );
    let once = process.render(true, false).unwrap();
    Arguments::default().prune_process(&mut process);
    assert_eq!(process.render(true, false).unwrap(), once);
    let empty = next_process(&mut reader).unwrap();
    assert!(empty.original_expression.is_none() && empty.result_expression.is_none());
    assert_eq!(empty.render(false, false).unwrap(), "/>\n");
    assert!(Trace::read_next(&mut reader).unwrap().is_none());
}

#[test]
fn reduction_keeps_everything_when_useless_steps_are_shown() {
    let document = r#"<ReduceProcess><Step name="Same"><Integer id="4" value="3"></Integer><Integer id="4" value="3"></Integer></Step></ReduceProcess>"#;
    let mut process = next_process(&mut reader(document)).unwrap();
    let mut options = Arguments::default();
    options.show_useless = true;
    options.prune_process(&mut process);
    assert_eq!(process.steps.len(), 1);
    process.remove_useless(false, options.steps_to_remove_mask());
    assert!(process.steps.is_empty());
    assert_eq!(ReduceProcess::new().render(true, false).unwrap(), "/>\n");
}

#[test]
fn reduction_has_one_expression_of_each_kind() {
    let twice = r#"<ReduceProcess><OriginalExpression><A id="1"></A></OriginalExpression><OriginalExpression><A id="1"></A></OriginalExpression></ReduceProcess>"#;
    assert!(matches!(
        next_process(&mut reader(twice)),
        Err(TraceError::Unexpected { event: TagEvent::Start(start), .. }) if start.name == "OriginalExpression"
    ));
    let twice = r#"<ReduceProcess><ResultExpression><A id="1"></A></ResultExpression><ResultExpression><A id="1"></A></ResultExpression></ReduceProcess>"#;
    assert!(matches!(
        next_process(&mut reader(twice)),
        Err(TraceError::Unexpected { event: TagEvent::Start(start), .. }) if start.name == "ResultExpression"
    ));
    let two = r#"<ReduceProcess><OriginalExpression><A id="1"></A><B id="2"></B></OriginalExpression></ReduceProcess>"#;
    assert!(matches!(
        next_process(&mut reader(two)),
        Err(TraceError::Unexpected { event: TagEvent::Start(start), .. }) if start.name == "B"
    ));
    let none = r#"<ReduceProcess><ResultExpression></ResultExpression></ReduceProcess>"#;
    assert!(matches!(
        next_process(&mut reader(none)),
        Err(TraceError::Unexpected { event: TagEvent::End(name), .. }) if name == "ResultExpression"
    ));
}

#[test]
fn reduction_holds_nothing_but_steps_and_its_expressions() {
    let document = r#"<ReduceProcess><Integer id="1"></Integer></ReduceProcess>"#;
    assert!(matches!(
        next_process(&mut reader(document)),
        Err(TraceError::Unexpected { event: TagEvent::Start(start), position: 31 }) if start.name == "Integer"
    ));
    let document = r#"<ReduceProcess><Step></Step></ReduceProcess>"#;
    assert!(matches!(next_process(&mut reader(document)), Err(TraceError::MissingName { position: 21 })));
    let mut unchecked = reader(r#"<ReduceProcess></Step>"#);
    unchecked.check_end_names(false);
    assert!(matches!(
        next_process(&mut unchecked),
        Err(TraceError::Unexpected { event: TagEvent::End(name), .. }) if name == "Step"
    ));
}

#[test]
fn reduction_with_a_bad_grouping_is_not_written_in_short_form() {
    let document = r#"<ReduceProcess><ResultExpression><Parenthesis id="1"></Parenthesis></ResultExpression></ReduceProcess>"#;
    let process = next_process(&mut reader(document)).unwrap();
    assert_eq!(process.render(false, false), Err(TraceError::ParenthesisArity));
    assert_eq!(process.render(true, false).unwrap(), "/>\n\\_ Parenthesis(1)\n");
}

#[test]
fn trace_has_to_be_made_of_steps() {
    let mut reader = reader(r#"<Integer id="1"></Integer>"#);
    assert!(matches!(
        next_step(&mut reader),
        Err(TraceError::Unexpected { event: TagEvent::Start(start), position: 16 }) if start.name == "Integer"
    ));
    let mut reader = reader_of("</Step>");
    reader.check_end_names(false);
    assert!(matches!(
        next_step(&mut reader),
        Err(TraceError::Unexpected { event: TagEvent::End(name), .. }) if name == "Step"
    ));
}

fn reader_of(document: &'static str) -> Reader<&'static [u8]> {
    reader(document)
}

#[test]
fn state_holds_exactly_one_node() {
    let two = r#"<Step name="a"><State><A id="1"></A><B id="2"></B></State></Step>"#;
    assert!(matches!(
        next_step(&mut reader(two)),
        Err(TraceError::Unexpected { event: TagEvent::Start(start), .. }) if start.name == "B"
    ));
    let none = r#"<Step name="a"><State></State></Step>"#;
    assert!(matches!(
        next_step(&mut reader(none)),
        Err(TraceError::Unexpected { event: TagEvent::End(name), .. }) if name == "State"
    ));
    let open = r#"<Step name="a"><State><A id="1"></A>"#;
    assert!(matches!(
        next_step(&mut reader(open)),
        Err(TraceError::Unexpected { event: TagEvent::Eof, .. })
    ));
}

#[test]
fn step_block_is_written_line_by_line() {
    let inner = StepNode { before: None, after: None, parts: Vec::new(), name: "Inner".to_string() };
    let step = StepNode {
        before: Some(integer("1", "3")),
        after: Some(integer("1", "4")),
        parts: vec![
            StepPart::State(Some("mid".to_string()), integer("2", "5")),
            StepPart::Substep(inner),
            StepPart::State(None, integer("3", "6")),
        ],
        name: "Simplify".to_string(),
    };
    assert_eq!(
        step.view(false).render(false).unwrap(),
        "/> Simplify \n| 3\n|- mid: 5\n|    /> Inner \n|    \\_\n|- 6\n\\_ 4"
    );
    assert_eq!(
        step.view(true).render(false).unwrap(),
        "/> Simplify \n| Integer(1): 3\n|- mid: Integer(2): 5\n|    /> Inner \n|    \\_\n|- Integer(3): 6\n\\_ Integer(1): 4"
    );
}

#[test]
fn nested_blocks_are_moved_right_once_per_level() {
    let deepest = StepNode { before: Some(integer("1", "1")), after: None, parts: Vec::new(), name: "C".to_string() };
    let middle = StepNode { before: None, after: None, parts: vec![StepPart::Substep(deepest)], name: "B".to_string() };
    let top = StepNode { before: None, after: None, parts: vec![StepPart::Substep(middle)], name: "A".to_string() };
    assert_eq!(
        top.view(false).render(false).unwrap(),
        "/> A \n|    /> B \n|    |    /> C \n|    |    | 1\n|    |    \\_\n|    \\_\n\\_"
    );
}

#[test]
fn empty_lines_of_a_nested_block_stay_empty() {
    let inner = StepNode { before: None, after: None, parts: Vec::new(), name: "a\n\nb".to_string() };
    let top = StepNode { before: None, after: None, parts: vec![StepPart::Substep(inner)], name: "A".to_string() };
    assert_eq!(top.view(false).render(false).unwrap(), "/> A \n|    /> a\n\n|    b \n|    \\_\n\\_");
}

#[test]
fn step_with_a_bad_grouping_is_not_written_in_short_form() {
    let group = PoincareNode {
        name: "Parenthesis".to_string(),
        id: "1".to_string(),
        children: Vec::new(),
        attributes: None,
    };
    let inner = StepNode { before: None, after: Some(group), parts: Vec::new(), name: "Inner".to_string() };
    let top = StepNode { before: None, after: None, parts: vec![StepPart::Substep(inner)], name: "A".to_string() };
    assert_eq!(top.view(false).render(false), Err(TraceError::ParenthesisArity));
    assert_eq!(top.view(false).render(true), Err(TraceError::ParenthesisArity));
    assert_eq!(
        top.view(true).render(false).unwrap(),
        "/> A \n|    /> Inner \n|    \\_ Parenthesis(1)\n\\_"
    );
}

#[test]
fn copies_of_a_trace_are_written_alike() {
    let mut reader = reader(TRACE);
    let trace = Trace::read_next(&mut reader).unwrap().unwrap();
    let copy = trace.clone();
    match (&trace, &copy) {
        (Trace::Step(step), Trace::Step(other)) => {
            assert_eq!(step.view(true).render(false), other.view(true).render(false));
            assert_eq!(other.parts.len(), 2);
            let view = step.view(false);
            let same_view = view;
            assert_eq!(view.render(false), same_view.clone().render(false));
        },
        _ => panic!("two steps were expected"),
    }
    let document = r#"<ReduceProcess><OriginalExpression><A id="1"></A></OriginalExpression><Step name="s"><B id="2"></B></Step></ReduceProcess>"#;
    let process = next_process(&mut self::reader(document)).unwrap();
    let copy = process.clone();
    assert_eq!(copy.render(true, false).unwrap(), "/> A(1)\n|    /> s \n|    | B(2)\n|    \\_\n");
    assert_eq!(process.render(true, false), copy.render(true, false));
}

#[test]
fn attribute_values_are_kept_as_written() {
    let document = r#"<Step name="a &amp; b"><State name='before'><Integer value = "1&lt;2" id="7"></Integer></State></Step>"#;
    let step = next_step(&mut reader(document)).unwrap().unwrap();
    assert_eq!(step.name, "a &amp; b");
    assert_eq!(step.before.unwrap().pretty_print(0, true, false).unwrap(), "Integer(7): 1&lt;2");
}

#[test]
fn entries_are_reported_one_by_one() {
    let mut reader = reader(TRACE);
    let options = Arguments::default();
    assert_eq!(options.report_next(&mut reader, false), Ok(Some("/> Reduce \n| 1 + 2\n\\_ 3".to_string())));
    assert_eq!(options.report_next(&mut reader, false), Ok(Some("/> Second \n\\_".to_string())));
    assert_eq!(options.report_next(&mut reader, false), Ok(None));
    let mut shown = Arguments::default();
    shown.show_useless = true;
    shown.print_long_form = true;
    let document = r#"<ReduceProcess><Step name="s"><Parenthesis id="1"></Parenthesis><B id="1"></B></Step></ReduceProcess><Step name="t"><Parenthesis id="2"></Parenthesis></Step><Step name="u"><A></A></Step>"#;
    let mut long = self::reader(document);
    assert_eq!(
        shown.report_next(&mut long, false),
        Ok(Some("/>\n|    /> s \n|    | Parenthesis(1)\n|    \\_ B(1)\n".to_string()))
    );
    assert_eq!(shown.report_next(&mut long, false), Ok(Some("/> t \n| Parenthesis(2)\n\\_".to_string())));
    assert_eq!(
        shown.report_next(&mut long, false),
        Err(TraceError::MissingId { name: "A".to_string(), position: 175 })
    );
    let mut short = self::reader(document);
    // the step that does nothing goes, and with it the grouping that could not be written
    assert_eq!(options.report_next(&mut short, false), Ok(Some("/>\n".to_string())));
    assert_eq!(options.report_next(&mut short, false), Err(TraceError::ParenthesisArity));
}

#[test]
fn errors_are_reported_in_words() {
    assert_eq!(
        TraceError::MissingId { name: "Integer".to_string(), position: 40 }.message(),
        "no id for node Integer at position 40"
    );
    assert_eq!(
        TraceError::Source { reason: "broken".to_string(), position: 0 }.message(),
        "Error at position 0: broken"
    );
    assert_eq!(
        TraceError::Unexpected { event: TagEvent::End("Step".to_string()), position: 1234567890 }.message(),
        "Unexpected `</Step>` at position 1234567890"
    );
    assert_eq!(
        TraceError::Unexpected { event: TagEvent::Start(tag("Bogus", &[("a", "b")])), position: 9 }.message(),
        "Unexpected `<Bogus>` at position 9"
    );
    assert_eq!(
        TraceError::Unexpected { event: TagEvent::Eof, position: 10 }.message(),
        "Unexpected `end of document` at position 10"
    );
    assert_eq!(
        TraceError::Unexpected { event: TagEvent::Other, position: 100 }.message(),
        "Unexpected `text or markup` at position 100"
    );
    assert_eq!(TraceError::MissingName { position: 7 }.message(), "A step must have a name, at position 7");
    assert_eq!(
        TraceError::TooManyNodes { position: 57 }.message(),
        "A step can only have two nodes, at position 57"
    );
    assert_eq!(TraceError::ParenthesisArity.message(), "ParenthesisNode can only have exactly one child");
    assert_eq!(TagEvent::Malformed("why".to_string()).describe(), "why");
    for number in [0usize, 9, 10, 99, 100, 1009, usize::MAX] {
        assert_eq!(
            TraceError::MissingName { position: number }.message(),
            format!("A step must have a name, at position {}", number)
        );
    }
}
