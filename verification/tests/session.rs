use tribble::errors::NavigationError;
use tribble::parser::{
    Endpoint, Input, InputSectionElem, InputType, SectionElem, SelectOption, Workflow,
};
use tribble::session::WorkflowSession;

fn text_input(id: &str, optional: bool, default: Option<&str>) -> SectionElem {
    SectionElem::Input(InputSectionElem {
        id: id.to_string(),
        label: id.to_string(),
        optional,
        default: default.map(|d| d.to_string()),
        input: Input::Text { input_type: InputType::Text },
    })
}

fn progression(text: &str, link: &str, tags: &[&str]) -> SectionElem {
    SectionElem::Progression {
        text: text.to_string(),
        link: link.to_string(),
        tags: tags.iter().map(|t| t.to_string()).collect(),
    }
}

/// The workflow of the walk-through scenario: one section with a mandatory
/// name input and a progression to an instructional endpoint.
fn scenario_workflow() -> Workflow {
    Workflow {
        tags: vec!["x".to_string()],
        sections: vec![(
            "start".to_string(),
            vec![text_input("name", false, None), progression("Next", "endpoint:end", &["x"])],
        )],
        index: "start".to_string(),
        endpoints: vec![("end".to_string(), Endpoint::Instructional("Done".to_string()))],
    }
}

fn chain_workflow() -> Workflow {
    Workflow {
        tags: vec![],
        sections: vec![
            ("start".to_string(), vec![progression("go", "a", &["s"])]),
            ("a".to_string(), vec![progression("go", "b", &["a"])]),
            ("b".to_string(), vec![progression("go", "endpoint:end", &["b"])]),
        ],
        index: "start".to_string(),
        endpoints: vec![("end".to_string(), Endpoint::Instructional("bye".to_string()))],
    }
}

fn session(w: Workflow) -> WorkflowSession {
    assert!(w.validate());
    WorkflowSession::new(w)
}

#[test]
fn new_session_starts_on_index() {
    let s = session(scenario_workflow());
    assert_eq!(s.current_location(), "start");
    assert_eq!(s.cursor(), 0);
    assert_eq!(s.history().len(), 1);
    assert_eq!(s.history()[0].location, "start");
    assert!(s.history()[0].tags.is_empty());
    assert!(s.render_if_endpoint().is_none());
}

#[test]
fn advance_with_empty_mandatory_input_is_blocked() {
    let mut s = session(scenario_workflow());
    let r = s.advance(1).unwrap();
    assert!(!r);
    // Atomic: only the error flags changed.
    assert_eq!(s.cursor(), 0);
    assert_eq!(s.current_location(), "start");
    assert_eq!(s.history().len(), 1);
    assert!(s.history()[0].tags.is_empty());
    assert_eq!(s.form_value("name").map(|v| v.as_str()), Some(""));
    assert!(s.field_states()[0].error);
}

#[test]
fn advance_after_filling_reaches_endpoint() {
    let mut s = session(scenario_workflow());
    s.edit("name", "Bob");
    let r = s.advance(1).unwrap();
    assert!(r);
    assert_eq!(s.cursor(), 1);
    assert_eq!(s.current_location(), "endpoint:end");
    assert_eq!(s.history().len(), 2);
    assert_eq!(s.history()[0].location, "start");
    assert_eq!(s.history()[0].tags, vec!["x".to_string()]);
    assert_eq!(s.history()[1].location, "endpoint:end");
    assert!(s.history()[1].tags.is_empty());
    assert_eq!(s.render_if_endpoint(), Some("Done".to_string()));
}

#[test]
fn blocked_advance_then_corrected_retry_succeeds() {
    let mut s = session(scenario_workflow());
    assert!(!s.advance(1).unwrap());
    s.edit("name", "Bob");
    assert!(s.advance(1).unwrap());
    assert_eq!(s.form_value("name").map(|v| v.as_str()), Some("Bob"));
}

#[test]
fn advance_on_non_progression_element_fails() {
    let mut s = session(scenario_workflow());
    assert!(matches!(
        s.advance(0),
        Err(NavigationError::NoSuchProgression { index: 0 })
    ));
    assert!(matches!(
        s.advance(7),
        Err(NavigationError::NoSuchProgression { index: 7 })
    ));
}

#[test]
fn advance_to_unresolved_link_fails() {
    let mut w = scenario_workflow();
    w.sections[0].1.push(progression("bad", "nowhere", &[]));
    let mut s = session(w);
    s.edit("name", "Bob");
    match s.advance(2) {
        Err(NavigationError::UnresolvedLink { link }) => assert_eq!(link, "nowhere"),
        other => panic!("unexpected result: {:?}", other),
    }
    // Nothing was committed.
    assert_eq!(s.cursor(), 0);
    assert_eq!(s.history().len(), 1);
    assert_eq!(s.current_location(), "start");
}

#[test]
fn jump_out_of_range_fails_fast() {
    let mut s = session(scenario_workflow());
    assert!(matches!(
        s.jump(1),
        Err(NavigationError::OutOfRangeJump { index: 1 })
    ));
    assert_eq!(s.cursor(), 0);
}

#[test]
fn jump_keeps_history_and_advance_truncates() {
    let mut s = session(chain_workflow());
    assert!(s.advance(0).unwrap());
    assert!(s.advance(0).unwrap());
    assert_eq!(s.history().len(), 3);
    assert_eq!(s.cursor(), 2);
    // Jump never shrinks or reorders the history.
    s.jump(0).unwrap();
    assert_eq!(s.history().len(), 3);
    assert_eq!(s.history()[1].location, "a");
    assert_eq!(s.history()[2].location, "b");
    assert_eq!(s.cursor(), 0);
    assert_eq!(s.current_location(), "start");
    // Advancing from the middle truncates to cursor + 1 entries, then
    // appends the destination.
    assert!(s.advance(0).unwrap());
    assert_eq!(s.history().len(), 2);
    assert_eq!(s.history()[0].location, "start");
    assert_eq!(s.history()[1].location, "a");
    assert_eq!(s.cursor(), 1);
}

#[test]
fn edited_value_survives_jump_away_and_back() {
    let mut w = chain_workflow();
    w.sections[0].1.push(text_input("note", true, None));
    let mut s = session(w);
    s.edit("note", "hello");
    assert!(s.advance(0).unwrap());
    assert_eq!(s.current_location(), "a");
    s.jump(0).unwrap();
    // The displayed value is reconstructed from the form store.
    let fields = s.field_states();
    assert_eq!(fields[0].elem.id, "note");
    assert_eq!(fields[0].value, "hello");
    assert_eq!(s.form_value("note").map(|v| v.as_str()), Some("hello"));
}

#[test]
fn select_accumulates_tags_of_selected_options_once() {
    let w = Workflow {
        tags: vec!["t1".to_string()],
        sections: vec![(
            "start".to_string(),
            vec![
                SectionElem::Input(InputSectionElem {
                    id: "pick".to_string(),
                    label: "pick".to_string(),
                    optional: true,
                    default: None,
                    input: Input::Select {
                        options: vec![
                            SelectOption::Simple("A".to_string()),
                            SelectOption::WithTags {
                                text: "B".to_string(),
                                tags: vec!["t1".to_string()],
                            },
                        ],
                        can_select_multiple: true,
                    },
                }),
                progression("go", "endpoint:end", &[]),
            ],
        )],
        index: "start".to_string(),
        endpoints: vec![("end".to_string(), Endpoint::Instructional("bye".to_string()))],
    };
    let mut s = session(w);
    s.edit("pick", "A, B");
    assert!(s.advance(1).unwrap());
    assert_eq!(s.history()[0].tags, vec!["t1".to_string()]);
}

#[test]
fn two_options_sharing_a_tag_record_it_once() {
    let w = Workflow {
        tags: vec!["shared".to_string()],
        sections: vec![(
            "start".to_string(),
            vec![
                SectionElem::Input(InputSectionElem {
                    id: "pick".to_string(),
                    label: "pick".to_string(),
                    optional: true,
                    default: None,
                    input: Input::Select {
                        options: vec![
                            SelectOption::WithTags {
                                text: "A".to_string(),
                                tags: vec!["shared".to_string()],
                            },
                            SelectOption::WithTags {
                                text: "B".to_string(),
                                tags: vec!["shared".to_string()],
                            },
                        ],
                        can_select_multiple: true,
                    },
                }),
                progression("go", "endpoint:end", &[]),
            ],
        )],
        index: "start".to_string(),
        endpoints: vec![("end".to_string(), Endpoint::Instructional("bye".to_string()))],
    };
    let mut s = session(w);
    s.edit("pick", "A, B");
    assert!(s.advance(1).unwrap());
    assert_eq!(s.history()[0].tags, vec!["shared".to_string()]);
}

#[test]
fn boolean_input_contributes_tags_only_when_true() {
    let boolean_input = |id: &str| {
        SectionElem::Input(InputSectionElem {
            id: id.to_string(),
            label: id.to_string(),
            optional: true,
            default: None,
            input: Input::Text {
                input_type: InputType::Boolean { tags: Some(vec!["flag".to_string()]) },
            },
        })
    };
    let w = Workflow {
        tags: vec!["flag".to_string()],
        sections: vec![(
            "start".to_string(),
            vec![boolean_input("agree"), progression("go", "endpoint:end", &[])],
        )],
        index: "start".to_string(),
        endpoints: vec![("end".to_string(), Endpoint::Instructional("bye".to_string()))],
    };
    let mut s = session(w.clone());
    s.edit("agree", "true");
    assert!(s.advance(1).unwrap());
    assert_eq!(s.history()[0].tags, vec!["flag".to_string()]);

    let mut s2 = session(w);
    assert!(s2.advance(1).unwrap());
    assert!(s2.history()[0].tags.is_empty());
}

#[test]
fn boolean_input_normalizes_seeded_value() {
    let w = Workflow {
        tags: vec![],
        sections: vec![(
            "start".to_string(),
            vec![
                SectionElem::Input(InputSectionElem {
                    id: "agree".to_string(),
                    label: "agree".to_string(),
                    optional: true,
                    default: None,
                    input: Input::Text { input_type: InputType::Boolean { tags: None } },
                }),
                progression("go", "endpoint:end", &[]),
            ],
        )],
        index: "start".to_string(),
        endpoints: vec![("end".to_string(), Endpoint::Instructional("bye".to_string()))],
    };
    let s = session(w);
    assert_eq!(s.field_states()[0].value, "false");
    assert_eq!(s.form_value("agree").map(|v| v.as_str()), Some("false"));
}

#[test]
fn default_value_seeds_input_and_form_store() {
    let mut w = chain_workflow();
    w.sections[0].1.push(text_input("city", true, Some("Berlin")));
    let s = session(w);
    assert_eq!(s.field_states()[0].value, "Berlin");
    assert_eq!(s.form_value("city").map(|v| v.as_str()), Some("Berlin"));
}

#[test]
fn report_endpoint_renders_with_interpolation_and_trailer() {
    let w = Workflow {
        tags: vec!["x".to_string(), "y".to_string()],
        sections: vec![
            (
                "start".to_string(),
                vec![text_input("name", false, None), progression("go", "mid", &["x"])],
            ),
            ("mid".to_string(), vec![progression("go", "endpoint:report", &["y"])]),
        ],
        index: "start".to_string(),
        endpoints: vec![(
            "report".to_string(),
            Endpoint::Report {
                preamble: "Copy this:".to_string(),
                text: "Report from ${name}.".to_string(),
            },
        )],
    };
    let mut s = session(w);
    s.edit("name", "Ana");
    assert!(s.advance(1).unwrap());
    assert!(s.advance(0).unwrap());
    assert_eq!(s.current_location(), "endpoint:report");
    let rendered = s.render_if_endpoint().unwrap();
    let expected = format!(
        "Report from Ana.\n\n<section>\n<details>Tribble internal data</details>\n\n{}\n\n</section>",
        base64::encode("x,y")
    );
    assert_eq!(rendered, expected);
}

#[test]
fn empty_edit_survives_jump_away_and_back() {
    // Clearing a defaulted input is an entry like any other: the empty
    // value is stored, survives the jump, and is not resurrected by the
    // declared default.
    let mut w = chain_workflow();
    w.sections[0].1.push(text_input("city", true, Some("Berlin")));
    let mut s = session(w);
    assert_eq!(s.field_states()[0].value, "Berlin");
    s.edit("city", "");
    assert!(s.advance(0).unwrap());
    s.jump(0).unwrap();
    assert_eq!(s.field_states()[0].value, "");
    assert_eq!(s.form_value("city").map(|v| v.as_str()), Some(""));
}

#[test]
fn jump_to_visited_section_keeps_form_store() {
    let mut w = chain_workflow();
    w.sections[0].1.push(text_input("note", true, None));
    w.sections[1].1.push(text_input("city", true, Some("Berlin")));
    let mut s = session(w);
    s.edit("note", "kept");
    assert!(s.advance(0).unwrap());
    assert!(s.advance(0).unwrap());
    // Jumping back to visited sections rewrites only values it leaves
    // equal: the store reads as before.
    s.jump(0).unwrap();
    assert_eq!(s.form_value("note").map(|v| v.as_str()), Some("kept"));
    assert_eq!(s.form_value("city").map(|v| v.as_str()), Some("Berlin"));
    s.jump(1).unwrap();
    assert_eq!(s.form_value("note").map(|v| v.as_str()), Some("kept"));
    assert_eq!(s.form_value("city").map(|v| v.as_str()), Some("Berlin"));
}

#[test]
fn joined_selection_splits_back_into_both_options() {
    let w = Workflow {
        tags: vec!["t1".to_string(), "t2".to_string()],
        sections: vec![(
            "start".to_string(),
            vec![
                SectionElem::Input(InputSectionElem {
                    id: "pick".to_string(),
                    label: "pick".to_string(),
                    optional: true,
                    default: None,
                    input: Input::Select {
                        options: vec![
                            SelectOption::WithTags {
                                text: "A".to_string(),
                                tags: vec!["t1".to_string()],
                            },
                            SelectOption::WithTags {
                                text: "B".to_string(),
                                tags: vec!["t2".to_string()],
                            },
                        ],
                        can_select_multiple: true,
                    },
                }),
                progression("go", "endpoint:end", &[]),
            ],
        )],
        index: "start".to_string(),
        endpoints: vec![("end".to_string(), Endpoint::Instructional("bye".to_string()))],
    };
    // The stored value of a multiple selection is the joined option texts.
    let joined = tribble::tags::join_selected(&vec!["A".to_string(), "B".to_string()]);
    assert_eq!(joined, "A, B");
    let mut s = session(w);
    s.edit("pick", joined.as_str());
    assert!(s.advance(1).unwrap());
    assert_eq!(s.history()[0].tags, vec!["t1".to_string(), "t2".to_string()]);
}
