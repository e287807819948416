use tribble::errors::ParserError;
use tribble::loader::{
    first_language_path, language_path_for, split_locale_path, strip_page_prefix, validate_config,
    workflow_names, workflow_props,
};
use tribble::parser::{
    Config, Endpoint, Input, InputSectionElem, InputType, SectionElem, SelectOption, Workflow,
    alist_get, default_input_err_msg,
};

fn text_input(id: &str, optional: bool) -> SectionElem {
    SectionElem::Input(InputSectionElem {
        id: id.to_string(),
        label: id.to_string(),
        optional,
        default: None,
        input: Input::Text { input_type: InputType::Text },
    })
}

fn progression(text: &str, link: &str, tags: &[&str]) -> SectionElem {
    SectionElem::Progression {
        text: text.to_string(),
        link: link.to_string(),
        tags: tags.iter().map(|t| t.to_string()).collect(),
    }
}

fn tiny_workflow() -> Workflow {
    Workflow {
        tags: vec!["x".to_string()],
        sections: vec![(
            "start".to_string(),
            vec![text_input("name", false), progression("Next", "endpoint:end", &["x"])],
        )],
        index: "start".to_string(),
        endpoints: vec![("end".to_string(), Endpoint::Instructional("Done".to_string()))],
    }
}

#[test]
fn valid_workflow_passes() {
    assert!(tiny_workflow().validate());
}

#[test]
fn valid_workflow_index_is_a_section() {
    let w = tiny_workflow();
    assert!(w.validate());
    assert!(alist_get(&w.sections, w.index.as_str()).is_some());
}

#[test]
fn missing_index_fails() {
    let mut w = tiny_workflow();
    w.index = "nowhere".to_string();
    assert!(!w.validate());
}

#[test]
fn endpoint_prefixed_index_fails() {
    let mut w = tiny_workflow();
    w.sections.push(("endpoint:odd".to_string(), vec![]));
    w.index = "endpoint:odd".to_string();
    assert!(!w.validate());
}

#[test]
fn comma_in_workflow_tag_fails() {
    let mut w = tiny_workflow();
    w.tags = vec!["a,b".to_string()];
    assert!(!w.validate());
}

#[test]
fn comma_in_progression_tag_fails() {
    let mut w = tiny_workflow();
    w.sections[0].1.push(progression("Go", "endpoint:end", &["bad,tag"]));
    assert!(!w.validate());
}

#[test]
fn comma_in_option_text_fails() {
    let mut w = tiny_workflow();
    w.sections[0].1.push(SectionElem::Input(InputSectionElem {
        id: "pick".to_string(),
        label: "pick".to_string(),
        optional: true,
        default: None,
        input: Input::Select {
            options: vec![SelectOption::Simple("a, b".to_string())],
            can_select_multiple: false,
        },
    }));
    assert!(!w.validate());
}

#[test]
fn duplicate_option_text_fails() {
    let mut w = tiny_workflow();
    w.sections[0].1.push(SectionElem::Input(InputSectionElem {
        id: "pick".to_string(),
        label: "pick".to_string(),
        optional: true,
        default: None,
        input: Input::Select {
            options: vec![
                SelectOption::Simple("same".to_string()),
                SelectOption::WithTags { text: "same".to_string(), tags: vec![] },
            ],
            can_select_multiple: true,
        },
    }));
    assert!(!w.validate());
}

#[test]
fn duplicate_input_id_fails() {
    let mut w = tiny_workflow();
    w.sections[0].1.push(text_input("name", true));
    assert!(!w.validate());
}

#[test]
fn duplicate_section_name_fails() {
    let mut w = tiny_workflow();
    w.sections.push(("start".to_string(), vec![]));
    assert!(!w.validate());
}

#[test]
fn default_error_message_is_fixed() {
    assert_eq!(
        default_input_err_msg(),
        "This field is required, please enter a value."
    );
}

#[test]
fn input_type_names() {
    assert_eq!(InputType::Boolean { tags: None }.to_string(), "checkbox");
    assert_eq!(InputType::DatetimeLocal.to_string(), "datetime-local");
    assert_eq!(InputType::Number { min: Some(1), max: None }.to_string(), "number");
    assert_eq!(InputType::Range { min: 0, max: 10 }.to_string(), "range");
    assert!(matches!(InputType::default(), InputType::Text));
}

#[test]
fn root_with_no_languages_is_refused() {
    let cfg = Config::Root { languages: vec![] };
    assert!(matches!(
        first_language_path(&cfg, "tribble.yml"),
        Err(ParserError::NoLanguages { .. })
    ));
    assert!(validate_config(&cfg, "tribble.yml").is_err());
}

#[test]
fn root_yields_first_language_file() {
    let cfg = Config::Root {
        languages: vec![
            ("en".to_string(), "./en.yml".to_string()),
            ("fr".to_string(), "./fr.yml".to_string()),
        ],
    };
    assert_eq!(first_language_path(&cfg, "tribble.yml").unwrap(), Some("./en.yml".to_string()));
    assert_eq!(language_path_for(&cfg, "fr").unwrap(), "./fr.yml".to_string());
    assert!(matches!(
        language_path_for(&cfg, "de"),
        Err(ParserError::UnknownLocale { .. })
    ));
}

#[test]
fn root_linked_to_root_is_refused() {
    let inner = Config::Root { languages: vec![("en".to_string(), "./en.yml".to_string())] };
    let err = workflow_names(&inner, "tribble.yml", "./en.yml").unwrap_err();
    match err {
        ParserError::RootLinksToRoot { filename, linked } => {
            assert_eq!(filename, "tribble.yml");
            assert_eq!(linked, "./en.yml");
        }
        other => panic!("unexpected error: {:?}", other),
    }
}

#[test]
fn language_lists_workflow_names() {
    let cfg = Config::Language {
        input_err_msg: "fill it".to_string(),
        workflows: vec![
            ("bugs".to_string(), tiny_workflow()),
            ("docs".to_string(), tiny_workflow()),
        ],
    };
    let names = workflow_names(&cfg, "tribble.yml", "tribble.yml").unwrap();
    assert_eq!(names, vec!["bugs".to_string(), "docs".to_string()]);
}

#[test]
fn workflow_props_finds_workflow() {
    let cfg = Config::Language {
        input_err_msg: "fill it".to_string(),
        workflows: vec![("bugs".to_string(), tiny_workflow())],
    };
    let props = workflow_props(cfg, "bugs", "tribble.yml", "tribble.yml").unwrap();
    assert_eq!(props.input_err_msg, "fill it");
    assert_eq!(props.workflow.index, "start");
}

#[test]
fn workflow_props_unknown_name() {
    let cfg = Config::Language { input_err_msg: "m".to_string(), workflows: vec![] };
    assert!(matches!(
        workflow_props(cfg, "bugs", "a", "b"),
        Err(ParserError::UnknownWorkflow { .. })
    ));
}

#[test]
fn invalid_workflow_in_config_is_named() {
    let mut bad = tiny_workflow();
    bad.index = "nowhere".to_string();
    let cfg = Config::Language {
        input_err_msg: "m".to_string(),
        workflows: vec![("bad".to_string(), bad)],
    };
    match validate_config(&cfg, "tribble.yml").unwrap_err() {
        ParserError::InvalidWorkflow { workflow } => assert_eq!(workflow, "bad"),
        other => panic!("unexpected error: {:?}", other),
    }
}

#[test]
fn page_path_parsing() {
    assert_eq!(strip_page_prefix("workflow/en/bugs"), Some("en/bugs".to_string()));
    assert_eq!(strip_page_prefix("other/en/bugs"), None);
    let (locale, name) = split_locale_path("en/bugs");
    assert_eq!(locale, "en");
    assert_eq!(name, "bugs");
    let (only, rest) = split_locale_path("bugs");
    assert_eq!(only, "bugs");
    assert_eq!(rest, "");
}
