use lfm_pc_agent::act::{
    ax_matcher, ax_press_script, combo_script, find, plan, press_keys, step_outcome, type_text, ActError, Outcome,
    Step, TypeCommand,
};
use lfm_pc_agent::perceive::ObservedElement;
use lfm_pc_agent::reason::Action;

fn el(id: usize, role: &str, name: &str, desc: &str, value: &str) -> ObservedElement {
    ObservedElement {
        id,
        role: role.to_string(),
        name: name.to_string(),
        desc: desc.to_string(),
        value: value.to_string(),
    }
}

fn act(name: &str) -> Action {
    Action { action: name.to_string(), ..Default::default() }
}

fn view() -> Vec<ObservedElement> {
    vec![
        el(1, "AXButton", "Save", "", ""),
        el(2, "AXTextField", "", "Search", "draft"),
        el(3, "AXButton", "", "", ""),
    ]
}

const SE: &str = "tell application \"System Events\" to ";

#[test]
fn press_keys_builds_modifier_clauses() {
    assert_eq!(press_keys("CMD+S").unwrap(), format!("{SE}keystroke \"s\" using {{command down}}"));
    assert_eq!(press_keys("cmd+s").unwrap(), format!("{SE}keystroke \"s\" using {{command down}}"));
    assert_eq!(press_keys("return").unwrap(), format!("{SE}key code 36"));
    assert_eq!(press_keys("cmd+space").unwrap(), format!("{SE}key code 49 using {{command down}}"));
    assert_eq!(
        press_keys(" Command + Shift + Tab ").unwrap(),
        format!("{SE}key code 48 using {{command down, shift down}}")
    );
    assert_eq!(
        press_keys("ctrl+opt+left").unwrap(),
        format!("{SE}key code 123 using {{control down, option down}}")
    );
    assert_eq!(press_keys("⌘+q").unwrap(), format!("{SE}keystroke \"q\" using {{command down}}"));
}

#[test]
fn press_keys_minus_is_a_key_not_a_separator() {
    assert_eq!(press_keys("cmd+-").unwrap(), format!("{SE}keystroke \"-\" using {{command down}}"));
}

#[test]
fn press_keys_skips_unknown_modifiers_and_escapes_keys() {
    assert_eq!(press_keys("hyper+x").unwrap(), format!("{SE}keystroke \"x\""));
    assert_eq!(press_keys("\"").unwrap(), format!("{SE}keystroke \"\\\"\""));
    assert_eq!(press_keys("cmd++esc").unwrap(), format!("{SE}key code 53 using {{command down}}"));
}

#[test]
fn press_keys_rejects_an_empty_combo() {
    assert_eq!(press_keys(""), Err(ActError::EmptyKeySpec));
    assert_eq!(press_keys(" + + "), Err(ActError::EmptyKeySpec));
    assert_eq!(press_keys("+"), Err(ActError::EmptyKeySpec));
    assert_eq!(press_keys("\t+\u{a0}+\u{3000}"), Err(ActError::EmptyKeySpec));
    assert_eq!(ActError::EmptyKeySpec.message(), "empty key spec");
}

#[test]
fn find_resolves_ids() {
    let els = view();
    assert_eq!(find(&els, Some(2)), Ok(1));
    assert_eq!(find(&els, Some(9)), Err(ActError::NoSuchElement(9)));
    assert_eq!(find(&els, None), Err(ActError::NeedsElementId));
    assert_eq!(ActError::NoSuchElement(9).message(), "no element with id 9 in the current view");
    assert_eq!(ActError::NoSuchElement(-4).message(), "no element with id -4 in the current view");
}

#[test]
fn plan_maps_each_action() {
    let els = view();
    let mut a = act("open_app");
    a.text = Some("TextEdit".to_string());
    match plan(&a, &els).unwrap() {
        Step::OpenApp(app) => assert_eq!(app, "TextEdit"),
        other => panic!("unexpected {other:?}"),
    }
    let mut a = act("open_app");
    a.app = Some("Safari".to_string());
    a.text = Some("TextEdit".to_string());
    match plan(&a, &els).unwrap() {
        Step::OpenApp(app) => assert_eq!(app, "Safari"),
        other => panic!("unexpected {other:?}"),
    }
    assert_eq!(plan(&act("open_app"), &els).unwrap_err(), ActError::NeedsApp);
    assert_eq!(ActError::NeedsApp.message(), "open_app needs an \"app\"");

    let mut a = act("click");
    a.id = Some(3);
    assert!(matches!(plan(&a, &els).unwrap(), Step::Click(2)));
    assert_eq!(plan(&act("click"), &els).unwrap_err(), ActError::NeedsElementId);

    let mut a = act("type");
    a.id = Some(7);
    a.text = Some("hi".to_string());
    match plan(&a, &els).unwrap() {
        Step::Type { focus, text } => {
            assert_eq!(focus, None);
            assert_eq!(text, "hi");
        }
        other => panic!("unexpected {other:?}"),
    }

    let mut a = act("key");
    a.text = Some("cmd+s".to_string());
    match plan(&a, &els).unwrap() {
        Step::Key { keys, script } => {
            assert_eq!(keys, "cmd+s");
            assert_eq!(script, format!("{SE}keystroke \"s\" using {{command down}}"));
        }
        other => panic!("unexpected {other:?}"),
    }
    assert_eq!(plan(&act("key"), &els).unwrap_err(), ActError::NeedsKeys);
    assert_eq!(ActError::NeedsKeys.message(), "key needs \"keys\"");
    let mut a = act("key");
    a.keys = Some("+".to_string());
    assert_eq!(plan(&a, &els).unwrap_err(), ActError::EmptyKeySpec);

    assert!(matches!(plan(&act("wait"), &els).unwrap(), Step::Wait));
    match plan(&act("done"), &els).unwrap() {
        Step::Finish(t) => assert_eq!(t, ""),
        other => panic!("unexpected {other:?}"),
    }
    match plan(&act("scroll"), &els).unwrap() {
        Step::Ignore(m) => assert_eq!(m, "ignored unknown action \"scroll\""),
        other => panic!("unexpected {other:?}"),
    }
}

fn text_of(o: Outcome) -> (bool, String) {
    match o {
        Outcome::Continue(s) => (false, s),
        Outcome::Done(s) => (true, s),
    }
}

#[test]
fn outcomes_are_worded_for_the_history() {
    let els = view();
    assert_eq!(text_of(step_outcome(&Step::OpenApp("Notes".into()), &els, true)), (false, "launched Notes".into()));
    assert_eq!(
        text_of(step_outcome(&Step::OpenApp("Nope".into()), &els, false)),
        (false, "could not launch Nope".into())
    );
    assert_eq!(text_of(step_outcome(&Step::Click(0), &els, true)), (false, "clicked #1 (Button \"Save\")".into()));
    assert_eq!(
        text_of(step_outcome(&Step::Type { focus: Some(1), text: String::new() }, &els, true)),
        (false, "focused #2 (no text to type)".into())
    );
    assert_eq!(
        text_of(step_outcome(&Step::Type { focus: None, text: String::new() }, &els, true)),
        (false, "type called with no text and no id (no-op)".into())
    );
    let long = "x".repeat(50);
    assert_eq!(
        text_of(step_outcome(&Step::Type { focus: None, text: long }, &els, true)),
        (false, format!("typed \"{}\"", "x".repeat(40)))
    );
    assert_eq!(
        text_of(step_outcome(&Step::Type { focus: None, text: "say \"hi\"".into() }, &els, true)),
        (false, "typed \"say \\\"hi\\\"\"".into())
    );
    assert_eq!(
        text_of(step_outcome(&Step::Key { keys: "cmd+s".into(), script: String::new() }, &els, true)),
        (false, "pressed cmd+s".into())
    );
    assert_eq!(text_of(step_outcome(&Step::Wait, &els, true)), (false, "waited".into()));
    assert_eq!(text_of(step_outcome(&Step::Finish("ok".into()), &els, true)), (true, "ok".into()));
}

#[test]
fn type_text_picks_the_channel() {
    assert!(matches!(type_text("", true), TypeCommand::Nothing));
    match type_text("hello", true) {
        TypeCommand::Cliclick(a) => assert_eq!(a, "t:hello"),
        other => panic!("unexpected {other:?}"),
    }
    match type_text("a\"b\\c", false) {
        TypeCommand::Script(s) => assert_eq!(s, format!("{SE}keystroke \"a\\\"b\\\\c\"")),
        other => panic!("unexpected {other:?}"),
    }
}

#[test]
fn ax_press_finds_by_name_then_description() {
    let els = view();
    assert_eq!(ax_matcher(&els[0]).unwrap(), "name is \"Save\"");
    assert_eq!(ax_matcher(&els[1]).unwrap(), "description is \"Search\"");
    assert_eq!(ax_matcher(&els[2]).unwrap_err(), ActError::Unpressable(3));
    assert_eq!(
        ActError::Unpressable(3).message(),
        "element #3 has no name/description; install cliclick for coordinate clicks"
    );
    assert_eq!(
        ax_press_script(&els[0], "name is \"Save\"", "Text\"Edit"),
        "tell application \"System Events\" to tell process \"Text\\\"Edit\"\nclick (first button of (entire contents of front window) whose name is \"Save\")\nend tell"
    );
    assert_eq!(
        ax_press_script(&els[1], "description is \"Search\"", "Safari"),
        "tell application \"System Events\" to tell process \"Safari\"\nclick (first UI element of (entire contents of front window) whose description is \"Search\")\nend tell"
    );
}

#[test]
fn combo_script_uses_the_last_piece_as_key() {
    let parts: Vec<String> = vec!["cmd".into(), "alt".into(), "return".into()];
    assert_eq!(combo_script(&parts).unwrap(), format!("{SE}key code 36 using {{command down, option down}}"));
    let parts: Vec<String> = vec!["Cmd".into(), "s".into()];
    assert_eq!(combo_script(&parts).unwrap(), format!("{SE}keystroke \"s\""));
    assert_eq!(combo_script(&[]), None);
}
