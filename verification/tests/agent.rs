use lfm_pc_agent::act::Outcome;
use lfm_pc_agent::agent::{
    after_step, build_user_text, describe, expand_tilde, finished_by, ground_truth_line,
    proceed, StepBudget, Turn, SYSTEM_PROMPT,
};
use lfm_pc_agent::perceive::ObservedElement;
use lfm_pc_agent::reason::Action;

fn el(id: usize, role: &str, name: &str) -> ObservedElement {
    ObservedElement { id, role: role.into(), name: name.into(), desc: String::new(), value: String::new() }
}

#[test]
fn user_text_lists_elements_and_recent_actions() {
    let els = vec![el(1, "AXButton", "Save"), el(2, "AXTextField", "")];
    let history: Vec<String> = (1..=8).map(|i| format!("step {i}")).collect();
    let t = build_user_text("Save it", "TextEdit", &els, &history, false);
    assert_eq!(
        t,
        "TASK: Save it\n\nFRONTMOST APP: TextEdit\n(no screenshot this turn)\nUI ELEMENTS (choose by id):\n  1: Button \"Save\"\n  2: TextField (value: \"\")\n\nRECENT ACTIONS:\n  - step 3\n  - step 4\n  - step 5\n  - step 6\n  - step 7\n  - step 8\n\nReply with ONE JSON action for the next step."
    );
}

#[test]
fn user_text_when_empty() {
    let t = build_user_text("T", "P", &[], &[], true);
    assert_eq!(
        t,
        "TASK: T\n\nFRONTMOST APP: P\nA screenshot of the active window is attached below.\nUI ELEMENTS (choose by id):\n(no readable elements — use open_app / key / type)\n\nRECENT ACTIONS:\n(none yet)\n\nReply with ONE JSON action for the next step."
    );
}

#[test]
fn describe_shows_full_text() {
    let mut a = Action { action: "type".into(), ..Default::default() };
    a.text = Some("abcdefghijklmnopqrstuvwxyz".into());
    assert_eq!(describe(&a), "type \"abcdefghijklmnopqrstuvwxyz\"");
    let mut k = Action { action: "key".into(), ..Default::default() };
    k.keys = Some("return".into());
    k.text = Some("ignored".into());
    assert_eq!(describe(&k), "key return");
    assert_eq!(describe(&Action { action: "click".into(), ..Default::default() }), "click #-1");
}

#[test]
fn proceed_accepts_y_and_yes() {
    assert!(proceed("y\n"));
    assert!(proceed("  YES "));
    assert!(proceed("Y"));
    assert!(proceed("\u{3000}yEs\r\n"));
    assert!(!proceed("yess"));
    assert!(!proceed("no"));
    assert!(!proceed(""));
}

#[test]
fn the_loop_stops_on_done_and_records_steps() {
    let mut done = Action { action: "done".into(), ..Default::default() };
    done.text = Some("saved".into());
    assert_eq!(finished_by(&done).as_deref(), Some("saved"));
    assert_eq!(finished_by(&Action { action: "done".into(), ..Default::default() }).as_deref(), Some(""));
    assert_eq!(finished_by(&Action { action: "click".into(), ..Default::default() }), None);

    match after_step("click", &Ok(Outcome::Continue("clicked #1 (Button)".into()))) {
        Turn::Record(h) => assert_eq!(h, "click: clicked #1 (Button)"),
        other => panic!("unexpected {other:?}"),
    }
    match after_step("key", &Err("empty key spec".into())) {
        Turn::Record(h) => assert_eq!(h, "key FAILED: empty key spec"),
        other => panic!("unexpected {other:?}"),
    }
    match after_step("done", &Ok(Outcome::Done("ok".into()))) {
        Turn::Finish(m) => assert_eq!(m, "ok"),
        other => panic!("unexpected {other:?}"),
    }
}

#[test]
fn tilde_expands_to_home() {
    let sep_join = |r: String, base: &str, rest: &str| {
        r == format!("{base}/{rest}") || r == format!("{base}\\{rest}")
    };
    assert!(sep_join(expand_tilde("~/Desktop/x.txt", Some("/Users/me")), "/Users/me", "Desktop/x.txt"));
    assert_eq!(expand_tilde("~/Desktop/x.txt", None), "~/Desktop/x.txt");
    assert_eq!(expand_tilde("/tmp/x", Some("/Users/me")), "/tmp/x");
    assert_eq!(expand_tilde("~x", Some("/Users/me")), "~x");
    assert_eq!(expand_tilde("~", Some("/Users/me")), "~");
    assert!(sep_join(expand_tilde("~/b", Some("/a")), "/a", "b"));
}

#[test]
fn tilde_with_a_home_ending_in_slash_or_empty() {
    assert_eq!(expand_tilde("~/x", Some("/h/")), "/h/x");
    assert_eq!(expand_tilde("~/x", Some("")), "x");
    assert_eq!(expand_tilde("~/", Some("/h/")), "/h/");
}

#[test]
fn step_budget_caps_the_loop() {
    let mut b = StepBudget::new(3);
    assert_eq!(b.next_step(), Some(1));
    assert_eq!(b.next_step(), Some(2));
    assert_eq!(b.next_step(), Some(3));
    assert_eq!(b.next_step(), None);
    assert_eq!(b.next_step(), None);
    assert_eq!((b.taken, b.max), (3, 3));
    let mut z = StepBudget::new(0);
    assert_eq!(z.next_step(), None);
}

#[test]
fn ground_truth_lines() {
    assert_eq!(ground_truth_line("~/x", true), "🔎 ground-truth check: ~/x exists ✓");
    assert_eq!(ground_truth_line("~/x", false), "🔎 ground-truth check: ~/x NOT found ✗");
}

#[test]
fn system_prompt_names_every_action() {
    for a in ["open_app", "click", "type", "key", "wait", "done"] {
        assert!(SYSTEM_PROMPT.contains(&format!("{{\"action\":\"{a}\"")));
    }
    assert!(SYSTEM_PROMPT.starts_with("You are an on-device agent"));
    assert!(SYSTEM_PROMPT.ends_with("Emit \"done\" as soon as the goal is achieved."));
}
