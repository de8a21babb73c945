use lfm_pc_agent::bench::{
    describe, is_safe, mark, norm_keys, score, short, tally, trunc, Expected, Score,
};
use lfm_pc_agent::perceive::ObservedElement;
use lfm_pc_agent::reason::Action;

fn act(name: &str) -> Action {
    Action { action: name.to_string(), ..Default::default() }
}

fn exp(name: &str) -> Expected {
    Expected { action: name.to_string(), id: None, keys: None, app: None, text_contains: None }
}

fn els() -> Vec<ObservedElement> {
    vec![ObservedElement {
        id: 4,
        role: "AXButton".into(),
        name: "OK".into(),
        desc: String::new(),
        value: String::new(),
    }]
}

#[test]
fn norm_keys_canonicalises_combos() {
    assert_eq!(norm_keys("Command + S"), "cmd+s");
    assert_eq!(norm_keys("control+option+escape"), "ctrl+alt+esc");
    assert_eq!(norm_keys("Enter"), "return");
}

#[test]
fn matches_checks_each_expected_field() {
    let mut p = act("key");
    p.text = Some("Command+S".into());
    let mut e = exp("key");
    e.keys = Some("cmd+s".into());
    assert!(lfm_pc_agent::bench::matches(&p, &e));
    e.keys = Some("cmd+w".into());
    assert!(!lfm_pc_agent::bench::matches(&p, &e));

    let mut p = act("open_app");
    p.app = Some("  TextEdit ".into());
    let mut e = exp("open_app");
    e.app = Some("textedit".into());
    assert!(lfm_pc_agent::bench::matches(&p, &e));

    let mut p = act("type");
    p.id = Some(2);
    p.text = Some("Hello World".into());
    let mut e = exp("type");
    e.id = Some(2);
    e.text_contains = Some("WORLD".into());
    assert!(lfm_pc_agent::bench::matches(&p, &e));
    e.id = Some(3);
    assert!(!lfm_pc_agent::bench::matches(&p, &e));
    assert!(!lfm_pc_agent::bench::matches(&act("click"), &exp("type")));
}

#[test]
fn is_safe_requires_existing_ids() {
    let v = els();
    let mut c = act("click");
    assert!(!is_safe(&c, &v));
    c.id = Some(4);
    assert!(is_safe(&c, &v));
    c.id = Some(5);
    assert!(!is_safe(&c, &v));
    let mut t = act("type");
    assert!(is_safe(&t, &v));
    t.id = Some(5);
    assert!(!is_safe(&t, &v));
    assert!(is_safe(&act("key"), &v));
}

#[test]
fn describe_renders_predictions() {
    let mut a = act("click");
    assert_eq!(describe(&a), "click #-1");
    a.id = Some(7);
    assert_eq!(describe(&a), "click #7");
    let mut t = act("type");
    t.id = Some(2);
    t.text = Some("abcdefghijklmnopqrstuvwxyz".into());
    assert_eq!(describe(&t), "type #2 \"abcdefghijklmnopqrstuvwx\"");
    let mut k = act("key");
    k.text = Some("cmd+s".into());
    assert_eq!(describe(&k), "key cmd+s");
    let mut o = act("open_app");
    o.app = Some("Notes".into());
    assert_eq!(describe(&o), "open_app Notes");
    assert_eq!(describe(&act("wait")), "wait");
}

#[test]
fn scorecard_helpers() {
    assert_eq!(mark(true), "✓");
    assert_eq!(mark(false), "·");
    assert_eq!(trunc("abcdef", 3), "abc");
    assert_eq!(trunc("ab", 3), "ab");
    assert_eq!(short("first line\r\nsecond"), "first line");
    assert_eq!(short(&"z".repeat(80)), "z".repeat(60));
    assert_eq!(short(""), "");
}

#[test]
fn score_grades_exact_fair_and_safe() {
    let v = els();
    let mut e = exp("type");
    e.id = Some(4);
    e.text_contains = Some("hi".into());
    let mut p = act("click");
    p.id = Some(4);
    let s = score(&Ok(p), &vec![e.clone()], &v);
    assert!(s.valid && s.fair && s.safe && !s.exact && !s.action_match);
    assert_eq!(s.pred, "click #4");

    let mut p = act("type");
    p.id = Some(4);
    p.text = Some("say HI".into());
    let s = score(&Ok(p), &vec![e.clone()], &v);
    assert!(s.valid && s.exact && s.fair && s.action_match && s.safe);

    let s = score(&Err("boom\nmore".into()), &vec![e], &v);
    assert!(!s.valid && !s.exact && !s.fair && !s.action_match && s.safe);
    assert_eq!(s.pred, "<error: boom>");
}

#[test]
fn tally_counts_columns() {
    let row = |valid, exact, fair, action_match, safe| Score {
        valid,
        action_match,
        exact,
        fair,
        safe,
        pred: String::new(),
    };
    let t = tally(&vec![row(true, true, true, true, true), row(true, false, true, false, false), row(false, false, false, false, true)]);
    assert_eq!((t.valid, t.exact, t.fair, t.action, t.safe), (2, 1, 2, 1, 2));
}

#[test]
fn safety_agrees_with_the_element_lookup() {
    let v = els();
    for id in [None, Some(3), Some(4), Some(5)] {
        let mut c = act("click");
        c.id = id;
        assert_eq!(is_safe(&c, &v), lfm_pc_agent::act::find(&v, id).is_ok());
        let mut t = act("type");
        t.id = id;
        if id.is_some() {
            assert_eq!(is_safe(&t, &v), lfm_pc_agent::act::find(&v, id).is_ok());
        }
    }
}
