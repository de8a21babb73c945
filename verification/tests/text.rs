use lfm_pc_agent::text::{chars_of, esc, string_of, trim_str, truncate};

#[test]
fn text_helpers() {
    assert_eq!(trim_str("\t a b \n"), "a b");
    assert_eq!(truncate("héllo", 2), "hé");
    assert_eq!(esc("\\\""), "\\\\\\\"");
    assert_eq!(string_of(&chars_of("añb")), "añb");
}

fn unescape(s: &str) -> String {
    let mut out = String::new();
    let mut it = s.chars();
    while let Some(c) = it.next() {
        if c == '\\' {
            if let Some(n) = it.next() {
                out.push(n);
                continue;
            }
        }
        out.push(c);
    }
    out
}

#[test]
fn escaping_round_trips() {
    for t in ["", "plain", "a\"b", "back\\slash", "\\\"\\\"", "\"", "x\\"] {
        assert_eq!(unescape(&esc(t)), t);
    }
}
