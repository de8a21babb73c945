use lfm_pc_agent::perceive::{
    ax_body, ax_records, ax_script, ax_tree, bounds_fields, clean_field, front_window_bounds_script,
    frontmost_process, png_base64, ObservedElement, AX_BODY_HEAD, AX_BODY_TAIL, AX_HANDLER,
};
use lfm_pc_agent::text::esc;

fn el(role: &str, name: &str, desc: &str, value: &str) -> ObservedElement {
    ObservedElement {
        id: 1,
        role: role.to_string(),
        name: name.to_string(),
        desc: desc.to_string(),
        value: value.to_string(),
    }
}

#[test]
fn label_shows_role_title_and_value() {
    assert_eq!(el("AXButton", "Save", "", "").label(), "Button \"Save\"");
    assert_eq!(el("AXTextField", "", "", "").label(), "TextField (value: \"\")");
    assert_eq!(el("textfield", "", "", "").label(), "textfield (value: \"\")");
    assert_eq!(el("textfield", "Search", "", "").label(), "textfield \"Search\" (value: \"\")");
    assert_eq!(el("AXTextArea", "", "", "").label(), "TextArea (value: \"\")");
    assert_eq!(el("button", "Save", "", "").label(), "button \"Save\"");
    assert_eq!(el("AXCheckBox", "Bold", "", "").label(), "CheckBox \"Bold\"");
    assert_eq!(el("AXTextField", "", "Search", "draft").label(), "TextField \"Search\" (value: \"draft\")");
    assert_eq!(el("TextArea", "Body", "", "Body").label(), "TextArea \"Body\"");
    let v = "v".repeat(70);
    assert_eq!(el("AXTextArea", "", "", &v).label(), format!("TextArea (value: \"{}\")", "v".repeat(60)));
}

#[test]
fn frontmost_process_trims_the_output() {
    assert_eq!(frontmost_process("TextEdit\n"), "TextEdit");
    assert_eq!(frontmost_process("  \n"), "");
}

#[test]
fn window_bounds_script_and_fields() {
    assert_eq!(
        front_window_bounds_script("Text\"Edit"),
        "tell application \"System Events\" to tell process \"Text\\\"Edit\"\nset p to position of front window\nset s to size of front window\nreturn ((item 1 of p) as text) & \",\" & ((item 2 of p) as text) & \",\" & ((item 1 of s) as text) & \",\" & ((item 2 of s) as text)\nend tell"
    );
    assert_eq!(bounds_fields(" 10, 20 ,300,400\n"), Some(vec!["10".into(), "20".into(), "300".into(), "400".into()]));
    assert_eq!(bounds_fields("1,2,3"), None);
    assert_eq!(bounds_fields("missing value"), None);
}

#[test]
fn ax_script_escapes_the_process_name() {
    let body = ax_body("A\\B");
    assert_eq!(body, format!("{AX_BODY_HEAD}A\\\\B{AX_BODY_TAIL}"));
    assert!(body.starts_with("tell application \"System Events\"\n    tell process \"A\\\\B\"\n        set out to \"\""));
    assert!(body.contains("if elRole is in {\"AXButton\", \"AXTextField\""));
    assert_eq!(ax_script("X"), format!("{AX_HANDLER}\n{}", ax_body("X")));
    assert!(AX_HANDLER.starts_with("on cleanText(t)\n"));
    assert!(AX_HANDLER.ends_with("end cleanText"));
}

#[test]
fn clean_field_reads_missing_value_as_empty() {
    assert_eq!(clean_field("  missing value "), "");
    assert_eq!(clean_field(" Save "), "Save");
    assert_eq!(clean_field("missing values"), "missing values");
    assert_eq!(esc("a\"b\\c"), "a\\\"b\\\\c");
}

#[test]
fn ax_records_keep_nine_field_lines() {
    let raw = "1\tAXButton\tSave\t\t\t10\t20\t80\t24\r\nnot a record\n2\tAXTextField\tmissing value\tSearch\tx\t0\t0\t0\t0\n";
    let rs = ax_records(raw);
    assert_eq!(rs.len(), 2);
    assert_eq!(rs[0][1], "AXButton");
    assert_eq!(rs[0][8], "24");
    assert_eq!(rs[1][2], "missing value");
}

#[test]
fn ax_tree_numbers_kept_records_from_one() {
    let raw = "1\tAXButton\t Save \t\t\t10\t20\t80\t24\n2\tAXButton\tHidden\t\t\t0\t0\t0\t0\n3\t AXTextField \tmissing value\tSearch\tx\t0\t0\t9\t9\n";
    let rs = ax_records(raw);
    let keep = vec![true, false, true];
    let (els, picked) = ax_tree(&rs, &keep);
    assert_eq!(picked, vec![0, 2]);
    assert_eq!(els.len(), 2);
    assert_eq!(els[0].id, 1);
    assert_eq!(els[0].name, "Save");
    assert_eq!(els[1].id, 2);
    assert_eq!(els[1].role, "AXTextField");
    assert_eq!(els[1].name, "");
    assert_eq!(els[1].desc, "Search");
    assert_eq!(els[1].value, "x");
}

#[test]
fn ax_tree_stops_at_sixty() {
    let line = "0\tAXButton\tB\t\t\t1\t1\t5\t5\n";
    let raw = line.repeat(70);
    let rs = ax_records(&raw);
    assert_eq!(rs.len(), 70);
    let keep = vec![true; 70];
    let (els, picked) = ax_tree(&rs, &keep);
    assert_eq!(els.len(), 60);
    assert_eq!(picked, (0..60).collect::<Vec<usize>>());
    for (k, e) in els.iter().enumerate() {
        assert_eq!(e.id, k + 1);
        assert_eq!(lfm_pc_agent::act::find(&els, Some(k as i64 + 1)), Ok(k));
    }
    assert!(lfm_pc_agent::act::find(&els, Some(61)).is_err());
}

#[test]
fn png_base64_is_standard_padded_base64() {
    assert_eq!(png_base64(b""), "");
    assert_eq!(png_base64(b"f"), "Zg==");
    assert_eq!(png_base64(b"fo"), "Zm8=");
    assert_eq!(png_base64(b"foo"), "Zm9v");
    assert_eq!(png_base64(b"hello"), "aGVsbG8=");
    assert_eq!(png_base64(&[0xfb, 0xff, 0xbf]), "+/+/");
    assert_eq!(png_base64(&[0x89, b'P', b'N', b'G']).len(), 8);
    for n in 0..10usize {
        let bytes = vec![0xa5u8; n];
        assert_eq!(png_base64(&bytes).len(), (n / 3) * 4 + if n % 3 == 0 { 0 } else { 4 });
    }
}
