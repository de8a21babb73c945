//! Perception: turn what the accessibility layer and the screen report into something a
//! tiny model can act on — a numbered list of actionable elements and a base64 image.
//!
//! The model never sees coordinates; it only ever picks an element id. The scripts that
//! query System Events are built here; running them is left to the caller.
use vstd::prelude::*;

use crate::text::{
    ascii_lower, ascii_lowercase_chars, char_vecs_view, chars_is, chars_of, escape, esc, lines, lines_chars, split, split_chars,
    starts_with, string_of, take_chars, trim, trim_chars, trim_str, truncate,
};

verus! {

/// One actionable element discovered in the frontmost window's accessibility tree (its
/// on-screen rectangle is kept by the caller, next to it).
#[derive(Debug, Clone)]
pub struct ObservedElement {
    pub id: usize,
    pub role: String,
    pub name: String,
    pub desc: String,
    pub value: String,
}

/// The role shown to the model: without an "AX" prefix.
pub open spec fn shown_role(role: Seq<char>) -> Seq<char> {
    if starts_with(role, "AX"@) {
        role.skip(2)
    } else {
        role
    }
}

/// Whether the role is a text-entry one: without "AX", it is "textfield" or "textarea",
/// whatever the ASCII case.
pub open spec fn is_text_entry(role: Seq<char>) -> bool {
    let r = shown_role(role).map_values(|c: char| ascii_lower(c));
    r == "textfield"@ || r == "textarea"@
}

/// The one-line rendering of an element, e.g. `button "Save"`, `textfield (value: "")` or
/// `TextField "To" (value: "bob")`: the role without "AX", the name (or, when the name is
/// empty, the description) in quotes when there is one, then the first 60 characters of
/// the value when it is non-empty and differs from the name. A text field or text area
/// with an empty value shows that value as `(value: "")`, so the model sees the field is
/// blank.
pub open spec fn label_of(role: Seq<char>, name: Seq<char>, desc: Seq<char>, value: Seq<char>) -> Seq<char> {
    let title = if name.len() > 0 {
        name
    } else {
        desc
    };
    let head = if title.len() > 0 {
        shown_role(role) + " \""@ + title + "\""@
    } else {
        shown_role(role)
    };
    if (value.len() > 0 && value != name) || (value.len() == 0 && is_text_entry(role)) {
        head + " (value: \""@ + take_chars(value, 60) + "\")"@
    } else {
        head
    }
}

/// The title of a label is the element's name whenever it has one, whatever its
/// description; the description stands in only for an empty name. The label starts with
/// the role (without "AX") followed by that title in quotes.
pub proof fn lemma_label_title(role: Seq<char>, name: Seq<char>, desc: Seq<char>, value: Seq<char>)
    ensures
        name.len() > 0 ==> starts_with(
            label_of(role, name, desc, value),
            shown_role(role) + " \""@ + name + "\""@,
        ),
        name.len() == 0 && desc.len() > 0 ==> starts_with(
            label_of(role, name, desc, value),
            shown_role(role) + " \""@ + desc + "\""@,
        ),
        starts_with(label_of(role, name, desc, value), shown_role(role)),
{
    let l = label_of(role, name, desc, value);
    let title = if name.len() > 0 {
        name
    } else {
        desc
    };
    let head = if title.len() > 0 {
        shown_role(role) + " \""@ + title + "\""@
    } else {
        shown_role(role)
    };
    let tail = l.skip(head.len() as int);
    assert(l =~= head + tail) by {
        if (value.len() > 0 && value != name) || (value.len() == 0 && is_text_entry(role)) {
            assert(l == head + (" (value: \""@ + take_chars(value, 60) + "\")"@));
        }
    }
    assert((head + tail).take(head.len() as int) =~= head);
    let sr = shown_role(role);
    assert(l.take(sr.len() as int) =~= sr);
}

impl ObservedElement {
    /// Human/model-readable one-liner, e.g. `button "Save"` or `textfield (value: "")`.
    pub fn label(&self) -> (s: String)
        ensures
            s@ == label_of(self.role@, self.name@, self.desc@, self.value@),
    {
        proof {
            reveal_strlit("AX");
        }
        let role = chars_of(self.role.as_str());
        let ax = chars_of("AX");
        let shown: Vec<char> = if role.len() >= 2 && role[0] == 'A' && role[1] == 'X' {
            assert(role@.take(2) =~= ax@);
            let r = crate::text::slice_chars(role.as_slice(), 2, role.len());
            assert(role@.subrange(2, role@.len() as int) =~= role@.skip(2));
            r
        } else {
            proof {
                if starts_with(role@, "AX"@) {
                    assert(role@.take(2)[0] == 'A');
                    assert(role@.take(2)[1] == 'X');
                }
            }
            role
        };
        let lower = ascii_lowercase_chars(shown.as_slice());
        let entry = chars_is(lower.as_slice(), "textfield") || chars_is(lower.as_slice(), "textarea");
        let mut s = string_of(shown.as_slice());
        let title: &str = if self.name.unicode_len() > 0 {
            self.name.as_str()
        } else {
            self.desc.as_str()
        };
        if title.unicode_len() > 0 {
            s.append(" \"");
            s.append(title);
            s.append("\"");
        }
        let empty = self.value.unicode_len() == 0;
        if (!empty && !(self.value == self.name)) || (empty && entry) {
            let v = truncate(self.value.as_str(), 60);
            s.append(" (value: \"");
            s.append(v.as_str());
            s.append("\")");
        }
        s
    }
}

// ---------------------------------------------------------------------------------
// Scripts.
// ---------------------------------------------------------------------------------

/// Asks System Events for the name of the frontmost application process.
pub const FRONTMOST_SCRIPT: &'static str = "tell application \"System Events\" to get name of first process whose frontmost is true";

/// The name of the frontmost application process (e.g. "TextEdit"), from what
/// `FRONTMOST_SCRIPT` printed: the printed text, trimmed.
pub fn frontmost_process(printed: &str) -> (r: String)
    ensures
        r@ == trim(printed@),
{
    trim_str(printed)
}

/// The script that prints the bounds of `proc`'s front window as "x,y,w,h" (in points).
pub open spec fn window_bounds_script(proc: Seq<char>) -> Seq<char> {
    "tell application \"System Events\" to tell process \""@ + escape(proc)
        + "\"\nset p to position of front window\nset s to size of front window\nreturn ((item 1 of p) as text) & \",\" & ((item 2 of p) as text) & \",\" & ((item 1 of s) as text) & \",\" & ((item 2 of s) as text)\nend tell"@
}

/// Builds the script that prints the bounds of `proc`'s front window.
pub fn front_window_bounds_script(proc: &str) -> (r: String)
    ensures
        r@ == window_bounds_script(proc@),
{
    let mut s = String::from_str("tell application \"System Events\" to tell process \"");
    let e = esc(proc);
    s.append(e.as_str());
    s.append(
        "\"\nset p to position of front window\nset s to size of front window\nreturn ((item 1 of p) as text) & \",\" & ((item 2 of p) as text) & \",\" & ((item 1 of s) as text) & \",\" & ((item 2 of s) as text)\nend tell",
    );
    s
}

/// The four comma-separated fields of the bounds script's output, each trimmed, or `None`
/// when the trimmed output does not have exactly four fields.
pub open spec fn bounds_fields_of(printed: Seq<char>) -> Option<Seq<Seq<char>>> {
    let parts = split(trim(printed), ',');
    if parts.len() == 4 {
        Some(parts.map_values(|p: Seq<char>| trim(p)))
    } else {
        None
    }
}

/// Splits the bounds script's output into its four trimmed fields ("x", "y", "w", "h").
pub fn bounds_fields(printed: &str) -> (r: Option<Vec<String>>)
    ensures
        match bounds_fields_of(printed@) {
            Some(fs) => r matches Some(v) && strings_view(v@) == fs,
            None => r is None,
        },
{
    let t = trim_chars(chars_of(printed).as_slice());
    let parts = split_chars(t.as_slice(), ',');
    if parts.len() != 4 {
        return None;
    }
    let mut out: Vec<String> = Vec::new();
    let mut i: usize = 0;
    let ghost fs = split(trim(printed@), ',').map_values(|p: Seq<char>| trim(p));
    while i < 4
        invariant
            parts@.len() == 4,
            char_vecs_view(parts@) == split(trim(printed@), ','),
            fs == split(trim(printed@), ',').map_values(|p: Seq<char>| trim(p)),
            i <= 4,
            strings_view(out@) == fs.take(i as int),
        decreases 4 - i,
    {
        let f = trim_chars(parts[i].as_slice());
        assert(parts@[i as int]@ == char_vecs_view(parts@)[i as int]);
        let st = string_of(f.as_slice());
        let ghost before = out@;
        out.push(st);
        assert(strings_view(out@) =~= strings_view(before).push(st@));
        assert(strings_view(out@) =~= fs.take(i + 1));
        i += 1;
    }
    assert(fs.take(4) =~= fs);
    Some(out)
}

/// Top-level AppleScript handler that strips tabs/newlines and truncates a field, so each
/// element renders as exactly one tab-delimited record.
pub const AX_HANDLER: &'static str = "on cleanText(t)
    if t is missing value then return \"\"
    try
        set t to t as text
    on error
        return \"\"
    end try
    set AppleScript's text item delimiters to {tab, return, linefeed}
    set parts to every text item of t
    set AppleScript's text item delimiters to \" \"
    set t to (parts as text)
    set AppleScript's text item delimiters to \"\"
    if (count of t) > 80 then set t to text 1 thru 80 of t
    return t
end cleanText";

/// The start of the accessibility walk, up to the quoted process name.
pub const AX_BODY_HEAD: &'static str = "tell application \"System Events\"
    tell process \"";

/// The rest of the accessibility walk, after the quoted process name: it prints one
/// tab-separated record (index, role, name, description, value, x, y, width, height) per
/// actionable element of the front window.
pub const AX_BODY_TAIL: &'static str = "\"
        set out to \"\"
        try
            set theWindow to front window
        on error
            return \"\"
        end try
        try
            with timeout of 8 seconds
                set elementList to entire contents of theWindow
            end timeout
        on error
            return \"\"
        end try
        set idx to 0
        repeat with el in elementList
            set elRole to \"\"
            try
                set elRole to (role of el) as text
            end try
            if elRole is in {\"AXButton\", \"AXTextField\", \"AXTextArea\", \"AXCheckBox\", \"AXRadioButton\", \"AXPopUpButton\", \"AXMenuButton\", \"AXComboBox\", \"AXSlider\", \"AXLink\"} then
                set idx to idx + 1
                set elName to \"\"
                try
                    set elName to my cleanText(name of el)
                end try
                set elDesc to \"\"
                try
                    set elDesc to my cleanText(description of el)
                end try
                set elValue to \"\"
                try
                    set elValue to my cleanText(value of el)
                end try
                set px to 0
                set py to 0
                set sw to 0
                set sh to 0
                try
                    set elPos to position of el
                    set px to (item 1 of elPos)
                    set py to (item 2 of elPos)
                    set elSize to size of el
                    set sw to (item 1 of elSize)
                    set sh to (item 2 of elSize)
                end try
                set out to out & idx & tab & elRole & tab & elName & tab & elDesc & tab & elValue & tab & px & tab & py & tab & sw & tab & sh & linefeed
            end if
        end repeat
        return out
    end tell
end tell";

/// The accessibility walk over `proc`'s front window, with the process name escaped.
pub fn ax_body(proc: &str) -> (r: String)
    ensures
        r@ == AX_BODY_HEAD@ + escape(proc@) + AX_BODY_TAIL@,
{
    let mut s = String::from_str(AX_BODY_HEAD);
    let e = esc(proc);
    s.append(e.as_str());
    s.append(AX_BODY_TAIL);
    s
}

/// The whole accessibility script: the handler, a newline, the walk.
pub fn ax_script(proc: &str) -> (r: String)
    ensures
        r@ == AX_HANDLER@ + "\n"@ + AX_BODY_HEAD@ + escape(proc@) + AX_BODY_TAIL@,
{
    let mut s = String::from_str(AX_HANDLER);
    s.append("\n");
    let b = ax_body(proc);
    s.append(b.as_str());
    s
}

// ---------------------------------------------------------------------------------
// Reading the accessibility walk's output.
// ---------------------------------------------------------------------------------

/// A field as printed: trimmed, with AppleScript's literal "missing value" read as empty.
pub open spec fn cleaned(t: Seq<char>) -> Seq<char> {
    if trim(t) == "missing value"@ {
        Seq::empty()
    } else {
        trim(t)
    }
}

/// Trims a field and treats AppleScript's literal "missing value" as empty.
pub fn clean_field(s: &str) -> (r: String)
    ensures
        r@ == cleaned(s@),
{
    let t = trim_chars(chars_of(s).as_slice());
    if chars_is(t.as_slice(), "missing value") {
        String::new()
    } else {
        string_of(t.as_slice())
    }
}

/// The views of a sequence of strings.
pub open spec fn strings_view(v: Seq<String>) -> Seq<Seq<char>> {
    v.map_values(|s: String| s@)
}

/// The views of a sequence of records.
pub open spec fn records_view(v: Seq<Vec<String>>) -> Seq<Seq<Seq<char>>> {
    v.map_values(|r: Vec<String>| strings_view(r@))
}

/// The tab-separated records among `ls` that have exactly nine fields, in order.
pub open spec fn tab_records(ls: Seq<Seq<char>>) -> Seq<Seq<Seq<char>>>
    decreases ls.len(),
{
    if ls.len() == 0 {
        seq![]
    } else {
        let f = split(ls.last(), '\t');
        tab_records(ls.drop_last()) + if f.len() == 9 {
            seq![f]
        } else {
            seq![]
        }
    }
}

fn strings_of(v: &Vec<Vec<char>>) -> (r: Vec<String>)
    ensures
        strings_view(r@) == char_vecs_view(v@),
{
    let mut r: Vec<String> = Vec::new();
    let mut i: usize = 0;
    while i < v.len()
        invariant
            i <= v@.len(),
            strings_view(r@) == char_vecs_view(v@).take(i as int),
        decreases v@.len() - i,
    {
        let s = string_of(v[i].as_slice());
        let ghost before = r@;
        r.push(s);
        assert(strings_view(r@) =~= strings_view(before).push(s@));
        assert(strings_view(r@) =~= char_vecs_view(v@).take(i + 1));
        i += 1;
    }
    assert(char_vecs_view(v@).take(v@.len() as int) =~= char_vecs_view(v@));
    r
}

/// The records of the accessibility walk's output: its lines split at tabs, keeping only
/// those with exactly nine fields.
pub fn ax_records(printed: &str) -> (r: Vec<Vec<String>>)
    ensures
        records_view(r@) == tab_records(lines(printed@)),
{
    let ls = lines_chars(chars_of(printed).as_slice());
    let ghost lv = char_vecs_view(ls@);
    let mut r: Vec<Vec<String>> = Vec::new();
    let mut i: usize = 0;
    while i < ls.len()
        invariant
            i <= ls@.len(),
            lv == char_vecs_view(ls@),
            lv == lines(printed@),
            records_view(r@) == tab_records(lv.take(i as int)),
        decreases ls@.len() - i,
    {
        let fs = split_chars(ls[i].as_slice(), '\t');
        assert(lv.take(i + 1).drop_last() =~= lv.take(i as int));
        assert(lv.take(i + 1).last() == ls@[i as int]@);
        if fs.len() == 9 {
            let row = strings_of(&fs);
            let ghost before = r@;
            r.push(row);
            assert(records_view(r@) =~= records_view(before).push(char_vecs_view(fs@)));
        }
        assert(records_view(r@) =~= tab_records(lv.take(i + 1)));
        i += 1;
    }
    assert(lv.take(ls@.len() as int) =~= lv);
    r
}

/// The indices of the records that are kept, in order.
pub open spec fn kept_indices(keep: Seq<bool>) -> Seq<int>
    decreases keep.len(),
{
    if keep.len() == 0 {
        seq![]
    } else {
        kept_indices(keep.drop_last()) + if keep.last() {
            seq![keep.len() - 1]
        } else {
            seq![]
        }
    }
}

/// At most the first 60 of a sequence of indices.
pub open spec fn first_sixty(s: Seq<int>) -> Seq<int> {
    if s.len() <= 60 {
        s
    } else {
        s.take(60)
    }
}

/// `e` is the element with id `id` made from the record `f`: the role trimmed, the
/// name, description and value cleaned.
pub open spec fn element_of_record(e: ObservedElement, id: int, f: Seq<Seq<char>>) -> bool {
    &&& e.id == id
    &&& e.role@ == trim(f[1])
    &&& e.name@ == cleaned(f[2])
    &&& e.desc@ == cleaned(f[3])
    &&& e.value@ == cleaned(f[4])
}

proof fn lemma_kept_prefix(keep: Seq<bool>, r: int)
    requires
        0 <= r <= keep.len(),
    ensures
        kept_indices(keep.take(r)) == kept_indices(keep).take(kept_indices(keep.take(r)).len() as int),
        kept_indices(keep.take(r)).len() <= kept_indices(keep).len(),
        forall|j: int| 0 <= j < kept_indices(keep).len() ==> 0 <= #[trigger] kept_indices(keep)[j] < keep.len(),
    decreases keep.len() - r,
{
    if r == keep.len() {
        assert(keep.take(r) =~= keep);
        lemma_kept_bounds(keep);
    } else {
        lemma_kept_prefix(keep, r + 1);
        assert(keep.take(r + 1).drop_last() =~= keep.take(r));
    }
}

proof fn lemma_kept_bounds(keep: Seq<bool>)
    ensures
        forall|j: int| 0 <= j < kept_indices(keep).len() ==> 0 <= #[trigger] kept_indices(keep)[j] < keep.len(),
        forall|j: int, k: int| 0 <= j < k < kept_indices(keep).len() ==> kept_indices(keep)[j] < kept_indices(keep)[k],
        forall|j: int| 0 <= j < kept_indices(keep).len() ==> keep[#[trigger] kept_indices(keep)[j]],
    decreases keep.len(),
{
    if keep.len() > 0 {
        let d = keep.drop_last();
        lemma_kept_bounds(d);
        let k0 = kept_indices(d);
        let k = kept_indices(keep);
        assert forall|j: int| 0 <= j < k.len() implies 0 <= #[trigger] k[j] < keep.len() && keep[k[j]] by {
            if j < k0.len() {
                assert(k[j] == k0[j]);
                assert(d[k0[j]] == keep[k0[j]]);
            } else {
                assert(k[j] == keep.len() - 1);
            }
        }
        assert forall|j: int, m: int| 0 <= j < m < k.len() implies k[j] < k[m] by {
            if m < k0.len() {
                assert(k[j] == k0[j]);
                assert(k[m] == k0[m]);
            } else {
                assert(k[j] == k0[j]);
                assert(k[m] == keep.len() - 1);
            }
        }
    }
}

/// Numbers the kept records 1..N in order, at most 60 of them, and returns the elements
/// together with the index of the record each was made from. `keep[i]` says whether
/// record `i` has a usable on-screen size (zero-area and off-screen nodes have no target).
pub fn ax_tree(records: &Vec<Vec<String>>, keep: &Vec<bool>) -> (r: (Vec<ObservedElement>, Vec<usize>))
    requires
        keep@.len() == records@.len(),
        forall|i: int| 0 <= i < records@.len() ==> (#[trigger] records@[i])@.len() == 9,
    ensures
        r.1@.map_values(|i: usize| i as int) == first_sixty(kept_indices(keep@)),
        r.0@.len() == r.1@.len(),
        r.0@.len() <= 60,
        forall|k: int|
            0 <= k < r.1@.len() ==> (#[trigger] r.1@[k] as int) < records@.len() && keep@[r.1@[k] as int],
        forall|j: int, k: int| 0 <= j < k < r.1@.len() ==> r.1@[j] < r.1@[k],
        forall|k: int|
            0 <= k < r.0@.len() ==> element_of_record(
                #[trigger] r.0@[k],
                k + 1,
                strings_view(records@[r.1@[k] as int]@),
            ),
{
    let n = records.len();
    let mut els: Vec<ObservedElement> = Vec::new();
    let mut picked: Vec<usize> = Vec::new();
    let mut i: usize = 0;
    proof {
        lemma_kept_bounds(keep@);
    }
    assert(keep@.take(0) =~= Seq::<bool>::empty());
    assert(picked@.map_values(|i: usize| i as int) =~= Seq::<int>::empty());
    while i < n && els.len() < 60
        invariant
            n == records@.len(),
            n == keep@.len(),
            forall|j: int| 0 <= j < records@.len() ==> (#[trigger] records@[j])@.len() == 9,
            i <= n,
            els@.len() == picked@.len(),
            els@.len() <= 60,
            picked@.map_values(|i: usize| i as int) == kept_indices(keep@.take(i as int)),
            forall|k: int|
                0 <= k < els@.len() ==> element_of_record(
                    #[trigger] els@[k],
                    k + 1,
                    strings_view(records@[picked@[k] as int]@),
                ),
        decreases n - i,
    {
        assert(keep@.take(i + 1).drop_last() =~= keep@.take(i as int));
        assert(keep@.take(i + 1).last() == keep@[i as int]);
        if keep[i] {
            let row = &records[i];
            assert(row@.len() == 9);
            let e = ObservedElement {
                id: els.len() + 1,
                role: trim_str(row[1].as_str()),
                name: clean_field(row[2].as_str()),
                desc: clean_field(row[3].as_str()),
                value: clean_field(row[4].as_str()),
            };
            assert(element_of_record(e, els@.len() + 1int, strings_view(records@[i as int]@)));
            els.push(e);
            picked.push(i);
            assert(picked@.map_values(|i: usize| i as int) =~= kept_indices(keep@.take(i + 1)));
        } else {
            assert(picked@.map_values(|i: usize| i as int) =~= kept_indices(keep@.take(i + 1)));
        }
        i += 1;
    }
    proof {
        lemma_kept_prefix(keep@, i as int);
        let all = kept_indices(keep@);
        let part = kept_indices(keep@.take(i as int));
        if i == n {
            assert(keep@.take(i as int) =~= keep@);
            assert(part.len() <= 60);
        } else {
            assert(part.len() == 60);
            assert(part =~= all.take(60));
        }
        lemma_kept_bounds(keep@);
        let pm = picked@.map_values(|i: usize| i as int);
        assert(pm == first_sixty(all));
        assert forall|k: int| 0 <= k < picked@.len() implies (#[trigger] picked@[k] as int) < records@.len()
            && keep@[picked@[k] as int] by {
            assert(pm[k] == picked@[k] as int);
            assert(first_sixty(all)[k] == all[k]);
        }
        assert forall|j: int, k: int| 0 <= j < k < picked@.len() implies picked@[j] < picked@[k] by {
            assert(pm[k] == picked@[k] as int);
            assert(pm[j] == picked@[j] as int);
            assert(first_sixty(all)[k] == all[k]);
            assert(first_sixty(all)[j] == all[j]);
        }
    }
    (els, picked)
}

// ---------------------------------------------------------------------------------
// The image sent to a vision model.
// ---------------------------------------------------------------------------------

/// The character of the standard base64 alphabet with index `n` (0..=63).
pub open spec fn base64_char(n: int) -> char {
    if n < 26 {
        (65 + n) as char
    } else if n < 52 {
        (97 + n - 26) as char
    } else if n < 62 {
        (48 + n - 52) as char
    } else if n == 62 {
        '+'
    } else {
        '/'
    }
}

/// Standard base64 with padding: every three bytes become four characters of the
/// alphabet; a final group of one or two bytes is padded with '='.
pub open spec fn base64_of(b: Seq<u8>) -> Seq<char>
    decreases b.len(),
{
    if b.len() == 0 {
        seq![]
    } else if b.len() == 1 {
        seq![base64_char((b[0] as int) / 4), base64_char(((b[0] as int) % 4) * 16), '=', '=']
    } else if b.len() == 2 {
        seq![
            base64_char((b[0] as int) / 4),
            base64_char(((b[0] as int) % 4) * 16 + (b[1] as int) / 16),
            base64_char(((b[1] as int) % 16) * 4),
            '=',
        ]
    } else {
        seq![
            base64_char((b[0] as int) / 4),
            base64_char(((b[0] as int) % 4) * 16 + (b[1] as int) / 16),
            base64_char(((b[1] as int) % 16) * 4 + (b[2] as int) / 64),
            base64_char((b[2] as int) % 64),
        ] + base64_of(b.skip(3))
    }
}

/// The length of the padded base64 text of `n` bytes.
pub open spec fn base64_len(n: nat) -> nat {
    (n / 3) * 4 + if n % 3 == 0 {
        0nat
    } else {
        4nat
    }
}

/// Calls `base64::engine::general_purpose::STANDARD.encode`. Claims: the result is the
/// standard padded base64 text of the bytes. The crate panics when the text's length does
/// not fit in a `usize`; `requires` leaves that out.
#[verifier::external_body]
pub fn png_base64(bytes: &[u8]) -> (r: String)
    requires
        base64_len(bytes@.len()) <= usize::MAX,
    ensures
        r@ == base64_of(bytes@),
{
    base64::Engine::encode(&base64::engine::general_purpose::STANDARD, bytes)
}

/// The base64 text is four characters for every started group of three bytes.
pub proof fn lemma_base64_length(b: Seq<u8>)
    ensures
        base64_of(b).len() == base64_len(b.len()),
    decreases b.len(),
{
    if b.len() >= 3 {
        lemma_base64_length(b.skip(3));
        assert(b.skip(3).len() == b.len() - 3);
        assert((b.len() as int - 3) / 3 == b.len() as int / 3 - 1);
        assert((b.len() as int - 3) % 3 == b.len() as int % 3);
    }
}

} // verus!
