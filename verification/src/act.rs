//! Action: map a model-chosen `Action` onto deterministic host steps.
//!
//! All grounding is resolved here from the element the model referenced by id — the model
//! never supplies coordinates. `plan` decides what to do; the caller performs the step
//! (launching, clicking, typing, running the script) and `step_outcome` words the result
//! for the action history.
use vstd::prelude::*;

use crate::perceive::{label_of, ObservedElement};
use crate::reason::{opt_view, Action};
use crate::text::{
    char_vecs_view, chars_is, chars_of, debug_quoted, debug_str, decimal, escape, esc,
    index_from, is_ascii_text, join, lemma_index_from, lowercase, push_chars, push_i64, push_u64, signed_decimal, split, split_chars, string_of,
    starts_with, take_chars, to_lowercase, trim, trim_chars, trim_start, truncate, white_space,
};

verus! {

/// What happened after executing an action.
#[derive(Debug, Clone)]
pub enum Outcome {
    /// Keep looping; the string is a one-line summary for the action history.
    Continue(String),
    /// The model declared the task finished.
    Done(String),
}

/// Whether an outcome ends the task, and its text.
pub open spec fn outcome_view(o: Outcome) -> (bool, Seq<char>) {
    match o {
        Outcome::Continue(s) => (false, s@),
        Outcome::Done(s) => (true, s@),
    }
}

/// Why an action cannot be carried out.
#[derive(Debug, Clone, PartialEq, Eq)]
pub enum ActError {
    /// `open_app` without an app name.
    NeedsApp,
    /// A click without an element id.
    NeedsElementId,
    /// No element in the current view has this id.
    NoSuchElement(i64),
    /// `key` without a key combo.
    NeedsKeys,
    /// The key combo names no key.
    EmptyKeySpec,
    /// The element (by id) has neither a name nor a description to find it by.
    Unpressable(usize),
}

/// The message that reports an action error.
pub open spec fn act_error_message(e: ActError) -> Seq<char> {
    match e {
        ActError::NeedsApp => "open_app needs an \"app\""@,
        ActError::NeedsElementId => "action needs an element id"@,
        ActError::NoSuchElement(id) => "no element with id "@ + signed_decimal(id as int)
            + " in the current view"@,
        ActError::NeedsKeys => "key needs \"keys\""@,
        ActError::EmptyKeySpec => "empty key spec"@,
        ActError::Unpressable(id) => "element #"@ + decimal(id as nat)
            + " has no name/description; install cliclick for coordinate clicks"@,
    }
}

impl ActError {
    /// The message that reports this error.
    pub fn message(&self) -> (m: String)
        ensures
            m@ == act_error_message(*self),
    {
        match self {
            ActError::NeedsApp => String::from_str("open_app needs an \"app\""),
            ActError::NeedsElementId => String::from_str("action needs an element id"),
            ActError::NoSuchElement(id) => {
                let mut s = String::from_str("no element with id ");
                push_i64(&mut s, *id);
                s.append(" in the current view");
                s
            },
            ActError::NeedsKeys => String::from_str("key needs \"keys\""),
            ActError::EmptyKeySpec => String::from_str("empty key spec"),
            ActError::Unpressable(id) => {
                let mut s = String::from_str("element #");
                push_u64(&mut s, *id as u64);
                s.append(" has no name/description; install cliclick for coordinate clicks");
                s
            },
        }
    }
}

// ---------------------------------------------------------------------------------
// Finding the element the model referenced.
// ---------------------------------------------------------------------------------

/// The index of the first element at or after `from` whose id is `id`; `els.len()` when
/// there is none.
pub open spec fn find_from(els: Seq<ObservedElement>, id: i64, from: int) -> int
    decreases els.len() - from,
{
    if from >= els.len() {
        els.len() as int
    } else if from >= 0 && els[from].id as i64 == id {
        from
    } else {
        find_from(els, id, from + 1)
    }
}

/// The element lookup of an action: no id is an error, and so is an id that no element
/// of the current view has; otherwise the first element with that id.
pub open spec fn found(els: Seq<ObservedElement>, id: Option<i64>) -> Result<usize, ActError> {
    match id {
        None => Err(ActError::NeedsElementId),
        Some(i) => if find_from(els, i, 0) < els.len() {
            Ok(find_from(els, i, 0) as usize)
        } else {
            Err(ActError::NoSuchElement(i))
        },
    }
}

/// `find_from` finds the first element with the id.
pub proof fn lemma_find_from(els: Seq<ObservedElement>, id: i64, from: int)
    requires
        0 <= from <= els.len(),
    ensures
        from <= find_from(els, id, from) <= els.len(),
        find_from(els, id, from) < els.len() ==> els[find_from(els, id, from)].id as i64 == id,
        forall|j: int| from <= j < find_from(els, id, from) ==> els[j].id as i64 != id,
    decreases els.len() - from,
{
    if from < els.len() && els[from].id as i64 != id {
        lemma_find_from(els, id, from + 1);
    }
}

/// Finds the element the action refers to, by id; returns its index in `els`.
pub fn find(els: &[ObservedElement], id: Option<i64>) -> (r: Result<usize, ActError>)
    ensures
        r == found(els@, id),
        r matches Ok(i) ==> i < els@.len() && id == Some(els@[i as int].id as i64),
{
    let want = match id {
        None => {
            return Err(ActError::NeedsElementId);
        },
        Some(w) => w,
    };
    let n = els.len();
    let mut i: usize = 0;
    while i < n
        invariant
            n == els@.len(),
            i <= n,
            id == Some(want),
            find_from(els@, want, 0) == find_from(els@, want, i as int),
        decreases n - i,
    {
        let eid = els[i].id as i64;
        assert(eid == els@[i as int].id as i64);
        if eid == want {
            return Ok(i);
        }
        i += 1;
    }
    Err(ActError::NoSuchElement(want))
}

// ---------------------------------------------------------------------------------
// Key combos.
// ---------------------------------------------------------------------------------

/// The pieces of a key combo: split on '+' only ('-' is a real key), each trimmed and
/// lowercased, empty ones dropped.
pub open spec fn key_parts(ps: Seq<Seq<char>>) -> Seq<Seq<char>>
    decreases ps.len(),
{
    if ps.len() == 0 {
        seq![]
    } else {
        let q = lowercase(trim(ps.last()));
        key_parts(ps.drop_last()) + if q.len() > 0 {
            seq![q]
        } else {
            seq![]
        }
    }
}

/// The System Events modifier a combo piece names, if any.
pub open spec fn modifier(m: Seq<char>) -> Option<Seq<char>> {
    if m == "cmd"@ || m == "command"@ || m == "⌘"@ {
        Some("command down"@)
    } else if m == "ctrl"@ || m == "control"@ {
        Some("control down"@)
    } else if m == "alt"@ || m == "opt"@ || m == "option"@ {
        Some("option down"@)
    } else if m == "shift"@ {
        Some("shift down"@)
    } else {
        None
    }
}

/// The modifiers named by the pieces, in order; unknown pieces are skipped.
pub open spec fn modifiers(ms: Seq<Seq<char>>) -> Seq<Seq<char>>
    decreases ms.len(),
{
    if ms.len() == 0 {
        seq![]
    } else {
        modifiers(ms.drop_last()) + match modifier(ms.last()) {
            Some(u) => seq![u],
            None => seq![],
        }
    }
}

/// The `using {...}` clause of a keystroke: empty without modifiers.
pub open spec fn using_clause(us: Seq<Seq<char>>) -> Seq<char> {
    if us.len() == 0 {
        seq![]
    } else {
        " using {"@ + join(us, ", "@) + "}"@
    }
}

/// The key code of a named key.
pub open spec fn key_code(k: Seq<char>) -> Option<nat> {
    if k == "return"@ || k == "enter"@ {
        Some(36)
    } else if k == "tab"@ {
        Some(48)
    } else if k == "space"@ {
        Some(49)
    } else if k == "esc"@ || k == "escape"@ {
        Some(53)
    } else if k == "delete"@ || k == "backspace"@ {
        Some(51)
    } else if k == "left"@ {
        Some(123)
    } else if k == "right"@ {
        Some(124)
    } else if k == "down"@ {
        Some(125)
    } else if k == "up"@ {
        Some(126)
    } else {
        None
    }
}

/// The script pressing key `k` with the modifier clause: a key code for named keys,
/// otherwise a keystroke of the (escaped) key text.
pub open spec fn key_script(k: Seq<char>, clause: Seq<char>) -> Seq<char> {
    match key_code(k) {
        Some(code) => "tell application \"System Events\" to key code "@ + decimal(code) + clause,
        None => "tell application \"System Events\" to keystroke \""@ + escape(k) + "\""@ + clause,
    }
}

/// The script for the pieces of a combo: the last piece is the key, the pieces before it
/// the modifiers; `None` when there is no piece.
pub open spec fn combo_script_of(parts: Seq<Seq<char>>) -> Option<Seq<char>> {
    if parts.len() == 0 {
        None
    } else {
        Some(key_script(parts.last(), using_clause(modifiers(parts.drop_last()))))
    }
}

/// The script for a key combo such as "cmd+s", "cmd+space", "return".
pub open spec fn keys_script(spec: Seq<char>) -> Option<Seq<char>> {
    combo_script_of(key_parts(split(spec, '+')))
}

/// Every character of `p` is whitespace.
pub open spec fn blank(p: Seq<char>) -> bool {
    forall|j: int| 0 <= j < p.len() ==> white_space(#[trigger] p[j])
}

proof fn lemma_blank_trim(t: Seq<char>)
    requires
        blank(t),
    ensures
        trim_start(t).len() == 0,
        trim(t) == Seq::<char>::empty(),
    decreases t.len(),
{
    if t.len() > 0 {
        assert(white_space(t[0]));
        assert forall|j: int| 0 <= j < t.drop_first().len() implies white_space(
            #[trigger] t.drop_first()[j],
        ) by {
            assert(t.drop_first()[j] == t[j + 1]);
        }
        lemma_blank_trim(t.drop_first());
    }
    assert(trim_start(t) =~= Seq::<char>::empty());
}

proof fn lemma_split_blank(t: Seq<char>)
    requires
        forall|j: int| 0 <= j < t.len() ==> #[trigger] t[j] == '+' || white_space(t[j]),
    ensures
        forall|i: int| 0 <= i < split(t, '+').len() ==> blank(#[trigger] split(t, '+')[i]),
    decreases t.len(),
{
    let k = index_from(t, '+', 0);
    lemma_index_from(t, '+', 0);
    if k < t.len() {
        let rest = t.skip(k + 1);
        assert forall|j: int| 0 <= j < rest.len() implies #[trigger] rest[j] == '+' || white_space(rest[j]) by {
            assert(rest[j] == t[j + k + 1]);
        }
        lemma_split_blank(rest);
        let head = t.take(k);
        assert(blank(head)) by {
            assert forall|j: int| 0 <= j < head.len() implies white_space(#[trigger] head[j]) by {
                assert(head[j] == t[j]);
                assert(t[j] != '+');
            }
        }
        assert(split(t, '+') == seq![head] + split(rest, '+'));
        assert forall|i: int| 0 <= i < split(t, '+').len() implies blank(#[trigger] split(t, '+')[i]) by {
            if i > 0 {
                assert(split(t, '+')[i] == split(rest, '+')[i - 1]);
            }
        }
    } else {
        assert(split(t, '+') == seq![t]);
        assert forall|i: int| 0 <= i < split(t, '+').len() implies blank(#[trigger] split(t, '+')[i]) by {
            assert(split(t, '+')[i] == t);
            assert forall|j: int| 0 <= j < t.len() implies white_space(#[trigger] t[j]) by {
                assert(t[j] != '+');
            }
        }
    }
}

proof fn lemma_key_parts_blank(ps: Seq<Seq<char>>)
    requires
        forall|i: int| 0 <= i < ps.len() ==> blank(#[trigger] ps[i]),
    ensures
        key_parts(ps).len() == 0,
    decreases ps.len(),
{
    if ps.len() > 0 {
        let d = ps.drop_last();
        assert forall|i: int| 0 <= i < d.len() implies blank(#[trigger] d[i]) by {
            assert(d[i] == ps[i]);
        }
        lemma_key_parts_blank(d);
        assert(blank(ps[ps.len() - 1]));
        lemma_blank_trim(ps.last());
        let e = Seq::<char>::empty();
        assert(is_ascii_text(e));
        assert(lowercase(e) =~= e);
        assert(lowercase(trim(ps.last())).len() == 0);
    }
}

/// A key combo made only of '+' and whitespace (such as "", "+" or " + ") names no key,
/// so it is refused.
pub proof fn lemma_blank_combo_refused(spec: Seq<char>)
    requires
        forall|j: int| 0 <= j < spec.len() ==> #[trigger] spec[j] == '+' || white_space(spec[j]),
    ensures
        keys_script(spec) is None,
{
    lemma_split_blank(spec);
    lemma_key_parts_blank(split(spec, '+'));
}

/// A non-empty word of lowercase ASCII letters.
pub open spec fn lower_word(n: Seq<char>) -> bool {
    n.len() > 0 && forall|i: int| 0 <= i < n.len() ==> 'a' <= #[trigger] n[i] && n[i] <= 'z'
}

proof fn lemma_lower_word_piece(n: Seq<char>)
    requires
        lower_word(n),
    ensures
        lowercase(trim(n)) == n,
        forall|j: int| 0 <= j < n.len() ==> #[trigger] n[j] != '+',
{
    assert(!white_space(n[0]));
    assert(!white_space(n[n.len() - 1]));
    assert(trim_start(n) == n);
    assert(trim(n) == n);
    assert(is_ascii_text(n));
    assert(n.map_values(|c: char| crate::text::ascii_lower(c)) =~= n);
}

proof fn lemma_split_append(a: Seq<char>, b: Seq<char>)
    requires
        forall|j: int| 0 <= j < b.len() ==> #[trigger] b[j] != '+',
    ensures
        split(a + seq!['+'] + b, '+') == split(a, '+').push(b),
    decreases a.len(),
{
    let t = a + seq!['+'] + b;
    lemma_index_from(a, '+', 0);
    lemma_index_from(t, '+', 0);
    lemma_index_from(b, '+', 0);
    let i = index_from(a, '+', 0);
    let it = index_from(t, '+', 0);
    assert(t[a.len() as int] == '+');
    if it < i {
        assert(t[it] == a[it]);
    }
    if i < a.len() {
        assert(t[i] == a[i]);
        assert(it == i);
        let ra = a.skip(i + 1);
        assert(t.take(i) =~= a.take(i));
        assert(t.skip(i + 1) =~= ra + seq!['+'] + b);
        lemma_split_append(ra, b);
        assert(split(a, '+') == seq![a.take(i)] + split(ra, '+'));
        assert(split(t, '+') == seq![a.take(i)] + split(ra, '+').push(b));
        assert(seq![a.take(i)] + split(ra, '+').push(b) =~= (seq![a.take(i)] + split(ra, '+')).push(b));
    } else {
        if it < a.len() {
            assert(t[it] == a[it]);
        }
        assert(it == a.len());
        assert(t.take(it) =~= a);
        assert(t.skip(it + 1) =~= b);
        if index_from(b, '+', 0) < b.len() {
            assert(b[index_from(b, '+', 0)] != '+');
        }
        assert(split(b, '+') == seq![b]);
        assert(split(a, '+') == seq![a]);
        assert(split(t, '+') =~= seq![a].push(b));
    }
}

/// The script for pieces `ps` followed by the key word `n`.
proof fn lemma_combo_ending_in(ps: Seq<Seq<char>>, n: Seq<char>)
    requires
        lower_word(n),
    ensures
        combo_script_of(key_parts(ps.push(n))) == Some(key_script(n, using_clause(modifiers(key_parts(ps))))),
{
    lemma_lower_word_piece(n);
    assert(ps.push(n).drop_last() =~= ps);
    assert(ps.push(n).last() == n);
    let kp = key_parts(ps);
    assert(key_parts(ps.push(n)) == kp + seq![n]);
    assert(kp + seq![n] =~= kp.push(n));
    assert(kp.push(n).drop_last() =~= kp);
}

/// A combo whose last piece is the key word `n` presses `n` with the modifiers named by
/// the pieces before it; a bare word presses it alone.
proof fn lemma_keys_ending_in(mods: Seq<char>, n: Seq<char>)
    requires
        lower_word(n),
    ensures
        keys_script(mods + "+"@ + n) == Some(key_script(n, using_clause(modifiers(key_parts(split(mods, '+')))))),
        keys_script(n) == Some(key_script(n, Seq::<char>::empty())),
{
    reveal_strlit("+");
    lemma_lower_word_piece(n);
    assert("+"@ =~= seq!['+']);
    lemma_split_append(mods, n);
    lemma_combo_ending_in(split(mods, '+'), n);
    // The bare word is one piece.
    lemma_index_from(n, '+', 0);
    if index_from(n, '+', 0) < n.len() {
        assert(n[index_from(n, '+', 0)] != '+');
    }
    assert(split(n, '+') == seq![n]);
    let e = Seq::<Seq<char>>::empty();
    assert(e.push(n) =~= seq![n]);
    lemma_combo_ending_in(e, n);
    assert(key_parts(e) == e);
    assert(modifiers(e) == e);
}

/// "enter" is the Return key: whatever modifiers come before it, a combo ending in
/// "enter" gives the same script as one ending in "return", which presses key code 36;
/// alone, both press key code 36 with no modifier.
pub proof fn lemma_enter_is_return(mods: Seq<char>)
    ensures
        keys_script(mods + "+"@ + "enter"@) == keys_script(mods + "+"@ + "return"@),
        keys_script(mods + "+"@ + "return"@) == Some(
            "tell application \"System Events\" to key code 36"@ + using_clause(
                modifiers(key_parts(split(mods, '+'))),
            ),
        ),
        keys_script("enter"@) == Some("tell application \"System Events\" to key code 36"@),
        keys_script("return"@) == Some("tell application \"System Events\" to key code 36"@),
{
    reveal_strlit("enter");
    reveal_strlit("return");
    reveal_strlit("tell application \"System Events\" to key code 36");
    reveal_strlit("tell application \"System Events\" to key code ");
    reveal_strlit("36");
    assert(lower_word("enter"@));
    assert(lower_word("return"@));
    lemma_keys_ending_in(mods, "enter"@);
    lemma_keys_ending_in(mods, "return"@);
    assert(key_code("enter"@) == Some(36nat));
    assert(key_code("return"@) == Some(36nat));
    assert(decimal(3) == seq!['3']);
    assert(decimal(36) =~= seq!['3', '6']);
    assert("tell application \"System Events\" to key code "@ + decimal(36) =~= "tell application \"System Events\" to key code 36"@);
    assert(key_script("return"@, Seq::<char>::empty()) =~= "tell application \"System Events\" to key code 36"@);
    assert(key_script("enter"@, Seq::<char>::empty()) =~= "tell application \"System Events\" to key code 36"@);
}

/// A named key (return, enter, tab, space, esc, escape, delete, backspace and the four
/// arrows) is always pressed by its key code, never typed as the letters of its name,
/// whatever modifiers come before it.
pub proof fn lemma_named_keys_use_key_codes(mods: Seq<char>, n: Seq<char>)
    requires
        n == "return"@ || n == "enter"@ || n == "tab"@ || n == "space"@ || n == "esc"@
            || n == "escape"@ || n == "delete"@ || n == "backspace"@ || n == "left"@
            || n == "right"@ || n == "down"@ || n == "up"@,
    ensures
        keys_script(mods + "+"@ + n) matches Some(s) && starts_with(
            s,
            "tell application \"System Events\" to key code "@,
        ),
        keys_script(n) matches Some(s) && starts_with(s, "tell application \"System Events\" to key code "@),
{
    reveal_strlit("return");
    reveal_strlit("enter");
    reveal_strlit("tab");
    reveal_strlit("space");
    reveal_strlit("esc");
    reveal_strlit("escape");
    reveal_strlit("delete");
    reveal_strlit("backspace");
    reveal_strlit("left");
    reveal_strlit("right");
    reveal_strlit("down");
    reveal_strlit("up");
    assert(lower_word(n));
    assert(key_code(n) is Some);
    lemma_keys_ending_in(mods, n);
    let p = "tell application \"System Events\" to key code "@;
    let code = key_code(n)->0;
    let cl = using_clause(modifiers(key_parts(split(mods, '+'))));
    assert((p + decimal(code) + cl).take(p.len() as int) =~= p);
    assert((p + decimal(code) + Seq::<char>::empty()).take(p.len() as int) =~= p);
}

fn modifier_of(m: &[char]) -> (r: Option<&'static str>)
    ensures
        match modifier(m@) {
            Some(u) => r matches Some(x) && x@ == u,
            None => r is None,
        },
{
    if chars_is(m, "cmd") || chars_is(m, "command") || chars_is(m, "⌘") {
        Some("command down")
    } else if chars_is(m, "ctrl") || chars_is(m, "control") {
        Some("control down")
    } else if chars_is(m, "alt") || chars_is(m, "opt") || chars_is(m, "option") {
        Some("option down")
    } else if chars_is(m, "shift") {
        Some("shift down")
    } else {
        None
    }
}

fn key_code_of(k: &[char]) -> (r: Option<u64>)
    ensures
        match key_code(k@) {
            Some(c) => r == Some(c as u64),
            None => r is None,
        },
{
    if chars_is(k, "return") || chars_is(k, "enter") {
        Some(36)
    } else if chars_is(k, "tab") {
        Some(48)
    } else if chars_is(k, "space") {
        Some(49)
    } else if chars_is(k, "esc") || chars_is(k, "escape") {
        Some(53)
    } else if chars_is(k, "delete") || chars_is(k, "backspace") {
        Some(51)
    } else if chars_is(k, "left") {
        Some(123)
    } else if chars_is(k, "right") {
        Some(124)
    } else if chars_is(k, "down") {
        Some(125)
    } else if chars_is(k, "up") {
        Some(126)
    } else {
        None
    }
}

/// Builds the System Events script for a key combo like "cmd+s", "cmd+space", "return".
pub fn press_keys(spec: &str) -> (r: Result<String, ActError>)
    ensures
        match keys_script(spec@) {
            Some(s) => r matches Ok(x) && x@ == s,
            None => r == Err::<String, ActError>(ActError::EmptyKeySpec),
        },
{
    let pieces = split_chars(chars_of(spec).as_slice(), '+');
    let ghost pv = char_vecs_view(pieces@);
    let mut parts: Vec<Vec<char>> = Vec::new();
    let mut i: usize = 0;
    assert(pv.take(0) =~= Seq::<Seq<char>>::empty());
    while i < pieces.len()
        invariant
            i <= pieces@.len(),
            pv == char_vecs_view(pieces@),
            pv == split(spec@, '+'),
            char_vecs_view(parts@) == key_parts(pv.take(i as int)),
        decreases pieces@.len() - i,
    {
        let t = trim_chars(pieces[i].as_slice());
        let t_str = string_of(t.as_slice());
        let low = to_lowercase(t_str.as_str());
        let lc = chars_of(low.as_str());
        assert(pv.take(i + 1).drop_last() =~= pv.take(i as int));
        assert(pv.take(i + 1).last() == pieces@[i as int]@);
        let ghost before = parts@;
        if lc.len() > 0 {
            parts.push(lc);
            assert(char_vecs_view(parts@) =~= char_vecs_view(before).push(lc@));
        }
        assert(char_vecs_view(parts@) =~= key_parts(pv.take(i + 1)));
        i += 1;
    }
    assert(pv.take(pieces@.len() as int) =~= pv);
    match combo_script_chars(&parts) {
        Some(script) => Ok(script),
        None => Err(ActError::EmptyKeySpec),
    }
}

/// The System Events script for the (trimmed, lowercased, non-empty) pieces of a key
/// combo: the last piece is the key, the ones before it the modifiers.
pub fn combo_script(parts: &[String]) -> (r: Option<String>)
    ensures
        r matches Some(x) ==> combo_script_of(parts@.map_values(|s: String| s@)) == Some(x@),
        r is None ==> combo_script_of(parts@.map_values(|s: String| s@)) is None,
{
    let ghost target = parts@.map_values(|s: String| s@);
    let mut v: Vec<Vec<char>> = Vec::new();
    let mut i: usize = 0;
    while i < parts.len()
        invariant
            i <= parts@.len(),
            target == parts@.map_values(|s: String| s@),
            char_vecs_view(v@) == target.take(i as int),
        decreases parts@.len() - i,
    {
        let c = chars_of(parts[i].as_str());
        let ghost before = v@;
        v.push(c);
        assert(char_vecs_view(v@) =~= char_vecs_view(before).push(c@));
        assert(char_vecs_view(v@) =~= target.take(i + 1));
        i += 1;
    }
    assert(target.take(parts@.len() as int) =~= target);
    combo_script_chars(&v)
}

fn combo_script_chars(parts: &Vec<Vec<char>>) -> (r: Option<String>)
    ensures
        match combo_script_of(char_vecs_view(parts@)) {
            Some(s) => r matches Some(x) && x@ == s,
            None => r is None,
        },
{
    let ghost partsv = char_vecs_view(parts@);
    if parts.len() == 0 {
        return None;
    }
    let last = parts.len() - 1;
    // The modifier clause.
    let mut clause = String::new();
    let mut count: usize = 0;
    let mut j: usize = 0;
    let ghost mods = partsv.drop_last();
    assert(mods.take(0) =~= Seq::<Seq<char>>::empty());
    while j < last
        invariant
            last + 1 == parts@.len(),
            partsv == char_vecs_view(parts@),
            mods == partsv.drop_last(),
            j <= last,
            count == modifiers(mods.take(j as int)).len(),
            count <= j,
            count > 0 ==> clause@ == join(modifiers(mods.take(j as int)), ", "@),
            count == 0 ==> clause@.len() == 0,
        decreases last - j,
    {
        let m = modifier_of(parts[j].as_slice());
        assert(mods.take(j + 1).drop_last() =~= mods.take(j as int));
        assert(mods.take(j + 1).last() == parts@[j as int]@);
        let ghost prev = modifiers(mods.take(j as int));
        match m {
            Some(u) => {
                if count > 0 {
                    clause.append(", ");
                }
                clause.append(u);
                assert(modifiers(mods.take(j + 1)) == prev.push(u@));
                assert(prev.push(u@).drop_last() =~= prev);
                count += 1;
            },
            None => {
            },
        }
        j += 1;
    }
    assert(mods.take(last as int) =~= mods);
    let mut using = String::new();
    if count > 0 {
        using.append(" using {");
        using.append(clause.as_str());
        using.append("}");
    }
    assert(using@ == using_clause(modifiers(mods)));
    let key = &parts[last];
    assert(key@ == partsv.last());
    let mut script = String::from_str("tell application \"System Events\" to ");
    match key_code_of(key.as_slice()) {
        Some(code) => {
            script.append("key code ");
            push_u64(&mut script, code);
        },
        None => {
            script.append("keystroke \"");
            let e = crate::text::escape_chars(key.as_slice());
            push_chars(&mut script, e.as_slice());
            script.append("\"");
        },
    }
    script.append(using.as_str());
    proof {
        reveal_strlit("tell application \"System Events\" to ");
        reveal_strlit("key code ");
        reveal_strlit("keystroke \"");
        reveal_strlit("tell application \"System Events\" to key code ");
        reveal_strlit("tell application \"System Events\" to keystroke \"");
        assert("tell application \"System Events\" to "@ + "key code "@
            =~= "tell application \"System Events\" to key code "@);
        assert("tell application \"System Events\" to "@ + "keystroke \""@
            =~= "tell application \"System Events\" to keystroke \""@);
    }
    Some(script)
}

// ---------------------------------------------------------------------------------
// Typing and accessibility presses.
// ---------------------------------------------------------------------------------

/// How to type a text.
#[derive(Debug, Clone)]
pub enum TypeCommand {
    /// Nothing to type.
    Nothing,
    /// Run `cliclick` with this one argument.
    Cliclick(String),
    /// Run this AppleScript.
    Script(String),
}

/// How to type `text`: nothing for an empty text; through `cliclick` ("t:<text>") when it
/// is available; otherwise as a System Events keystroke of the escaped text.
pub fn type_text(text: &str, cliclick: bool) -> (r: TypeCommand)
    ensures
        text@.len() == 0 ==> r is Nothing,
        text@.len() > 0 && cliclick ==> (r matches TypeCommand::Cliclick(a) && a@ == "t:"@ + text@),
        text@.len() > 0 && !cliclick ==> (r matches TypeCommand::Script(s) && s@
            == "tell application \"System Events\" to keystroke \""@ + escape(text@) + "\""@),
{
    if text.unicode_len() == 0 {
        TypeCommand::Nothing
    } else if cliclick {
        TypeCommand::Cliclick(String::from_str("t:").concat(text))
    } else {
        let e = esc(text);
        let mut s = String::from_str("tell application \"System Events\" to keystroke \"");
        s.append(e.as_str());
        s.append("\"");
        TypeCommand::Script(s)
    }
}

/// The System Events class by which an element of this role is pressed.
pub open spec fn ax_class(role: Seq<char>) -> Seq<char> {
    if role == "AXButton"@ {
        "button"@
    } else if role == "AXCheckBox"@ {
        "checkbox"@
    } else if role == "AXRadioButton"@ {
        "radio button"@
    } else if role == "AXMenuButton"@ {
        "menu button"@
    } else if role == "AXPopUpButton"@ {
        "pop up button"@
    } else {
        "UI element"@
    }
}

/// How an element is found again for an accessibility press: by name, or by description
/// for nameless (icon-only) controls — never `whose name is ""`, which would grab the
/// wrong control.
pub fn ax_matcher(el: &ObservedElement) -> (r: Result<String, ActError>)
    ensures
        el.name@.len() > 0 ==> (r matches Ok(m) && m@ == "name is \""@ + escape(el.name@) + "\""@),
        el.name@.len() == 0 && el.desc@.len() > 0 ==> (r matches Ok(m) && m@ == "description is \""@
            + escape(el.desc@) + "\""@),
        el.name@.len() == 0 && el.desc@.len() == 0 ==> r == Err::<String, ActError>(
            ActError::Unpressable(el.id),
        ),
{
    if el.name.unicode_len() > 0 {
        let mut m = String::from_str("name is \"");
        let e = esc(el.name.as_str());
        m.append(e.as_str());
        m.append("\"");
        Ok(m)
    } else if el.desc.unicode_len() > 0 {
        let mut m = String::from_str("description is \"");
        let e = esc(el.desc.as_str());
        m.append(e.as_str());
        m.append("\"");
        Ok(m)
    } else {
        Err(ActError::Unpressable(el.id))
    }
}

/// The script that presses an element of the frontmost process `proc` through the
/// accessibility API, re-finding it by role and `matcher`.
pub fn ax_press_script(el: &ObservedElement, matcher: &str, proc: &str) -> (r: String)
    ensures
        r@ == "tell application \"System Events\" to tell process \""@ + escape(proc@)
            + "\"\nclick (first "@ + ax_class(el.role@) + " of (entire contents of front window) whose "@
            + matcher@ + ")\nend tell"@,
{
    let role = chars_of(el.role.as_str());
    let class: &str = if chars_is(role.as_slice(), "AXButton") {
        "button"
    } else if chars_is(role.as_slice(), "AXCheckBox") {
        "checkbox"
    } else if chars_is(role.as_slice(), "AXRadioButton") {
        "radio button"
    } else if chars_is(role.as_slice(), "AXMenuButton") {
        "menu button"
    } else if chars_is(role.as_slice(), "AXPopUpButton") {
        "pop up button"
    } else {
        "UI element"
    };
    let mut s = String::from_str("tell application \"System Events\" to tell process \"");
    let p = esc(proc);
    s.append(p.as_str());
    s.append("\"\nclick (first ");
    s.append(class);
    s.append(" of (entire contents of front window) whose ");
    s.append(matcher);
    s.append(")\nend tell");
    s
}

// ---------------------------------------------------------------------------------
// Planning an action and wording its outcome.
// ---------------------------------------------------------------------------------

/// The host step an action comes down to.
#[derive(Debug, Clone)]
pub enum Step {
    /// Launch or focus this application (`open -a`).
    OpenApp(String),
    /// Click the element with this index.
    Click(usize),
    /// Click the element with index `focus` first (when there is one), then type `text`.
    Type { focus: Option<usize>, text: String },
    /// Run `script`, which presses the combo `keys`.
    Key { keys: String, script: String },
    /// Wait briefly for the UI to settle.
    Wait,
    /// The task is complete; this is the model's result text.
    Finish(String),
    /// Nothing to do; this is the note for the history.
    Ignore(String),
}

/// The first of two optional strings that is present.
pub open spec fn first_present(a: Option<String>, b: Option<String>) -> Option<Seq<char>> {
    match a {
        Some(x) => Some(x@),
        None => opt_view(b),
    }
}

/// An optional string, or the empty string.
pub open spec fn or_empty(a: Option<String>) -> Seq<char> {
    match a {
        Some(x) => x@,
        None => Seq::empty(),
    }
}

/// The step an action comes down to, given the elements of the current view.
pub open spec fn planned(act: Action, els: Seq<ObservedElement>, step: Step) -> bool {
    let name = act.action@;
    if name == "open_app"@ {
        step matches Step::OpenApp(a) && Some(a@) == first_present(act.app, act.text)
    } else if name == "click"@ {
        step matches Step::Click(i) && found(els, act.id) == Ok::<usize, ActError>(i)
    } else if name == "type"@ {
        step matches Step::Type { focus, text } && text@ == or_empty(act.text) && focus == match found(
            els,
            act.id,
        ) {
            Ok(i) => Some(i),
            Err(_) => None::<usize>,
        }
    } else if name == "key"@ {
        step matches Step::Key { keys, script } && Some(keys@) == first_present(act.keys, act.text)
            && keys_script(keys@) == Some(script@)
    } else if name == "wait"@ {
        step is Wait
    } else if name == "done"@ {
        step matches Step::Finish(t) && t@ == or_empty(act.text)
    } else {
        step matches Step::Ignore(m) && m@ == "ignored unknown action "@ + debug_quoted(name)
    }
}

/// The error, if any, that stops an action before any step is taken.
pub open spec fn plan_error(act: Action, els: Seq<ObservedElement>) -> Option<ActError> {
    let name = act.action@;
    if name == "open_app"@ {
        if first_present(act.app, act.text) is None {
            Some(ActError::NeedsApp)
        } else {
            None
        }
    } else if name == "click"@ {
        match found(els, act.id) {
            Ok(_) => None,
            Err(e) => Some(e),
        }
    } else if name == "key"@ {
        match first_present(act.keys, act.text) {
            None => Some(ActError::NeedsKeys),
            Some(k) => if keys_script(k) is None {
                Some(ActError::EmptyKeySpec)
            } else {
                None
            },
        }
    } else {
        None
    }
}

/// A `type` action always goes ahead: it types the action's text (empty when it has none)
/// and, when an element of the view carries the id it names, first clicks that element (the
/// first one with the id) to focus it; only when no element carries the id (or there is no
/// id) is nothing clicked.
pub proof fn lemma_type_focuses_named_element(act: Action, els: Seq<ObservedElement>, step: Step)
    requires
        act.action@ == "type"@,
        planned(act, els, step),
        els.len() <= usize::MAX,
    ensures
        plan_error(act, els) is None,
        step matches Step::Type { focus, text } && text@ == or_empty(act.text),
        forall|i: int|
            0 <= i < els.len() && act.id == Some(#[trigger] els[i].id as i64) ==> (step matches Step::Type {
                focus: Some(f),
                text: _,
            } && f <= i && act.id == Some(els[f as int].id as i64)),
        (forall|i: int| 0 <= i < els.len() ==> act.id != Some(#[trigger] els[i].id as i64))
            ==> step matches Step::Type { focus: None, text: _ },
{
    reveal_strlit("type");
    reveal_strlit("open_app");
    reveal_strlit("click");
    reveal_strlit("key");
    assert("type"@.len() != "open_app"@.len());
    assert("type"@.len() != "click"@.len());
    assert("type"@.len() != "key"@.len());
    if act.id is Some {
        let id = act.id->0;
        lemma_find_from(els, id, 0);
        let f = find_from(els, id, 0);
        assert forall|i: int|
            0 <= i < els.len() && act.id == Some(#[trigger] els[i].id as i64) implies (step matches Step::Type {
                focus: Some(g),
                text: _,
            } && g <= i && act.id == Some(els[g as int].id as i64)) by {
            if f > i {
                assert(els[i].id as i64 != id);
            }
            assert(f <= i);
            assert(found(els, act.id) == Ok::<usize, ActError>(f as usize));
            match step {
                Step::Type { focus, text } => {
                    assert(focus == Some(f as usize));
                },
                _ => {},
            }
        }
        if forall|i: int| 0 <= i < els.len() ==> act.id != Some(#[trigger] els[i].id as i64) {
            if f < els.len() {
                assert(act.id == Some(els[f].id as i64));
            }
        }
    }
}

fn clone_string(s: &String) -> (r: String)
    ensures
        r@ == s@,
{
    s.clone()
}

/// Decides the host step for the model's action: which app, which element (by the id the
/// model referenced), which text, which key script.
pub fn plan(act: &Action, els: &[ObservedElement]) -> (r: Result<Step, ActError>)
    ensures
        match plan_error(*act, els@) {
            Some(e) => r == Err::<Step, ActError>(e),
            None => r matches Ok(step) && planned(*act, els@, step),
        },
        r matches Ok(Step::Click(i)) ==> i < els@.len() && act.id == Some(els@[i as int].id as i64),
        r matches Ok(Step::Type { focus: Some(i), text: _ }) ==> i < els@.len() && act.id == Some(
            els@[i as int].id as i64,
        ),
{
    let name = chars_of(act.action.as_str());
    assert(name@ == act.action@);
    if chars_is(name.as_slice(), "open_app") {
        let app = match &act.app {
            Some(a) => clone_string(a),
            None => match &act.text {
                Some(t) => clone_string(t),
                None => {
                    return Err(ActError::NeedsApp);
                },
            },
        };
        Ok(Step::OpenApp(app))
    } else if chars_is(name.as_slice(), "click") {
        match find(els, act.id) {
            Ok(i) => Ok(Step::Click(i)),
            Err(e) => Err(e),
        }
    } else if chars_is(name.as_slice(), "type") {
        proof {
            reveal_strlit("type");
            reveal_strlit("key");
            assert("type"@.len() != "key"@.len());
        }
        let text = match &act.text {
            Some(t) => clone_string(t),
            None => String::new(),
        };
        let focus = match find(els, act.id) {
            Ok(i) => Some(i),
            Err(_) => None,
        };
        Ok(Step::Type { focus, text })
    } else if chars_is(name.as_slice(), "key") {
        let keys = match &act.keys {
            Some(k) => clone_string(k),
            None => match &act.text {
                Some(t) => clone_string(t),
                None => {
                    return Err(ActError::NeedsKeys);
                },
            },
        };
        match press_keys(keys.as_str()) {
            Ok(script) => Ok(Step::Key { keys, script }),
            Err(e) => Err(e),
        }
    } else if chars_is(name.as_slice(), "wait") {
        assert(plan_error(*act, els@) is None);
        Ok(Step::Wait)
    } else if chars_is(name.as_slice(), "done") {
        let text = match &act.text {
            Some(t) => clone_string(t),
            None => String::new(),
        };
        Ok(Step::Finish(text))
    } else {
        assert(plan_error(*act, els@) is None);
        let q = debug_str(act.action.as_str());
        Ok(Step::Ignore(String::from_str("ignored unknown action ").concat(q.as_str())))
    }
}

/// What a step reports once it has been carried out: `launched` says whether `open -a`
/// succeeded (it only matters for `OpenApp`).
pub open spec fn reported(step: Step, els: Seq<ObservedElement>, launched: bool) -> (bool, Seq<char>) {
    match step {
        Step::OpenApp(a) => (
            false,
            if launched {
                "launched "@ + a@
            } else {
                "could not launch "@ + a@
            },
        ),
        Step::Click(i) => (
            false,
            "clicked #"@ + decimal(els[i as int].id as nat) + " ("@ + label_of(
                els[i as int].role@,
                els[i as int].name@,
                els[i as int].desc@,
                els[i as int].value@,
            ) + ")"@,
        ),
        Step::Type { focus, text } => (
            false,
            if text@.len() == 0 {
                match focus {
                    Some(i) => "focused #"@ + signed_decimal((els[i as int].id as i64) as int)
                        + " (no text to type)"@,
                    None => "type called with no text and no id (no-op)"@,
                }
            } else {
                "typed "@ + debug_quoted(take_chars(text@, 40))
            },
        ),
        Step::Key { keys, script } => (false, "pressed "@ + keys@),
        Step::Wait => (false, "waited"@),
        Step::Finish(t) => (true, t@),
        Step::Ignore(m) => (false, m@),
    }
}

/// Words the outcome of a step that has been carried out, for the action history.
pub fn step_outcome(step: &Step, els: &[ObservedElement], launched: bool) -> (o: Outcome)
    requires
        step matches Step::Click(i) ==> i < els@.len(),
        step matches Step::Type { focus: Some(i), text: _ } ==> i < els@.len(),
    ensures
        outcome_view(o) == reported(*step, els@, launched),
{
    match step {
        Step::OpenApp(a) => {
            let head = if launched {
                String::from_str("launched ")
            } else {
                String::from_str("could not launch ")
            };
            Outcome::Continue(head.concat(a.as_str()))
        },
        Step::Click(i) => {
            let el = &els[*i];
            let mut s = String::from_str("clicked #");
            push_u64(&mut s, el.id as u64);
            s.append(" (");
            let l = el.label();
            s.append(l.as_str());
            s.append(")");
            Outcome::Continue(s)
        },
        Step::Type { focus, text } => {
            if text.unicode_len() == 0 {
                match focus {
                    Some(i) => {
                        let mut s = String::from_str("focused #");
                        push_i64(&mut s, els[*i].id as i64);
                        s.append(" (no text to type)");
                        Outcome::Continue(s)
                    },
                    None => Outcome::Continue(
                        String::from_str("type called with no text and no id (no-op)"),
                    ),
                }
            } else {
                let t = truncate(text.as_str(), 40);
                let q = debug_str(t.as_str());
                Outcome::Continue(String::from_str("typed ").concat(q.as_str()))
            }
        },
        Step::Key { keys, script: _ } => Outcome::Continue(
            String::from_str("pressed ").concat(keys.as_str()),
        ),
        Step::Wait => Outcome::Continue(String::from_str("waited")),
        Step::Finish(t) => Outcome::Done(clone_string(t)),
        Step::Ignore(m) => Outcome::Continue(clone_string(m)),
    }
}

/// The elements of a view numbered 1..N (as `ax_tree` numbers them) are all reachable
/// by id: for every id in 1..=N the lookup finds exactly the element with that number.
pub proof fn lemma_numbered_ids_resolve(els: Seq<ObservedElement>)
    requires
        els.len() <= 60,
        forall|k: int| 0 <= k < els.len() ==> (#[trigger] els[k]).id == k + 1,
    ensures
        forall|id: int| 1 <= id <= els.len() ==> #[trigger] found(els, Some(id as i64)) == Ok::<usize, ActError>((id - 1) as usize),
{
    assert forall|id: int| 1 <= id <= els.len() implies #[trigger] found(els, Some(id as i64)) == Ok::<usize, ActError>((id - 1) as usize) by {
        lemma_find_from(els, id as i64, 0);
        let f = find_from(els, id as i64, 0);
        assert(els[id - 1].id as i64 == id as i64);
        if f > id - 1 {
            assert(els[id - 1].id as i64 != id as i64);
        }
        if f < id - 1 {
            assert(els[f].id == f + 1);
            assert(els[f].id as i64 == id as i64);
        }
    }
}

} // verus!
