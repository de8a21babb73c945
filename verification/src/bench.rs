//! Offline model shootout: how one predicted action is scored against a fixture's
//! expected actions, and how a scorecard is tallied. The same prompt and parser as the
//! live loop produce the prediction; fetching it, timing it and printing are the caller's.
use vstd::prelude::*;

use crate::act::{find_from, first_present, found, lemma_find_from, or_empty};
use crate::perceive::ObservedElement;
use crate::reason::Action;
use crate::text::{
    chars_is, chars_of, contains, contains_exec, debug_quoted, debug_str, first_line,
    first_line_chars, lowercase, push_i64, replace, replace_exec, signed_decimal, string_of,
    take_chars, to_lowercase, trim, trim_str, truncate,
};

verus! {

/// One acceptable answer of a fixture.
#[derive(Debug, Clone)]
pub struct Expected {
    pub action: String,
    pub id: Option<i64>,
    pub keys: Option<String>,
    pub app: Option<String>,
    pub text_contains: Option<String>,
}

/// A key combo in canonical form: lowercased, spaces removed, long modifier and key names
/// shortened ("command" → "cmd", "control" → "ctrl", "option" → "alt", "escape" → "esc",
/// "enter" → "return").
pub open spec fn normalized_keys(s: Seq<char>) -> Seq<char> {
    replace(
        replace(
            replace(
                replace(replace(replace(lowercase(s), " "@, ""@), "command"@, "cmd"@), "control"@, "ctrl"@),
                "option"@,
                "alt"@,
            ),
            "escape"@,
            "esc"@,
        ),
        "enter"@,
        "return"@,
    )
}

fn replace_lit(t: Vec<char>, p: &str, r: &str) -> (out: Vec<char>)
    requires
        p@.len() > 0,
    ensures
        out@ == replace(t@, p@, r@),
{
    let pc = chars_of(p);
    let rc = chars_of(r);
    replace_exec(t.as_slice(), pc.as_slice(), rc.as_slice())
}

/// Puts a key combo into canonical form.
pub fn norm_keys(s: &str) -> (r: String)
    ensures
        r@ == normalized_keys(s@),
{
    proof {
        reveal_strlit(" ");
        reveal_strlit("command");
        reveal_strlit("control");
        reveal_strlit("option");
        reveal_strlit("escape");
        reveal_strlit("enter");
    }
    let low = to_lowercase(s);
    let t = chars_of(low.as_str());
    let t = replace_lit(t, " ", "");
    let t = replace_lit(t, "command", "cmd");
    let t = replace_lit(t, "control", "ctrl");
    let t = replace_lit(t, "option", "alt");
    let t = replace_lit(t, "escape", "esc");
    let t = replace_lit(t, "enter", "return");
    string_of(t.as_slice())
}

/// Whether a predicted action matches one expected answer: same action; the expected id,
/// if any; the expected keys (compared in canonical form), if any, against the predicted
/// keys or else text; the expected app (trimmed, lowercased), if any, against the predicted
/// app or else text; and the expected text fragment, if any, inside the predicted text
/// (both lowercased).
pub open spec fn matches_expected(pred: Action, exp: Expected) -> bool {
    &&& pred.action@ == exp.action@
    &&& (exp.id matches Some(eid) ==> pred.id == Some(eid))
    &&& (exp.keys matches Some(ek) ==> normalized_keys(
        match first_present(pred.keys, pred.text) {
            Some(k) => k,
            None => Seq::empty(),
        },
    ) == normalized_keys(ek@))
    &&& (exp.app matches Some(ea) ==> lowercase(
        trim(
            match first_present(pred.app, pred.text) {
                Some(a) => a,
                None => Seq::empty(),
            },
        ),
    ) == lowercase(trim(ea@)))
    &&& (exp.text_contains matches Some(tc) ==> contains(
        lowercase(or_empty(pred.text)),
        lowercase(tc@),
    ))
}

fn present_or_empty(a: &Option<String>, b: &Option<String>) -> (r: String)
    ensures
        r@ == match first_present(*a, *b) {
            Some(x) => x,
            None => Seq::<char>::empty(),
        },
{
    match a {
        Some(x) => x.clone(),
        None => match b {
            Some(y) => y.clone(),
            None => String::new(),
        },
    }
}

/// Whether a predicted action matches one expected answer.
pub fn matches(pred: &Action, exp: &Expected) -> (r: bool)
    ensures
        r == matches_expected(*pred, *exp),
{
    if !(pred.action == exp.action) {
        return false;
    }
    if let Some(eid) = exp.id {
        if pred.id != Some(eid) {
            return false;
        }
    }
    if let Some(ek) = &exp.keys {
        let pk = present_or_empty(&pred.keys, &pred.text);
        let a = norm_keys(pk.as_str());
        let b = norm_keys(ek.as_str());
        if !(a == b) {
            return false;
        }
    }
    if let Some(ea) = &exp.app {
        let pa = present_or_empty(&pred.app, &pred.text);
        let a = to_lowercase(trim_str(pa.as_str()).as_str());
        let b = to_lowercase(trim_str(ea.as_str()).as_str());
        if !(a == b) {
            return false;
        }
    }
    if let Some(tc) = &exp.text_contains {
        let pt = present_or_empty(&pred.text, &None);
        let a = to_lowercase(pt.as_str());
        let b = to_lowercase(tc.as_str());
        let ac = chars_of(a.as_str());
        let bc = chars_of(b.as_str());
        if !contains_exec(ac.as_slice(), bc.as_slice()) {
            return false;
        }
    }
    true
}

/// Whether some element of the view has the id.
pub open spec fn id_present(els: Seq<ObservedElement>, id: Option<i64>) -> bool {
    id matches Some(i) && exists|k: int| 0 <= k < els.len() && els[k].id as i64 == i
}

/// The safety rule: a click must reference an element id that exists in the list; so must
/// a type that names an id; every other action is safe.
pub open spec fn safe_action(pred: Action, els: Seq<ObservedElement>) -> bool {
    if pred.action@ == "click"@ {
        id_present(els, pred.id)
    } else if pred.action@ == "type"@ {
        pred.id is None || id_present(els, pred.id)
    } else {
        true
    }
}

fn id_present_exec(els: &[ObservedElement], id: Option<i64>) -> (r: bool)
    ensures
        r == id_present(els@, id),
{
    match id {
        None => false,
        Some(i) => {
            let n = els.len();
            let mut k: usize = 0;
            while k < n
                invariant
                    n == els@.len(),
                    id == Some(i),
                    k <= n,
                    forall|j: int| 0 <= j < k ==> els@[j].id as i64 != i,
                decreases n - k,
            {
                let eid = els[k].id as i64;
                assert(eid == els@[k as int].id as i64);
                if eid == i {
                    assert(0 <= k < els@.len() && els@[k as int].id as i64 == i);
                    assert(exists|j: int| 0 <= j < els@.len() && els@[j].id as i64 == i);
                    assert(id == Some(i));
                    assert(id_present(els@, id));
                    return true;
                }
                k += 1;
            }
            false
        },
    }
}

/// A click/type must reference an element id that actually exists in the list.
pub fn is_safe(pred: &Action, els: &[ObservedElement]) -> (r: bool)
    ensures
        r == safe_action(*pred, els@),
{
    let name = chars_of(pred.action.as_str());
    if chars_is(name.as_slice(), "click") {
        id_present_exec(els, pred.id)
    } else if chars_is(name.as_slice(), "type") {
        pred.id.is_none() || id_present_exec(els, pred.id)
    } else {
        true
    }
}

/// A one-line rendering of a prediction for the scorecard: the action with its app, its
/// id ("#-1" when missing), its text (first 24 characters, quoted) or its keys.
pub open spec fn described(a: Action) -> Seq<char> {
    let name = a.action@;
    if name == "open_app"@ {
        "open_app "@ + or_empty(a.app)
    } else if name == "click"@ {
        "click #"@ + signed_decimal(
            match a.id {
                Some(i) => i as int,
                None => -1,
            },
        )
    } else if name == "type"@ {
        "type"@ + match a.id {
            Some(i) => " #"@ + signed_decimal(i as int),
            None => Seq::empty(),
        } + " "@ + debug_quoted(take_chars(or_empty(a.text), 24))
    } else if name == "key"@ {
        "key "@ + match first_present(a.keys, a.text) {
            Some(k) => k,
            None => Seq::empty(),
        }
    } else {
        name
    }
}

/// Renders a prediction for the scorecard.
pub fn describe(a: &Action) -> (r: String)
    ensures
        r@ == described(*a),
{
    let name = chars_of(a.action.as_str());
    if chars_is(name.as_slice(), "open_app") {
        let app = present_or_empty(&a.app, &None);
        String::from_str("open_app ").concat(app.as_str())
    } else if chars_is(name.as_slice(), "click") {
        let mut s = String::from_str("click #");
        let i = match a.id {
            Some(i) => i,
            None => -1,
        };
        push_i64(&mut s, i);
        s
    } else if chars_is(name.as_slice(), "type") {
        let mut s = String::from_str("type");
        if let Some(i) = a.id {
            s.append(" #");
            push_i64(&mut s, i);
        }
        s.append(" ");
        let t = present_or_empty(&a.text, &None);
        let tt = truncate(t.as_str(), 24);
        let q = debug_str(tt.as_str());
        s.append(q.as_str());
        s
    } else if chars_is(name.as_slice(), "key") {
        let k = present_or_empty(&a.keys, &a.text);
        String::from_str("key ").concat(k.as_str())
    } else {
        string_of(name.as_slice())
    }
}

/// The scorecard mark for a yes/no column.
pub fn mark(b: bool) -> (r: &'static str)
    ensures
        r@ == if b {
            "✓"@
        } else {
            "·"@
        },
{
    if b {
        "✓"
    } else {
        "·"
    }
}

/// The first `n` characters of a string.
pub fn trunc(s: &str, n: usize) -> (r: String)
    ensures
        r@ == take_chars(s@, n as nat),
{
    truncate(s, n)
}

/// The first 60 characters of the first line of a message.
pub fn short(s: &str) -> (r: String)
    ensures
        r@ == take_chars(first_line(s@), 60),
{
    let l = first_line_chars(chars_of(s).as_slice());
    let ls = string_of(l.as_slice());
    truncate(ls.as_str(), 60)
}

/// The scoring of one fixture (its name and latency are kept by the caller).
#[derive(Debug, Clone)]
pub struct Score {
    /// The reply parsed into an action.
    pub valid: bool,
    /// Some expected answer has the same action.
    pub action_match: bool,
    /// Some expected answer matches exactly.
    pub exact: bool,
    /// Exact, or a click on the very element an expected `type` targets (a valid
    /// focus-then-type strategy).
    pub fair: bool,
    /// The prediction references only existing elements.
    pub safe: bool,
    /// The prediction as shown in the scorecard.
    pub pred: String,
}

/// A click on the element that an expected `type` answer targets.
pub open spec fn focus_then_type(pred: Action, e: Expected) -> bool {
    e.action@ == "type"@ && e.id is Some && pred.action@ == "click"@ && pred.id == e.id
}

/// The scoring of a prediction, or of a failed prediction with its error message.
pub open spec fn scored(result: Result<Action, String>, expected: Seq<Expected>, els: Seq<ObservedElement>, s: Score) -> bool {
    match result {
        Ok(pred) => {
            let exact = exists|k: int| 0 <= k < expected.len() && matches_expected(pred, #[trigger] expected[k]);
            &&& s.valid
            &&& s.action_match == exists|k: int| 0 <= k < expected.len() && (#[trigger] expected[k]).action@ == pred.action@
            &&& s.exact == exact
            &&& s.fair == (exact || exists|k: int| 0 <= k < expected.len() && focus_then_type(pred, #[trigger] expected[k]))
            &&& s.safe == safe_action(pred, els)
            &&& s.pred@ == described(pred)
        },
        Err(e) => {
            &&& !s.valid && !s.action_match && !s.exact && !s.fair && s.safe
            &&& s.pred@ == "<error: "@ + take_chars(first_line(e@), 60) + ">"@
        },
    }
}

/// Scores one prediction against the fixture's expected answers. An exact match always
/// counts as an action match and as fair.
pub fn score(result: &Result<Action, String>, expected: &Vec<Expected>, els: &[ObservedElement]) -> (s: Score)
    ensures
        scored(*result, expected@, els@, s),
        s.exact ==> s.action_match && s.fair,
{
    match result {
        Ok(pred) => {
            let n = expected.len();
            let mut action_match = false;
            let mut exact = false;
            let mut focus = false;
            let mut k: usize = 0;
            while k < n
                invariant
                    n == expected@.len(),
                    k <= n,
                    action_match == exists|j: int| 0 <= j < k && (#[trigger] expected@[j]).action@ == pred.action@,
                    exact == exists|j: int| 0 <= j < k && matches_expected(*pred, #[trigger] expected@[j]),
                    focus == exists|j: int| 0 <= j < k && focus_then_type(*pred, #[trigger] expected@[j]),
                decreases n - k,
            {
                let e = &expected[k];
                let same = pred.action == e.action;
                let m = matches(pred, e);
                let ty = chars_is(chars_of(e.action.as_str()).as_slice(), "type");
                let cl = chars_is(chars_of(pred.action.as_str()).as_slice(), "click");
                let f = ty && e.id.is_some() && cl && pred.id == e.id;
                assert(f == focus_then_type(*pred, expected@[k as int]));
                action_match = action_match || same;
                exact = exact || m;
                focus = focus || f;
                k += 1;
            }
            let safe = is_safe(pred, els);
            let d = describe(pred);
            Score { valid: true, action_match, exact, fair: exact || focus, safe, pred: d }
        },
        Err(e) => {
            let sh = short(e.as_str());
            let mut p = String::from_str("<error: ");
            p.append(sh.as_str());
            p.append(">");
            Score { valid: false, action_match: false, exact: false, fair: false, safe: true, pred: p }
        },
    }
}

/// The number of scores with a column set.
pub open spec fn count_where(scores: Seq<Score>, col: spec_fn(Score) -> bool) -> nat
    decreases scores.len(),
{
    if scores.len() == 0 {
        0
    } else {
        count_where(scores.drop_last(), col) + if col(scores.last()) {
            1nat
        } else {
            0nat
        }
    }
}

/// The column totals of a scorecard.
#[derive(Debug, Clone, Copy)]
pub struct Tally {
    pub valid: usize,
    pub exact: usize,
    pub fair: usize,
    pub action: usize,
    pub safe: usize,
}

/// Counts, over the scorecard, the valid, exact, fair, action-matching and safe rows.
pub fn tally(scores: &Vec<Score>) -> (t: Tally)
    ensures
        t.valid == count_where(scores@, |s: Score| s.valid),
        t.exact == count_where(scores@, |s: Score| s.exact),
        t.fair == count_where(scores@, |s: Score| s.fair),
        t.action == count_where(scores@, |s: Score| s.action_match),
        t.safe == count_where(scores@, |s: Score| s.safe),
        (forall|j: int| 0 <= j < scores@.len() ==> (#[trigger] scores@[j]).exact ==> scores@[j].action_match
            && scores@[j].fair) ==> t.exact <= t.action && t.exact <= t.fair,
{
    let n = scores.len();
    let mut t = Tally { valid: 0, exact: 0, fair: 0, action: 0, safe: 0 };
    let mut i: usize = 0;
    assert(scores@.take(0) =~= Seq::<Score>::empty());
    while i < n
        invariant
            n == scores@.len(),
            i <= n,
            t.valid == count_where(scores@.take(i as int), |s: Score| s.valid),
            t.exact == count_where(scores@.take(i as int), |s: Score| s.exact),
            t.fair == count_where(scores@.take(i as int), |s: Score| s.fair),
            t.action == count_where(scores@.take(i as int), |s: Score| s.action_match),
            t.safe == count_where(scores@.take(i as int), |s: Score| s.safe),
            t.valid <= i && t.exact <= i && t.fair <= i && t.action <= i && t.safe <= i,
            (forall|j: int| 0 <= j < n ==> (#[trigger] scores@[j]).exact ==> scores@[j].action_match
                && scores@[j].fair) ==> t.exact <= t.action && t.exact <= t.fair,
        decreases n - i,
    {
        let s = &scores[i];
        assert(scores@.take(i + 1).drop_last() =~= scores@.take(i as int));
        assert(scores@.take(i + 1).last() == scores@[i as int]);
        if s.valid {
            t.valid += 1;
        }
        if s.exact {
            t.exact += 1;
        }
        if s.fair {
            t.fair += 1;
        }
        if s.action_match {
            t.action += 1;
        }
        if s.safe {
            t.safe += 1;
        }
        i += 1;
    }
    assert(scores@.take(n as int) =~= scores@);
    t
}

/// The safety rule agrees with what execution does: a click is judged safe exactly when
/// the element lookup of its id succeeds, and so is a type that names an id.
pub proof fn lemma_safe_iff_found(pred: Action, els: Seq<ObservedElement>)
    ensures
        pred.action@ == "click"@ ==> (safe_action(pred, els) <==> found(els, pred.id) is Ok),
        pred.action@ == "type"@ && pred.id is Some ==> (safe_action(pred, els) <==> found(els, pred.id) is Ok),
{
    if pred.id is Some {
        let i = pred.id->0;
        lemma_find_from(els, i, 0);
        let f = find_from(els, i, 0);
        if id_present(els, pred.id) {
            let k = choose|k: int| 0 <= k < els.len() && els[k].id as i64 == i;
            if f > k {
                assert(els[k].id as i64 != i);
            }
        }
        if f < els.len() {
            assert(0 <= f < els.len() && els[f].id as i64 == i);
        }
    }
    reveal_strlit("click");
    reveal_strlit("type");
    assert("click"@.len() != "type"@.len());
}

/// An expected answer that the prediction matches makes it exact, and so fair and an
/// action match, wherever that answer stands in the list; and an exact prediction matches
/// some expected answer.
pub proof fn lemma_exact_anywhere(
    pred: Action,
    expected: Seq<Expected>,
    els: Seq<ObservedElement>,
    s: Score,
    k: int,
)
    requires
        scored(Ok(pred), expected, els, s),
        0 <= k < expected.len(),
        matches_expected(pred, expected[k]),
    ensures
        s.exact,
        s.fair,
        s.action_match,
{
    assert(matches_expected(pred, expected[k]));
    assert(expected[k].action@ == pred.action@);
}

/// An exact prediction matches some expected answer.
pub proof fn lemma_exact_has_a_match(pred: Action, expected: Seq<Expected>, els: Seq<ObservedElement>, s: Score)
    requires
        scored(Ok(pred), expected, els, s),
        s.exact,
    ensures
        exists|k: int| 0 <= k < expected.len() && matches_expected(pred, #[trigger] expected[k]),
{
}

proof fn lemma_same_answers_exists(e1: Seq<Expected>, e2: Seq<Expected>, p: spec_fn(Expected) -> bool)
    requires
        forall|x: Expected| e1.contains(x) ==> e2.contains(x),
        exists|k: int| 0 <= k < e1.len() && p(#[trigger] e1[k]),
    ensures
        exists|k: int| 0 <= k < e2.len() && p(#[trigger] e2[k]),
{
    let k = choose|k: int| 0 <= k < e1.len() && p(#[trigger] e1[k]);
    assert(e1.contains(e1[k]));
    assert(e2.contains(e1[k]));
    let j = choose|j: int| 0 <= j < e2.len() && e2[j] == e1[k];
    assert(p(e2[j]));
}

/// The order of the expected answers does not matter, nor how often one is listed: two
/// lists with the same answers give the same score.
pub proof fn lemma_score_ignores_order(
    pred: Action,
    e1: Seq<Expected>,
    e2: Seq<Expected>,
    els: Seq<ObservedElement>,
    s1: Score,
    s2: Score,
)
    requires
        scored(Ok(pred), e1, els, s1),
        scored(Ok(pred), e2, els, s2),
        forall|x: Expected| e1.contains(x) <==> e2.contains(x),
    ensures
        s1.valid == s2.valid,
        s1.action_match == s2.action_match,
        s1.exact == s2.exact,
        s1.fair == s2.fair,
        s1.safe == s2.safe,
{
    let pm = |e: Expected| matches_expected(pred, e);
    let pa = |e: Expected| e.action@ == pred.action@;
    let pf = |e: Expected| focus_then_type(pred, e);
    assert forall|x: Expected| e1.contains(x) implies e2.contains(x) by {}
    assert forall|x: Expected| e2.contains(x) implies e1.contains(x) by {}
    if exists|k: int| 0 <= k < e1.len() && pm(#[trigger] e1[k]) {
        lemma_same_answers_exists(e1, e2, pm);
    }
    if exists|k: int| 0 <= k < e2.len() && pm(#[trigger] e2[k]) {
        lemma_same_answers_exists(e2, e1, pm);
    }
    if exists|k: int| 0 <= k < e1.len() && pa(#[trigger] e1[k]) {
        lemma_same_answers_exists(e1, e2, pa);
    }
    if exists|k: int| 0 <= k < e2.len() && pa(#[trigger] e2[k]) {
        lemma_same_answers_exists(e2, e1, pa);
    }
    if exists|k: int| 0 <= k < e1.len() && pf(#[trigger] e1[k]) {
        lemma_same_answers_exists(e1, e2, pf);
    }
    if exists|k: int| 0 <= k < e2.len() && pf(#[trigger] e2[k]) {
        lemma_same_answers_exists(e2, e1, pf);
    }
}

} // verus!
