//! The perceive → reason → act loop's own decisions: the system prompt, the per-turn user
//! text, how a decided action and an executed step move the loop on, and the small
//! helpers of the command line.
use vstd::prelude::*;

use crate::act::{first_present, or_empty, outcome_view, Outcome};
use crate::perceive::{label_of, ObservedElement};
use crate::reason::Action;
use crate::text::{
    chars_is, chars_of, debug_quoted, debug_str, decimal, join, lowercase, push_i64,
    push_joined, push_u64, signed_decimal, slice_chars, starts_with, string_of, to_lowercase,
    trim, trim_chars,
};

verus! {

/// The instructions the model gets with every turn.
pub const SYSTEM_PROMPT: &'static str = "You are an on-device agent that controls a macOS computer to accomplish a user's task. You work one step at a time in a perceive→act loop.

Each turn you receive: the frontmost app, a NUMBERED list of on-screen UI elements, your recent actions, and usually a screenshot of the active window.

Reply with EXACTLY ONE JSON object for the single next action. No prose, no markdown.

Schema: {\"thought\":\"<one short sentence>\",\"action\":\"<name>\", ...fields}

Actions:
- {\"action\":\"open_app\",\"app\":\"TextEdit\"}          launch or focus an application
- {\"action\":\"click\",\"id\":N}                        click on-screen UI element number N
- {\"action\":\"type\",\"id\":N,\"text\":\"...\"}            focus element N then type (omit id to type into the focused field)
- {\"action\":\"key\",\"keys\":\"cmd+s\"}                  press a key combo (return, cmd+s, cmd+space, cmd+l, ...)
- {\"action\":\"wait\"}                                wait briefly for the UI to settle
- {\"action\":\"done\",\"text\":\"<result>\"}              the task is fully complete

Rules:
- Reference elements ONLY by their id from the list. NEVER invent x/y coordinates.
- Prefer keyboard shortcuts: cmd+s to save, open_app to launch, return to confirm a dialog.
- Exactly one action per turn; you will see the result next turn.
- Emit \"done\" as soon as the goal is achieved.";

/// How many of the most recent actions the model is shown.
pub const RECENT_ACTIONS: usize = 6;

/// One line of the element listing: `  <id>: <label>`.
pub open spec fn element_line(e: ObservedElement) -> Seq<char> {
    "  "@ + decimal(e.id as nat) + ": "@ + label_of(e.role@, e.name@, e.desc@, e.value@)
}

/// The element listing: one line per element, or a hint when there is none.
pub open spec fn listing(els: Seq<ObservedElement>) -> Seq<char> {
    if els.len() == 0 {
        "(no readable elements — use open_app / key / type)"@
    } else {
        join(els.map_values(|e: ObservedElement| element_line(e)), "\n"@)
    }
}

/// The last `n` entries of a history, in order.
pub open spec fn last_n(h: Seq<Seq<char>>, n: nat) -> Seq<Seq<char>> {
    if h.len() <= n {
        h
    } else {
        h.skip(h.len() - n)
    }
}

/// The recent-actions block: the last six entries, one `  - <entry>` line each, or a note
/// when there is none yet.
pub open spec fn recent_block(h: Seq<Seq<char>>) -> Seq<char> {
    if h.len() == 0 {
        "(none yet)"@
    } else {
        join(last_n(h, 6).map_values(|x: Seq<char>| "  - "@ + x), "\n"@)
    }
}

/// The user text of one turn: the task, the frontmost app, whether a screenshot is
/// attached, the numbered elements and the recent actions.
pub open spec fn user_text(
    task: Seq<char>,
    proc: Seq<char>,
    els: Seq<ObservedElement>,
    history: Seq<Seq<char>>,
    has_image: bool,
) -> Seq<char> {
    "TASK: "@ + task + "\n\nFRONTMOST APP: "@ + proc + "\n"@ + (if has_image {
        "A screenshot of the active window is attached below."@
    } else {
        "(no screenshot this turn)"@
    }) + "\nUI ELEMENTS (choose by id):\n"@ + listing(els) + "\n\nRECENT ACTIONS:\n"@
        + recent_block(history) + "\n\nReply with ONE JSON action for the next step."@
}

/// The views of a sequence of strings.
pub open spec fn history_view(h: Seq<String>) -> Seq<Seq<char>> {
    h.map_values(|s: String| s@)
}

/// Builds the user text of one turn.
pub fn build_user_text(
    task: &str,
    proc: &str,
    els: &[ObservedElement],
    history: &[String],
    has_image: bool,
) -> (r: String)
    ensures
        r@ == user_text(task@, proc@, els@, history_view(history@), has_image),
{
    // The element listing.
    let mut lines: Vec<String> = Vec::new();
    let n = els.len();
    let mut i: usize = 0;
    let ghost target = els@.map_values(|e: ObservedElement| element_line(e));
    while i < n
        invariant
            n == els@.len(),
            i <= n,
            target == els@.map_values(|e: ObservedElement| element_line(e)),
            lines@.map_values(|s: String| s@) == target.take(i as int),
        decreases n - i,
    {
        let e = &els[i];
        let mut l = String::from_str("  ");
        push_u64(&mut l, e.id as u64);
        l.append(": ");
        let lb = e.label();
        l.append(lb.as_str());
        let ghost before = lines@;
        lines.push(l);
        assert(lines@.map_values(|s: String| s@) =~= before.map_values(|s: String| s@).push(l@));
        assert(lines@.map_values(|s: String| s@) =~= target.take(i + 1));
        i += 1;
    }
    assert(target.take(n as int) =~= target);
    let mut listing_text = String::new();
    if n == 0 {
        listing_text.append("(no readable elements — use open_app / key / type)");
    } else {
        push_joined(&mut listing_text, &lines, "\n");
    }
    // The recent actions.
    let h = history.len();
    let first = if h <= RECENT_ACTIONS {
        0
    } else {
        h - RECENT_ACTIONS
    };
    let ghost hv = history_view(history@);
    let ghost recent_target = last_n(hv, 6).map_values(|x: Seq<char>| "  - "@ + x);
    let mut recent: Vec<String> = Vec::new();
    let mut j: usize = first;
    assert(last_n(hv, 6) =~= hv.skip(first as int));
    while j < h
        invariant
            h == history@.len(),
            first <= j <= h,
            hv == history_view(history@),
            recent_target == hv.skip(first as int).map_values(|x: Seq<char>| "  - "@ + x),
            recent@.map_values(|s: String| s@) == recent_target.take(j - first),
        decreases h - j,
    {
        let mut l = String::from_str("  - ");
        l.append(history[j].as_str());
        let ghost before = recent@;
        recent.push(l);
        assert(recent@.map_values(|s: String| s@) =~= before.map_values(|s: String| s@).push(l@));
        assert(recent@.map_values(|s: String| s@) =~= recent_target.take(j + 1 - first));
        j += 1;
    }
    assert(recent_target.take(h - first) =~= recent_target);
    let mut recent_text = String::new();
    if h == 0 {
        recent_text.append("(none yet)");
    } else {
        push_joined(&mut recent_text, &recent, "\n");
    }
    // The whole text.
    let mut s = String::from_str("TASK: ");
    s.append(task);
    s.append("\n\nFRONTMOST APP: ");
    s.append(proc);
    s.append("\n");
    if has_image {
        s.append("A screenshot of the active window is attached below.");
    } else {
        s.append("(no screenshot this turn)");
    }
    s.append("\nUI ELEMENTS (choose by id):\n");
    s.append(listing_text.as_str());
    s.append("\n\nRECENT ACTIONS:\n");
    s.append(recent_text.as_str());
    s.append("\n\nReply with ONE JSON action for the next step.");
    s
}

/// A one-line rendering of a decided action for the console: the action with its app, its
/// id ("#-1" when missing), its full text (quoted) or its keys.
pub open spec fn shown(a: Action) -> Seq<char> {
    let name = a.action@;
    if name == "open_app"@ {
        "open_app "@ + or_empty(a.app)
    } else if name == "click"@ {
        "click #"@ + signed_decimal(
            match a.id {
                Some(i) => i as int,
                None => -1,
            },
        )
    } else if name == "type"@ {
        "type"@ + match a.id {
            Some(i) => " #"@ + signed_decimal(i as int),
            None => Seq::empty(),
        } + " "@ + debug_quoted(or_empty(a.text))
    } else if name == "key"@ {
        "key "@ + match first_present(a.keys, a.text) {
            Some(k) => k,
            None => Seq::empty(),
        }
    } else {
        name
    }
}

fn opt_or_empty(a: &Option<String>) -> (r: String)
    ensures
        r@ == or_empty(*a),
{
    match a {
        Some(x) => x.clone(),
        None => String::new(),
    }
}

/// Renders a decided action for the console.
pub fn describe(a: &Action) -> (r: String)
    ensures
        r@ == shown(*a),
{
    let name = chars_of(a.action.as_str());
    if chars_is(name.as_slice(), "open_app") {
        let app = opt_or_empty(&a.app);
        String::from_str("open_app ").concat(app.as_str())
    } else if chars_is(name.as_slice(), "click") {
        let mut s = String::from_str("click #");
        let i = match a.id {
            Some(i) => i,
            None => -1,
        };
        push_i64(&mut s, i);
        s
    } else if chars_is(name.as_slice(), "type") {
        let mut s = String::from_str("type");
        if let Some(i) = a.id {
            s.append(" #");
            push_i64(&mut s, i);
        }
        s.append(" ");
        let t = opt_or_empty(&a.text);
        let q = debug_str(t.as_str());
        s.append(q.as_str());
        s
    } else if chars_is(name.as_slice(), "key") {
        let k = match &a.keys {
            Some(k) => k.clone(),
            None => opt_or_empty(&a.text),
        };
        String::from_str("key ").concat(k.as_str())
    } else {
        string_of(name.as_slice())
    }
}

/// Whether the answer to "Proceed? [y/N]" is a yes: "y" or "yes", whatever the case and
/// the surrounding whitespace.
pub open spec fn is_yes(line: Seq<char>) -> bool {
    lowercase(trim(line)) == "y"@ || lowercase(trim(line)) == "yes"@
}

/// Reads the answer to the one-time confirmation.
pub fn proceed(line: &str) -> (r: bool)
    ensures
        r == is_yes(line@),
{
    let t = trim_chars(chars_of(line).as_slice());
    let ts = string_of(t.as_slice());
    let low = to_lowercase(ts.as_str());
    let lc = chars_of(low.as_str());
    chars_is(lc.as_slice(), "y") || chars_is(lc.as_slice(), "yes")
}

/// The loop's decision after the model picked an action: `done` ends the task with the
/// model's text (empty when it gave none); anything else is executed.
pub fn finished_by(action: &Action) -> (r: Option<String>)
    ensures
        action.action@ == "done"@ ==> (r matches Some(m) && m@ == or_empty(action.text)),
        action.action@ != "done"@ ==> r is None,
{
    if action.action == String::from_str("done") {
        Some(opt_or_empty(&action.text))
    } else {
        None
    }
}

/// How an executed step moves the loop on.
#[derive(Debug, Clone)]
pub enum Turn {
    /// Add this entry to the action history and take the next step.
    Record(String),
    /// The task is finished; this is the result.
    Finish(String),
}

/// The loop's decision after executing an action named `name`: a continuing outcome is
/// recorded as "<name>: <summary>", a failure as "<name> FAILED: <error>", and a done
/// outcome finishes the task.
pub fn after_step(name: &str, result: &Result<Outcome, String>) -> (r: Turn)
    ensures
        match *result {
            Ok(o) => if outcome_view(o).0 {
                r matches Turn::Finish(m) && m@ == outcome_view(o).1
            } else {
                r matches Turn::Record(h) && h@ == name@ + ": "@ + outcome_view(o).1
            },
            Err(e) => r matches Turn::Record(h) && h@ == name@ + " FAILED: "@ + e@,
        },
{
    match result {
        Ok(Outcome::Continue(s)) => {
            let mut h = String::from_str(name);
            h.append(": ");
            h.append(s.as_str());
            Turn::Record(h)
        },
        Ok(Outcome::Done(s)) => Turn::Finish(s.clone()),
        Err(e) => {
            let mut h = String::from_str(name);
            h.append(" FAILED: ");
            h.append(e.as_str());
            Turn::Record(h)
        },
    }
}

/// Whether `c` separates path components on some target ('/' everywhere, '\\' on
/// Windows).
pub open spec fn is_sep(c: char) -> bool {
    c == '/' || c == '\\'
}

/// Whether `rest` is a relative path without root or prefix on every target: it does not
/// start with a separator and has no ':' in second place (a Windows drive).
pub open spec fn plain_relative(rest: Seq<char>) -> bool {
    &&& !(rest.len() > 0 && is_sep(rest[0]))
    &&& !(rest.len() >= 2 && rest[1] == ':')
}

/// Whether `base` is extended alike on every target: it does not start with two
/// separators (a Windows UNC or verbatim prefix) and is not a bare drive such as "C:".
pub open spec fn plain_base(base: Seq<char>) -> bool {
    &&& !(base.len() >= 2 && is_sep(base[0]) && is_sep(base[1]))
    &&& !(base.len() == 2 && base[1] == ':')
}

/// `r` is `rest` joined onto `base` as every target joins them: an empty base gives
/// `rest`; a base ending in '/' gives base + rest; one ending in '\\' gives base + rest
/// (Windows) or base + "/" + rest (elsewhere); any other base gives base, one separator
/// ('/' or, on Windows, '\\'), then rest.
pub open spec fn joined(base: Seq<char>, rest: Seq<char>, r: Seq<char>) -> bool {
    if base.len() == 0 {
        r == rest
    } else if base.last() == '/' {
        r == base + rest
    } else if base.last() == '\\' {
        r == base + rest || r == base + "/"@ + rest
    } else {
        &&& r.len() == base.len() + 1 + rest.len()
        &&& r.take(base.len() as int) == base
        &&& is_sep(r[base.len() as int])
        &&& r.skip(base.len() + 1int) == rest
    }
}

/// Calls `std::path::Path::join` on text paths, read back with `to_string_lossy` (both
/// paths are UTF-8, so nothing is lost). Claims, as `PathBuf::push` behaves on every
/// target, that a plain relative `rest` is joined onto a plain `base` as `joined` says.
/// Left unsaid, because targets differ there: a `rest` that starts with '/' or '\\' or
/// names a drive (it replaces all or part of `base`), and a `base` that starts with two
/// separators or is a bare drive.
#[verifier::external_body]
fn path_join(base: &str, rest: &str) -> (r: String)
    ensures
        plain_relative(rest@) && plain_base(base@) ==> joined(base@, rest@, r@),
{
    std::path::Path::new(base).join(rest).to_string_lossy().into_owned()
}

/// Expands a leading "~/" to the home directory, when it is known, by joining the rest of
/// the path onto it; any other path is kept.
pub fn expand_tilde(p: &str, home: Option<&str>) -> (r: String)
    ensures
        !starts_with(p@, "~/"@) || home is None ==> r@ == p@,
        home matches Some(h) ==> (starts_with(p@, "~/"@) && plain_relative(p@.skip(2))
            && plain_base(h@) ==> joined(h@, p@.skip(2), r@)),
{
    proof {
        reveal_strlit("~/");
    }
    let pc = chars_of(p);
    if pc.len() >= 2 && pc[0] == '~' && pc[1] == '/' {
        assert(pc@.take(2) =~= "~/"@);
        if let Some(h) = home {
            let rest = slice_chars(pc.as_slice(), 2, pc.len());
            assert(pc@.subrange(2, pc@.len() as int) =~= p@.skip(2));
            let rs = string_of(rest.as_slice());
            return path_join(h, rs.as_str());
        }
    } else {
        proof {
            if starts_with(p@, "~/"@) {
                assert(p@.take(2)[0] == '~');
                assert(p@.take(2)[1] == '/');
            }
        }
    }
    string_of(pc.as_slice())
}

/// The hard cap on the loop: how many steps were taken and how many are allowed.
pub struct StepBudget {
    pub taken: usize,
    pub max: usize,
}

impl StepBudget {
    /// A budget of `max` steps, none taken.
    pub fn new(max: usize) -> (b: StepBudget)
        ensures
            b.taken == 0,
            b.max == max,
    {
        StepBudget { taken: 0, max }
    }

    /// Starts the next step: its number (counted from 1) while fewer than `max` steps were
    /// taken, `None` once the cap is reached, which leaves the budget unchanged. A budget
    /// that is within its cap stays within it.
    pub fn next_step(&mut self) -> (r: Option<usize>)
        ensures
            old(self).taken < old(self).max ==> r == Some((old(self).taken + 1) as usize)
                && final(self).taken == old(self).taken + 1 && final(self).max == old(self).max,
            old(self).taken >= old(self).max ==> r is None && *final(self) == *old(self),
            old(self).taken <= old(self).max ==> final(self).taken <= final(self).max,
    {
        if self.taken < self.max {
            self.taken = self.taken + 1;
            Some(self.taken)
        } else {
            None
        }
    }
}

/// The ground-truth line printed after `done` for the `--verify-file` path.
pub fn ground_truth_line(path: &str, present: bool) -> (r: String)
    ensures
        r@ == "🔎 ground-truth check: "@ + path@ + (if present {
            " exists ✓"@
        } else {
            " NOT found ✗"@
        }),
{
    let mut s = String::from_str("🔎 ground-truth check: ");
    s.append(path);
    if present {
        s.append(" exists ✓");
    } else {
        s.append(" NOT found ✗");
    }
    s
}

} // verus!
