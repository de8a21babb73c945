//! Reasoning: the action the model emits each turn, how its reply is framed into a JSON
//! object, the response-format ladder, and the endpoints of the model server.
use vstd::prelude::*;

use crate::text::{
    contains, ends_with, index_from, starts_with, trim_end, trim_start, white_space, lemma_index_from, lemma_trim_end_matches_prefix,
    lemma_trim_piece, lemma_trim_start_matches_suffix, occurs_at, chars_of, find_char, first_index_of, slice_chars, string_of, trim, trim_chars, trim_end_matches,
    trim_end_matches_exec, trim_start_matches, trim_start_matches_exec, trim_str,
};

verus! {

/// One action the model emits per turn. All fields beyond `action` are optional and only
/// meaningful for some actions: a flat, forgiving record.
#[derive(Debug, Clone)]
pub struct Action {
    pub thought: String,
    pub action: String,
    pub id: Option<i64>,
    pub text: Option<String>,
    pub keys: Option<String>,
    pub app: Option<String>,
}

impl Default for Action {
    fn default() -> (a: Self)
        ensures
            a.thought@.len() == 0,
            a.action@.len() == 0,
            a.id is None,
            a.text is None,
            a.keys is None,
            a.app is None,
    {
        Action {
            thought: String::new(),
            action: String::new(),
            id: None,
            text: None,
            keys: None,
            app: None,
        }
    }
}

/// The view of an optional string field.
pub open spec fn opt_view(o: Option<String>) -> Option<Seq<char>> {
    match o {
        Some(s) => Some(s@),
        None => None,
    }
}

// ---------------------------------------------------------------------------------
// Framing the JSON object out of the model's reply.
// ---------------------------------------------------------------------------------

/// Lexer state after a prefix of the reply: (brace depth, inside a string literal,
/// the previous character was a backslash inside a string literal).
pub open spec fn lex_step(st: (int, bool, bool), c: char) -> (int, bool, bool) {
    let (depth, in_string, escaped) = st;
    if in_string {
        if escaped {
            (depth, true, false)
        } else if c == '\\' {
            (depth, true, true)
        } else if c == '"' {
            (depth, false, false)
        } else {
            st
        }
    } else if c == '"' {
        (depth, true, false)
    } else if c == '{' {
        (depth + 1, false, false)
    } else if c == '}' {
        (depth - 1, false, false)
    } else {
        st
    }
}

/// The lexer state after reading all of `t` from the initial state (depth 0, outside any
/// string). Braces inside string literals do not change the depth.
pub open spec fn lex(t: Seq<char>) -> (int, bool, bool)
    decreases t.len(),
{
    if t.len() == 0 {
        (0, false, false)
    } else {
        lex_step(lex(t.drop_last()), t.last())
    }
}

/// The part of the reply searched for an object: trimmed, with leading "```json" and "```"
/// fences and trailing "```" fences removed, trimmed again.
#[verifier::opaque]
pub open spec fn json_window(s: Seq<char>) -> Seq<char> {
    trim(
        trim_end_matches(
            trim_start_matches(trim_start_matches(trim(s), "```json"@), "```"@),
            "```"@,
        ),
    )
}

/// The first `k` characters of `u` form a balanced object: at least one character was
/// read and the brace depth is back to zero.
pub open spec fn closes_at(u: Seq<char>, k: int) -> bool {
    1 <= k <= u.len() && lex(u.take(k)).0 == 0
}

/// The first balanced `{...}` object of the reply: it starts at the first '{' of the
/// window and ends at the first point where the brace depth, counted outside string
/// literals, returns to zero. `None` when there is no '{' or the object never closes.
pub open spec fn extracted_json(s: Seq<char>) -> Option<Seq<char>> {
    first_object(json_window(s))
}

/// The first balanced `{...}` object of `w`: it starts at the first '{' and ends at the
/// first point where the brace depth, counted outside string literals, returns to zero.
/// `None` when there is no '{' or the object never closes.
pub open spec fn first_object(w: Seq<char>) -> Option<Seq<char>> {
    match first_index_of(w, '{') {
        None => None,
        Some(st) => {
            let u = w.skip(st);
            if exists|k: int| closes_at(u, k) {
                Some(
                    u.take(
                        choose|k: int| closes_at(u, k) && forall|j: int| 1 <= j < k ==> !closes_at(u, j),
                    ),
                )
            } else {
                None
            }
        },
    }
}

proof fn lemma_lex_extend(u: Seq<char>, i: int)
    requires
        0 <= i < u.len(),
    ensures
        lex(u.take(i + 1)) == lex_step(lex(u.take(i)), u[i]),
{
    assert(u.take(i + 1).drop_last() =~= u.take(i));
    assert(u.take(i + 1).last() == u[i]);
}

fn lex_next(depth: usize, in_string: bool, escaped: bool, c: char) -> (r: (usize, bool, bool))
    requires
        depth < usize::MAX,
        c == '}' && !in_string ==> depth >= 1,
    ensures
        (r.0 as int, r.1, r.2) == lex_step((depth as int, in_string, escaped), c),
{
    if in_string {
        if escaped {
            (depth, true, false)
        } else if c == '\\' {
            (depth, true, true)
        } else if c == '"' {
            (depth, false, false)
        } else {
            (depth, in_string, escaped)
        }
    } else if c == '"' {
        (depth, true, false)
    } else if c == '{' {
        (depth + 1, false, false)
    } else if c == '}' {
        (depth - 1, false, false)
    } else {
        (depth, in_string, escaped)
    }
}

proof fn lemma_first_close(u: Seq<char>, k: int)
    requires
        closes_at(u, k),
        forall|j: int| 1 <= j < k ==> !closes_at(u, j),
    ensures
        (choose|m: int| closes_at(u, m) && forall|j: int| 1 <= j < m ==> !closes_at(u, j)) == k,
{
    let ch = choose|m: int| closes_at(u, m) && forall|j: int| 1 <= j < m ==> !closes_at(u, j);
    assert(closes_at(u, ch) && forall|j: int| 1 <= j < ch ==> !closes_at(u, j));
    if ch < k {
        assert(!closes_at(u, ch));
    } else if ch > k {
        assert(!closes_at(u, k));
    }
}

/// Pulls the first balanced `{...}` object out of the model's reply, tolerating markdown
/// fences and surrounding prose; braces inside JSON string values (escapes included) do
/// not count.
pub fn extract_json(s: &str) -> (r: Option<String>)
    ensures
        match extracted_json(s@) {
            Some(b) => r matches Some(x) && x@ == b,
            None => r is None,
        },
{
    proof {
        reveal_strlit("```json");
        reveal_strlit("```");
    }
    let v = chars_of(s);
    let t1 = trim_chars(v.as_slice());
    let fence_json = chars_of("```json");
    let fence = chars_of("```");
    let t2 = trim_start_matches_exec(t1.as_slice(), fence_json.as_slice());
    let t3 = trim_start_matches_exec(t2.as_slice(), fence.as_slice());
    let t4 = trim_end_matches_exec(t3.as_slice(), fence.as_slice());
    let w = trim_chars(t4.as_slice());
    assert(w@ == json_window(s@)) by {
        reveal(json_window);
    }
    scan_object(w.as_slice())
}

#[verifier::spinoff_prover]
fn scan_object(w: &[char]) -> (r: Option<String>)
    ensures
        match first_object(w@) {
            Some(b) => r matches Some(x) && x@ == b,
            None => r is None,
        },
{
    let start = match find_char(w, '{') {
        Some(i) => i,
        None => {
            return None;
        },
    };
    let ghost u = w@.skip(start as int);
    let n = w.len();
    let mut i: usize = start;
    let mut depth: usize = 0;
    let mut in_string = false;
    let mut escaped = false;
    let mut closed = false;
    assert(u.take(0) =~= Seq::<char>::empty());
    while !closed && i < n
        invariant
            n == w@.len(),
            start <= i <= n,
            u == w@.skip(start as int),
            u[0] == '{',
            !closed ==> lex(u.take(i - start)) == (depth as int, in_string, escaped),
            !closed && i > start ==> depth >= 1,
            !closed ==> depth <= i - start,
            !closed ==> forall|j: int| 1 <= j <= i - start ==> !closes_at(u, j),
            closed ==> i < n && closes_at(u, i - start + 1) && forall|j: int|
                1 <= j <= i - start ==> !closes_at(u, j),
        decreases n - i + (if closed { 0int } else { 1int }),
    {
        let c = w[i];
        let ghost k = i - start;
        proof {
            lemma_lex_extend(u, k as int);
            assert(u[k as int] == c);
        }
        let (d2, s2, e2) = lex_next(depth, in_string, escaped, c);
        depth = d2;
        in_string = s2;
        escaped = e2;
        assert(lex(u.take(k + 1)) == (depth as int, in_string, escaped));
        if depth == 0 {
            closed = true;
        } else {
            i += 1;
        }
    }
    if closed {
        proof {
            let k = i - start;
            lemma_first_close(u, k + 1);
            assert(u.take(k + 1) =~= w@.subrange(start as int, i + 1));
            assert(exists|m: int| closes_at(u, m));
            assert(first_index_of(w@, '{') == Some(start as int));
            assert(first_object(w@) == Some(u.take(k + 1)));
        }
        let piece = slice_chars(w, start, i + 1);
        Some(string_of(piece.as_slice()))
    } else {
        proof {
            assert forall|m: int| !closes_at(u, m) by {}
            assert(first_object(w@) is None);
        }
        None
    }
}

/// The first balanced `{...}` object of a text, braces inside JSON string values
/// (escapes included) not counting.
pub fn first_balanced_object(w: &str) -> (r: Option<String>)
    ensures
        match first_object(w@) {
            Some(b) => r matches Some(x) && x@ == b,
            None => r is None,
        },
{
    let v = chars_of(w);
    scan_object(v.as_slice())
}

proof fn lemma_step_depth(st: (int, bool, bool), c: char)
    ensures
        lex_step(st, c).0 >= st.0 - 1,
        !st.1 && c == '{' ==> lex_step(st, c).0 == st.0 + 1,
        lex_step(st, c).0 == st.0 - 1 ==> c == '}',
{
}

proof fn lemma_depth_positive(u: Seq<char>, k: int)
    requires
        u.len() > 0,
        u[0] == '{',
        1 <= k <= u.len(),
        forall|j: int| 1 <= j <= k ==> !closes_at(u, j),
    ensures
        lex(u.take(k)).0 >= 1,
    decreases k,
{
    lemma_lex_extend(u, k - 1);
    lemma_step_depth(lex(u.take(k - 1)), u[k - 1]);
    assert(!closes_at(u, k));
    if k == 1 {
        assert(u.take(0) =~= Seq::<char>::empty());
        assert(lex(u.take(0)) == (0int, false, false));
    } else {
        lemma_depth_positive(u, k - 1);
    }
}

proof fn lemma_window_piece(s: Seq<char>) -> (a: int)
    ensures
        0 <= a,
        a + json_window(s).len() <= s.len(),
        json_window(s) == s.subrange(a, a + json_window(s).len()),
{
    let (a1, b1) = lemma_trim_piece(s);
    let t1 = s.subrange(a1, b1);
    let k2 = lemma_trim_start_matches_suffix(t1, "```json"@);
    let t2 = t1.skip(k2);
    let k3 = lemma_trim_start_matches_suffix(t2, "```"@);
    let t3 = t2.skip(k3);
    let k4 = lemma_trim_end_matches_prefix(t3, "```"@);
    let t4 = t3.take(k4);
    let (a5, b5) = lemma_trim_piece(t4);
    let w = json_window(s);
    assert(w == t4.subrange(a5, b5)) by {
        reveal(json_window);
    }
    let off = a1 + k2 + k3 + a5;
    assert(w =~= s.subrange(off, off + w.len()));
    off
}

proof fn lemma_least_close_exists(u: Seq<char>)
    requires
        exists|k: int| closes_at(u, k),
    ensures
        exists|k: int| closes_at(u, k) && forall|j: int| 1 <= j < k ==> !closes_at(u, j),
{
    let k0 = choose|k: int| closes_at(u, k);
    lemma_least_close_below(u, k0);
}

proof fn lemma_least_close_below(u: Seq<char>, k0: int)
    requires
        closes_at(u, k0),
    ensures
        exists|k: int| closes_at(u, k) && forall|j: int| 1 <= j < k ==> !closes_at(u, j),
    decreases k0,
{
    if exists|j: int| 1 <= j < k0 && closes_at(u, j) {
        let j = choose|j: int| 1 <= j < k0 && closes_at(u, j);
        lemma_least_close_below(u, j);
    } else {
        assert(closes_at(u, k0) && forall|j: int| 1 <= j < k0 ==> !closes_at(u, j));
    }
}

proof fn lemma_first_object_balanced(u: Seq<char>, k: int)
    requires
        u.len() > 0,
        u[0] == '{',
        closes_at(u, k),
        forall|j: int| 1 <= j < k ==> !closes_at(u, j),
    ensures
        k >= 2,
        u.take(k)[0] == '{',
        u.take(k).last() == '}',
        lex(u.take(k)).0 == 0,
        forall|j: int| 1 <= j < k ==> lex(#[trigger] u.take(k).take(j)).0 >= 1,
{
    let b = u.take(k);
    assert forall|j: int| 1 <= j < k implies lex(#[trigger] b.take(j)).0 >= 1 by {
        assert(b.take(j) =~= u.take(j));
        lemma_depth_positive(u, j);
    }
    assert(lex(u.take(1)).0 == 1) by {
        lemma_lex_extend(u, 0);
        assert(u.take(0) =~= Seq::<char>::empty());
        lemma_step_depth((0int, false, false), u[0]);
    }
    assert(k >= 2);
    lemma_lex_extend(u, k - 1);
    lemma_depth_positive(u, k - 1);
    lemma_step_depth(lex(u.take(k - 1)), u[k - 1]);
}

/// What `extract_json` returns is a balanced object taken verbatim from the reply: it
/// occurs in the reply, starts with '{', ends with '}', its brace depth (outside string
/// literals) is zero at its end and positive at every shorter non-empty prefix.
pub proof fn lemma_extracted_is_balanced_piece(s: Seq<char>)
    requires
        extracted_json(s) is Some,
    ensures
        ({
            let b = extracted_json(s)->0;
            &&& contains(s, b)
            &&& b.len() >= 2
            &&& b[0] == '{'
            &&& b.last() == '}'
            &&& lex(b).0 == 0
            &&& forall|k: int| 1 <= k < b.len() ==> lex(#[trigger] b.take(k)).0 >= 1
        }),
{
    let w = json_window(s);
    let fi = first_index_of(w, '{');
    assert(fi is Some);
    let st = fi->0;
    lemma_index_from(w, '{', 0);
    let u = w.skip(st);
    assert(exists|k: int| closes_at(u, k));
    let k = choose|k: int| closes_at(u, k) && forall|j: int| 1 <= j < k ==> !closes_at(u, j);
    lemma_least_close_exists(u);
    let b = u.take(k);
    assert(extracted_json(s) == Some(b));
    lemma_first_object_balanced(u, k);
    let a = lemma_window_piece(s);
    let off = a + st;
    assert(b =~= s.subrange(off, off + k));
    assert(occurs_at(s, b, off));
}

proof fn lemma_braced_window(b: Seq<char>)
    requires
        b.len() >= 2,
        b[0] == '{',
        b.last() == '}',
    ensures
        json_window(b) == b,
{
    reveal(json_window);
    reveal_strlit("```json");
    reveal_strlit("```");
    assert(!white_space(b[0]));
    assert(!white_space(b.last()));
    assert(trim_start(b) == b);
    assert(trim_end(b) == b);
    assert(trim(b) == b);
    let fj = "```json"@;
    let f = "```"@;
    if starts_with(b, fj) {
        assert(b.take(fj.len() as int)[0] == b[0]);
    }
    assert(trim_start_matches(b, fj) == b);
    if starts_with(b, f) {
        assert(b.take(f.len() as int)[0] == b[0]);
    }
    assert(trim_start_matches(b, f) == b);
    if ends_with(b, f) {
        let t = b.skip(b.len() - f.len());
        assert(t[t.len() - 1] == b.last());
    }
    assert(trim_end_matches(b, f) == b);
}

proof fn lemma_balanced_is_own_object(b: Seq<char>)
    requires
        b.len() >= 2,
        b[0] == '{',
        lex(b).0 == 0,
        forall|k: int| 1 <= k < b.len() ==> lex(#[trigger] b.take(k)).0 >= 1,
    ensures
        first_object(b) == Some(b),
{
    assert(index_from(b, '{', 0) == 0);
    assert(first_index_of(b, '{') == Some(0int));
    let u = b.skip(0);
    assert(u =~= b);
    let n = b.len() as int;
    assert(b.take(n) =~= b);
    assert(closes_at(u, n));
    assert forall|j: int| 1 <= j < n implies !closes_at(u, j) by {
        assert(lex(b.take(j)).0 >= 1);
    }
    lemma_first_close(u, n);
}

/// Extracting the JSON object again from what was extracted gives it back unchanged: the
/// extracted object is its own window and its own first balanced object.
pub proof fn lemma_extract_json_idempotent(s: Seq<char>)
    requires
        extracted_json(s) is Some,
    ensures
        extracted_json(extracted_json(s)->0) == extracted_json(s),
{
    let b = extracted_json(s)->0;
    lemma_extracted_is_balanced_piece(s);
    lemma_braced_window(b);
    lemma_balanced_is_own_object(b);
}

/// The body of a JSON string literal (between its quotes): characters other than '"' and
/// '\\', and escapes, each a '\\' followed by exactly one character (so an escaped
/// backslash is a complete escape).
pub open spec fn json_string_body(t: Seq<char>) -> bool
    decreases t.len(),
{
    if t.len() == 0 {
        true
    } else if t[0] == '\\' {
        t.len() >= 2 && json_string_body(t.skip(2))
    } else {
        t[0] != '"' && json_string_body(t.drop_first())
    }
}

/// A JSON string literal with body `t`.
pub open spec fn json_quoted(t: Seq<char>) -> Seq<char> {
    seq!['"'] + t + seq!['"']
}

/// One `"key":"value"` member of a JSON object.
pub open spec fn json_member(k: Seq<char>, v: Seq<char>) -> Seq<char> {
    json_quoted(k) + seq![':'] + json_quoted(v)
}

/// The members, separated by ','.
pub open spec fn json_members(ms: Seq<(Seq<char>, Seq<char>)>) -> Seq<char>
    decreases ms.len(),
{
    if ms.len() == 0 {
        seq![]
    } else if ms.len() == 1 {
        json_member(ms[0].0, ms[0].1)
    } else {
        json_members(ms.drop_last()) + seq![','] + json_member(ms.last().0, ms.last().1)
    }
}

/// A JSON object whose members all have string values, such as
/// `{"action":"key","keys":"cmd+s"}`.
pub open spec fn json_string_object(ms: Seq<(Seq<char>, Seq<char>)>) -> Seq<char> {
    seq!['{'] + json_members(ms) + seq!['}']
}

/// The brace depth stays `d` after `p` followed by any prefix of `q`.
pub open spec fn depth_level(p: Seq<char>, q: Seq<char>, d: int) -> bool {
    forall|j: int| 0 <= j <= q.len() ==> lex(p + #[trigger] q.take(j)).0 == d
}

proof fn lemma_lex_push(p: Seq<char>, c: char)
    ensures
        lex(p + seq![c]) == lex_step(lex(p), c),
{
    assert((p + seq![c]).drop_last() =~= p);
    assert((p + seq![c]).last() == c);
}

proof fn lemma_outside_not_escaped(t: Seq<char>)
    ensures
        !lex(t).1 ==> !lex(t).2,
    decreases t.len(),
{
    if t.len() > 0 {
        lemma_outside_not_escaped(t.drop_last());
    }
}

proof fn lemma_level_compose(p: Seq<char>, a: Seq<char>, b: Seq<char>, d: int)
    requires
        depth_level(p, a, d),
        depth_level(p + a, b, d),
    ensures
        depth_level(p, a + b, d),
{
    assert forall|j: int| 0 <= j <= (a + b).len() implies lex(p + #[trigger] (a + b).take(j)).0 == d by {
        if j <= a.len() {
            assert((a + b).take(j) =~= a.take(j));
        } else {
            assert(p + (a + b).take(j) =~= (p + a) + b.take(j - a.len()));
        }
    }
}

proof fn lemma_level_single(p: Seq<char>, c: char)
    requires
        lex_step(lex(p), c).0 == lex(p).0,
    ensures
        depth_level(p, seq![c], lex(p).0),
        lex(p + seq![c]) == lex_step(lex(p), c),
{
    lemma_lex_push(p, c);
    assert forall|j: int| 0 <= j <= seq![c].len() implies lex(p + #[trigger] seq![c].take(j)).0 == lex(p).0 by {
        if j == 0 {
            assert(p + seq![c].take(0) =~= p);
        } else {
            assert(seq![c].take(1) =~= seq![c]);
        }
    }
}

proof fn lemma_level_empty(p: Seq<char>)
    ensures
        depth_level(p, Seq::<char>::empty(), lex(p).0),
{
    assert forall|j: int| 0 <= j <= 0 implies lex(p + #[trigger] Seq::<char>::empty().take(j)).0 == lex(p).0 by {
        assert(p + Seq::<char>::empty().take(j) =~= p);
    }
}

proof fn lemma_string_body(p: Seq<char>, t: Seq<char>)
    requires
        lex(p).1,
        !lex(p).2,
        json_string_body(t),
    ensures
        lex(p + t) == lex(p),
        depth_level(p, t, lex(p).0),
    decreases t.len(),
{
    let d = lex(p).0;
    if t.len() == 0 {
        assert(p + t =~= p);
        lemma_level_empty(p);
        assert(t =~= Seq::<char>::empty());
    } else if t[0] == '\\' {
        let a = t.take(2);
        let rest = t.skip(2);
        let p1 = p + seq!['\\'];
        lemma_level_single(p, '\\');
        lemma_level_single(p1, t[1]);
        lemma_level_compose(p, seq!['\\'], seq![t[1]], d);
        assert(seq!['\\'] + seq![t[1]] =~= a);
        assert(p1 + seq![t[1]] =~= p + a);
        lemma_string_body(p + a, rest);
        lemma_level_compose(p, a, rest, d);
        assert(a + rest =~= t);
        assert((p + a) + rest =~= p + t);
    } else {
        let c = t[0];
        let rest = t.drop_first();
        lemma_level_single(p, c);
        lemma_string_body(p + seq![c], rest);
        lemma_level_compose(p, seq![c], rest, d);
        assert(seq![c] + rest =~= t);
        assert((p + seq![c]) + rest =~= p + t);
    }
}

/// Reading a JSON string literal, escapes included, leaves the brace lexer where it was:
/// outside any string, at the same depth, which also holds all along the literal. Every
/// escape takes exactly one character, so an escaped backslash does not escape the closing
/// quote, and braces inside the literal do not count.
pub proof fn lemma_json_string_is_transparent(p: Seq<char>, t: Seq<char>)
    requires
        !lex(p).1,
        json_string_body(t),
    ensures
        lex(p + json_quoted(t)) == lex(p),
        depth_level(p, json_quoted(t), lex(p).0),
{
    let d = lex(p).0;
    lemma_outside_not_escaped(p);
    let q = seq!['"'];
    lemma_level_single(p, '"');
    lemma_string_body(p + q, t);
    lemma_level_compose(p, q, t, d);
    assert((p + q) + t =~= p + (q + t));
    lemma_level_single(p + (q + t), '"');
    lemma_level_compose(p, q + t, q, d);
    assert(q + t + q =~= json_quoted(t));
    assert(p + (q + t) + q =~= p + json_quoted(t));
}

proof fn lemma_member(p: Seq<char>, k: Seq<char>, v: Seq<char>)
    requires
        !lex(p).1,
        json_string_body(k),
        json_string_body(v),
    ensures
        lex(p + json_member(k, v)) == lex(p),
        depth_level(p, json_member(k, v), lex(p).0),
{
    let d = lex(p).0;
    let qk = json_quoted(k);
    let qv = json_quoted(v);
    lemma_json_string_is_transparent(p, k);
    lemma_outside_not_escaped(p);
    lemma_level_single(p + qk, ':');
    lemma_level_compose(p, qk, seq![':'], d);
    let a = qk + seq![':'];
    assert((p + qk) + seq![':'] =~= p + a);
    lemma_json_string_is_transparent(p + a, v);
    lemma_level_compose(p, a, qv, d);
    assert(a + qv =~= json_member(k, v));
    assert((p + a) + qv =~= p + json_member(k, v));
}

proof fn lemma_members(p: Seq<char>, ms: Seq<(Seq<char>, Seq<char>)>)
    requires
        !lex(p).1,
        forall|i: int| 0 <= i < ms.len() ==> json_string_body(#[trigger] ms[i].0) && json_string_body(ms[i].1),
    ensures
        lex(p + json_members(ms)) == lex(p),
        depth_level(p, json_members(ms), lex(p).0),
    decreases ms.len(),
{
    let d = lex(p).0;
    if ms.len() == 0 {
        lemma_level_empty(p);
        assert(json_members(ms) =~= Seq::<char>::empty());
        assert(p + json_members(ms) =~= p);
    } else if ms.len() == 1 {
        assert(json_string_body(ms[0].0));
        lemma_member(p, ms[0].0, ms[0].1);
    } else {
        let dl = ms.drop_last();
        assert forall|i: int| 0 <= i < dl.len() implies json_string_body(#[trigger] dl[i].0) && json_string_body(dl[i].1) by {
            assert(dl[i] == ms[i]);
        }
        lemma_members(p, dl);
        let m0 = json_members(dl);
        lemma_outside_not_escaped(p);
        lemma_level_single(p + m0, ',');
        lemma_level_compose(p, m0, seq![','], d);
        let a = m0 + seq![','];
        assert((p + m0) + seq![','] =~= p + a);
        assert(json_string_body(ms[ms.len() - 1].0));
        let last = ms.last();
        lemma_member(p + a, last.0, last.1);
        lemma_level_compose(p, a, json_member(last.0, last.1), d);
        assert(a + json_member(last.0, last.1) =~= json_members(ms));
        assert((p + a) + json_member(last.0, last.1) =~= p + json_members(ms));
    }
}

/// A JSON object whose values are strings, escapes (escaped backslashes included) and
/// braces inside them allowed, is framed whole: extracting from it gives it back.
pub proof fn lemma_string_objects_extract_whole(ms: Seq<(Seq<char>, Seq<char>)>)
    requires
        forall|i: int| 0 <= i < ms.len() ==> json_string_body(#[trigger] ms[i].0) && json_string_body(ms[i].1),
    ensures
        extracted_json(json_string_object(ms)) == Some(json_string_object(ms)),
{
    let e = Seq::<char>::empty();
    let o = seq!['{'];
    lemma_lex_push(e, '{');
    assert(e + o =~= o);
    assert(lex(e) == (0int, false, false));
    assert(lex(o) == (1int, false, false));
    let m = json_members(ms);
    lemma_members(o, ms);
    lemma_lex_push(o + m, '}');
    let b = json_string_object(ms);
    assert(b =~= (o + m) + seq!['}']);
    assert(lex(b).0 == 0);
    assert forall|k: int| 1 <= k < b.len() implies lex(#[trigger] b.take(k)).0 >= 1 by {
        assert(b.take(k) =~= o + m.take(k - 1));
    }
    assert(b[0] == '{');
    assert(b.last() == '}');
    lemma_braced_window(b);
    lemma_balanced_is_own_object(b);
}

/// Trailing slashes of the server URL do not matter: one more gives the same endpoint.
pub proof fn lemma_endpoint_ignores_trailing_slash(url: Seq<char>, path: Seq<char>)
    ensures
        endpoint(url + "/"@, path) == endpoint(url, path),
{
    reveal_strlit("/");
    let v = url + "/"@;
    assert(v.skip(v.len() - 1) =~= "/"@);
    assert(ends_with(v, "/"@));
    assert(v.take(v.len() - 1) =~= url);
}

/// Why the model's reply is not an action.
#[derive(Debug, Clone)]
pub enum ParseError {
    /// No balanced `{...}` object in the reply; `raw` is the trimmed reply.
    NoJson { raw: String },
    /// The object did not decode as an action; `cause` is the decoder's complaint.
    Invalid { blob: String, cause: String },
    /// The object decoded but names no action.
    NoAction { blob: String },
}

/// The one-line message of a parse error.
pub open spec fn parse_error_message(e: ParseError) -> Seq<char> {
    match e {
        ParseError::NoJson { raw } => "model did not return JSON. Raw output:\n"@ + raw@,
        ParseError::Invalid { blob, cause } => "could not parse action JSON: "@ + blob@,
        ParseError::NoAction { blob } => "model returned no 'action' field: "@ + blob@,
    }
}

impl ParseError {
    /// The message that reports this error.
    pub fn message(&self) -> (m: String)
        ensures
            m@ == parse_error_message(*self),
    {
        match self {
            ParseError::NoJson { raw } => String::from_str("model did not return JSON. Raw output:\n").concat(
                raw.as_str(),
            ),
            ParseError::Invalid { blob, cause } => String::from_str(
                "could not parse action JSON: ",
            ).concat(blob.as_str()),
            ParseError::NoAction { blob } => String::from_str(
                "model returned no 'action' field: ",
            ).concat(blob.as_str()),
        }
    }
}

/// The first step of turning the model's reply into an action: frame the JSON object.
/// The object is then decoded, and the decoder's result goes to `accept_action`.
pub fn frame_action(text: &str) -> (r: Result<String, ParseError>)
    ensures
        match extracted_json(text@) {
            Some(b) => r matches Ok(x) && x@ == b,
            None => r matches Err(ParseError::NoJson { raw }) && raw@ == trim(text@),
        },
{
    match extract_json(text) {
        Some(b) => Ok(b),
        None => Err(ParseError::NoJson { raw: trim_str(text) }),
    }
}

/// The last step of turning the model's reply into an action: given the framed object
/// and what the decoder made of it, accept an action that names what to do.
pub fn accept_action(blob: String, decoded: Result<Action, String>) -> (r: Result<Action, ParseError>)
    ensures
        match decoded {
            Err(cause) => r matches Err(ParseError::Invalid { blob: b, cause: c }) && b@ == blob@
                && c@ == cause@,
            Ok(a) => if a.action@.len() == 0 {
                r matches Err(ParseError::NoAction { blob: b }) && b@ == blob@
            } else {
                r == Ok::<Action, ParseError>(a)
            },
        },
{
    match decoded {
        Err(cause) => Err(ParseError::Invalid { blob, cause }),
        Ok(a) => {
            if a.action.unicode_len() == 0 {
                Err(ParseError::NoAction { blob })
            } else {
                Ok(a)
            }
        },
    }
}

// ---------------------------------------------------------------------------------
// The response-format ladder.
// ---------------------------------------------------------------------------------

/// How strictly the server is asked to shape its reply.
#[derive(Debug, Clone, Copy, PartialEq, Eq)]
pub enum ResponseFormat {
    /// The strict action schema (turned into a grammar by the server).
    JsonSchema,
    /// Any JSON object.
    JsonObject,
    /// No constraint.
    Free,
}

/// The formats tried, in order: strict schema, then any JSON object, then unconstrained;
/// or only unconstrained when the caller lets a thinking model reason freely.
pub open spec fn ladder(constrain: bool) -> Seq<ResponseFormat> {
    if constrain {
        seq![ResponseFormat::JsonSchema, ResponseFormat::JsonObject, ResponseFormat::Free]
    } else {
        seq![ResponseFormat::Free]
    }
}

/// The formats to try, in order.
pub fn response_formats(constrain: bool) -> (r: Vec<ResponseFormat>)
    ensures
        r@ == ladder(constrain),
{
    if constrain {
        let mut v = Vec::new();
        v.push(ResponseFormat::JsonSchema);
        v.push(ResponseFormat::JsonObject);
        v.push(ResponseFormat::Free);
        v
    } else {
        let mut v = Vec::new();
        v.push(ResponseFormat::Free);
        v
    }
}

/// What to do after one rung of the ladder.
#[derive(Debug, Clone)]
pub enum Rung {
    /// The reply parsed: this is the action.
    Accept(Action),
    /// Try the next, looser format.
    Retry(ResponseFormat),
    /// Every format failed; this is the last error.
    GiveUp(String),
}

/// The decision after trying rung `step` of the ladder: a parsed action ends the climb; a
/// failure (of the request or of the parse) moves to the next looser format, and after
/// the last one the last error is reported.
pub fn next_rung(constrain: bool, step: usize, outcome: Result<Action, String>) -> (r: Rung)
    requires
        step < ladder(constrain).len(),
    ensures
        match outcome {
            Ok(a) => r == Rung::Accept(a),
            Err(e) => if step + 1 < ladder(constrain).len() {
                r == Rung::Retry(ladder(constrain)[step + 1])
            } else {
                r matches Rung::GiveUp(m) && m@ == e@
            },
        },
{
    match outcome {
        Ok(a) => Rung::Accept(a),
        Err(e) => {
            let formats = response_formats(constrain);
            if step + 1 < formats.len() {
                Rung::Retry(formats[step + 1])
            } else {
                Rung::GiveUp(e)
            }
        },
    }
}

// ---------------------------------------------------------------------------------
// Endpoints.
// ---------------------------------------------------------------------------------

/// `url` without trailing slashes, followed by `path`.
pub open spec fn endpoint(url: Seq<char>, path: Seq<char>) -> Seq<char> {
    trim_end_matches(url, "/"@) + path
}

/// Joins the server's base URL and a path, dropping the base URL's trailing slashes.
pub fn endpoint_url(url: &str, path: &str) -> (r: String)
    ensures
        r@ == endpoint(url@, path@),
{
    proof {
        reveal_strlit("/");
    }
    let u = chars_of(url);
    let slash = chars_of("/");
    let base = trim_end_matches_exec(u.as_slice(), slash.as_slice());
    let mut r = string_of(base.as_slice());
    r.append(path);
    r
}

/// The chat-completions endpoint of the server at `url`.
pub fn chat_completions_url(url: &str) -> (r: String)
    ensures
        r@ == endpoint(url@, "/v1/chat/completions"@),
{
    endpoint_url(url, "/v1/chat/completions")
}

/// The model-listing endpoint of the server at `url`.
pub fn models_url(url: &str) -> (r: String)
    ensures
        r@ == endpoint(url@, "/v1/models"@),
{
    endpoint_url(url, "/v1/models")
}

/// The data URL under which a base64 PNG is attached to the request.
pub fn png_data_url(b64: &str) -> (r: String)
    ensures
        r@ == "data:image/png;base64,"@ + b64@,
{
    String::from_str("data:image/png;base64,").concat(b64)
}

} // verus!
