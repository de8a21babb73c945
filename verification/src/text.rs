//! Character-level text helpers shared by the perception, reasoning and action code.
//!
//! Strings are modelled by their `Seq<char>` view; every helper states its result over
//! that view.
use vstd::prelude::*;

verus! {

// ---------------------------------------------------------------------------------
// Trusted items: the std text functions whose results are Unicode tables.
// ---------------------------------------------------------------------------------

/// Whether a character has the Unicode `White_Space` property, the property that
/// `char::is_whitespace` reports: the controls U+0009..=U+000D, the space, U+0085, the
/// no-break space U+00A0, U+1680, U+2000..=U+200A, the line and paragraph separators
/// U+2028 and U+2029, U+202F, U+205F and U+3000.
pub open spec fn white_space(c: char) -> bool {
    let n = c as u32;
    ||| 0x9 <= n <= 0xD
    ||| n == 0x20
    ||| n == 0x85
    ||| n == 0xA0
    ||| n == 0x1680
    ||| 0x2000 <= n <= 0x200A
    ||| n == 0x2028
    ||| n == 0x2029
    ||| n == 0x202F
    ||| n == 0x205F
    ||| n == 0x3000
}

/// The ASCII lowercase of a character: 'A'..='Z' become 'a'..='z', anything else is kept.
pub open spec fn ascii_lower(c: char) -> char {
    if 'A' <= c && c <= 'Z' {
        ((c as u32) + 32) as char
    } else {
        c
    }
}

/// Whether every character of `s` is ASCII.
pub open spec fn is_ascii_text(s: Seq<char>) -> bool {
    forall|i: int| 0 <= i < s.len() ==> (#[trigger] s[i] as u32) < 128
}

/// The Unicode lowercase mapping of a whole string that holds a non-ASCII character, as
/// `str::to_lowercase` computes it from the Unicode tables.
pub uninterp spec fn unicode_lowercase(s: Seq<char>) -> Seq<char>;

/// The lowercase of a string (`str::to_lowercase`): an all-ASCII string is lowercased
/// character by character ('A'..='Z' to 'a'..='z', same length); any other string by the
/// Unicode tables.
pub open spec fn lowercase(s: Seq<char>) -> Seq<char> {
    if is_ascii_text(s) {
        s.map_values(|c: char| ascii_lower(c))
    } else {
        unicode_lowercase(s)
    }
}

/// Calls `char::is_whitespace`. Claims: the result is `white_space(c)`; std documents the
/// function as reporting the Unicode `White_Space` property, whose members are listed
/// there.
#[verifier::external_body]
pub(crate) fn is_whitespace(c: char) -> (r: bool)
    ensures
        r == white_space(c),
{
    c.is_whitespace()
}

/// Calls `str::to_lowercase`. Claims: an all-ASCII string comes back with 'A'..='Z'
/// turned into 'a'..='z' and every other character kept (std maps ASCII letters that way
/// and leaves other ASCII characters alone); for a string with a non-ASCII character the
/// result is named `unicode_lowercase`, which is a function of the string alone.
#[verifier::external_body]
pub(crate) fn to_lowercase(s: &str) -> (r: String)
    ensures
        r@ == lowercase(s@),
        !is_ascii_text(s@) ==> r@ == unicode_lowercase(s@),
{
    s.to_lowercase()
}

/// The `Debug` rendering of a string slice (`format!("{:?}", s)`): the text in double
/// quotes with std's escapes.
pub uninterp spec fn debug_quoted(s: Seq<char>) -> Seq<char>;

/// Calls `format!("{:?}", s)` on a string slice. Claims only that the result is
/// `debug_quoted(s@)`.
#[verifier::external_body]
pub(crate) fn debug_str(s: &str) -> (r: String)
    ensures
        r@ == debug_quoted(s@),
{
    format!("{:?}", s)
}

/// Calls `String::push`. Claims: the character is appended at the end.
#[verifier::external_body]
pub(crate) fn push_char(s: &mut String, c: char)
    ensures
        final(s)@ == old(s)@.push(c),
{
    s.push(c)
}

// ---------------------------------------------------------------------------------
// Conversions between `&str`/`String` and `Vec<char>`.
// ---------------------------------------------------------------------------------

/// The characters of a string slice, in order.
pub fn chars_of(s: &str) -> (v: Vec<char>)
    ensures
        v@ == s@,
{
    let mut v: Vec<char> = Vec::new();
    for c in it: s.chars()
        invariant
            v@ == it.seq().take(it.index() as int),
    {
        v.push(c);
    }
    v
}

/// A `String` holding exactly the given characters.
pub fn string_of(v: &[char]) -> (s: String)
    ensures
        s@ == v@,
{
    let mut s = String::new();
    let n = v.len();
    let mut i: usize = 0;
    while i < n
        invariant
            n == v@.len(),
            i <= n,
            s@ == v@.take(i as int),
        decreases n - i,
    {
        push_char(&mut s, v[i]);
        assert(v@.take(i as int).push(v@[i as int]) =~= v@.take(i + 1));
        i += 1;
    }
    assert(v@.take(n as int) =~= v@);
    s
}

/// Appends all characters of `src` to `dst`.
pub fn push_chars(dst: &mut String, src: &[char])
    ensures
        final(dst)@ == old(dst)@ + src@,
{
    let n = src.len();
    let mut i: usize = 0;
    while i < n
        invariant
            n == src@.len(),
            i <= n,
            dst@ == old(dst)@ + src@.take(i as int),
        decreases n - i,
    {
        push_char(dst, src[i]);
        assert(src@.take(i as int).push(src@[i as int]) =~= src@.take(i + 1));
        assert(old(dst)@ + src@.take(i + 1) =~= (old(dst)@ + src@.take(i as int)).push(src@[i as int]));
        i += 1;
    }
    assert(src@.take(n as int) =~= src@);
}

/// Whether two character sequences are equal.
pub fn chars_eq(a: &[char], b: &[char]) -> (r: bool)
    ensures
        r == (a@ == b@),
{
    if a.len() != b.len() {
        return false;
    }
    let n = a.len();
    let mut i: usize = 0;
    while i < n
        invariant
            n == a@.len(),
            n == b@.len(),
            i <= n,
            forall|j: int| 0 <= j < i ==> a@[j] == b@[j],
        decreases n - i,
    {
        if a[i] != b[i] {
            return false;
        }
        i += 1;
    }
    assert(a@ =~= b@);
    true
}

/// Whether a character sequence spells the string `lit`.
pub fn chars_is(a: &[char], lit: &str) -> (r: bool)
    ensures
        r == (a@ == lit@),
{
    let l = chars_of(lit);
    chars_eq(a, l.as_slice())
}

/// The characters of `v` in `[from, to)`.
pub fn slice_chars(v: &[char], from: usize, to: usize) -> (r: Vec<char>)
    requires
        from <= to <= v@.len(),
    ensures
        r@ == v@.subrange(from as int, to as int),
{
    let mut r: Vec<char> = Vec::new();
    let mut i: usize = from;
    while i < to
        invariant
            from <= i <= to <= v@.len(),
            r@ == v@.subrange(from as int, i as int),
        decreases to - i,
    {
        r.push(v[i]);
        assert(v@.subrange(from as int, i as int).push(v@[i as int]) =~= v@.subrange(
            from as int,
            i + 1,
        ));
        i += 1;
    }
    r
}

/// The ASCII lowercase of a character sequence (`str::to_ascii_lowercase`).
pub fn ascii_lowercase_chars(v: &[char]) -> (r: Vec<char>)
    ensures
        r@ == v@.map_values(|c: char| ascii_lower(c)),
{
    let mut r: Vec<char> = Vec::new();
    let n = v.len();
    let mut i: usize = 0;
    while i < n
        invariant
            n == v@.len(),
            i <= n,
            r@ == v@.take(i as int).map_values(|c: char| ascii_lower(c)),
        decreases n - i,
    {
        let c = v[i];
        let l = if 'A' <= c && c <= 'Z' {
            (((c as u32) + 32) as u8) as char
        } else {
            c
        };
        assert(l == ascii_lower(c));
        r.push(l);
        assert(v@.take(i + 1).map_values(|c: char| ascii_lower(c)) =~= v@.take(i as int).map_values(
            |c: char| ascii_lower(c),
        ).push(ascii_lower(v@[i as int])));
        i += 1;
    }
    assert(v@.take(n as int) =~= v@);
    r
}

// ---------------------------------------------------------------------------------
// Whitespace trimming (`str::trim`).
// ---------------------------------------------------------------------------------

/// `t` without its leading whitespace.
pub open spec fn trim_start(t: Seq<char>) -> Seq<char>
    decreases t.len(),
{
    if t.len() > 0 && white_space(t[0]) {
        trim_start(t.drop_first())
    } else {
        t
    }
}

/// `t` without its trailing whitespace.
pub open spec fn trim_end(t: Seq<char>) -> Seq<char>
    decreases t.len(),
{
    if t.len() > 0 && white_space(t.last()) {
        trim_end(t.drop_last())
    } else {
        t
    }
}

/// `t` without leading and trailing whitespace.
pub open spec fn trim(t: Seq<char>) -> Seq<char> {
    trim_end(trim_start(t))
}

proof fn lemma_trim_start_skip(t: Seq<char>, a: int)
    requires
        0 <= a <= t.len(),
        forall|j: int| 0 <= j < a ==> white_space(#[trigger] t[j]),
    ensures
        trim_start(t) == trim_start(t.skip(a)),
    decreases a,
{
    if a > 0 {
        assert(t.drop_first().skip(a - 1) =~= t.skip(a));
        assert forall|j: int| 0 <= j < a - 1 implies white_space(#[trigger] t.drop_first()[j]) by {
            assert(t.drop_first()[j] == t[j + 1]);
        }
        lemma_trim_start_skip(t.drop_first(), a - 1);
    } else {
        assert(t.skip(0) =~= t);
    }
}

proof fn lemma_trim_end_take(t: Seq<char>, b: int)
    requires
        0 <= b <= t.len(),
        forall|j: int| b <= j < t.len() ==> white_space(#[trigger] t[j]),
    ensures
        trim_end(t) == trim_end(t.take(b)),
    decreases t.len() - b,
{
    if b < t.len() {
        assert(t.drop_last().take(b) =~= t.take(b));
        lemma_trim_end_take(t.drop_last(), b);
    } else {
        assert(t.take(b) =~= t);
    }
}

/// Trims whitespace from both ends of a character sequence.
pub fn trim_chars(v: &[char]) -> (r: Vec<char>)
    ensures
        r@ == trim(v@),
{
    let n = v.len();
    let mut a: usize = 0;
    while a < n && is_whitespace(v[a])
        invariant
            n == v@.len(),
            a <= n,
            forall|j: int| 0 <= j < a ==> white_space(#[trigger] v@[j]),
        decreases n - a,
    {
        a += 1;
    }
    proof {
        lemma_trim_start_skip(v@, a as int);
    }
    let ghost u = v@.skip(a as int);
    assert(trim_start(u) == u);
    let mut b: usize = n;
    while b > a && is_whitespace(v[b - 1])
        invariant
            n == v@.len(),
            a <= b <= n,
            u == v@.skip(a as int),
            forall|j: int| b - a <= j < u.len() ==> white_space(#[trigger] u[j]),
        decreases b,
    {
        b -= 1;
    }
    proof {
        lemma_trim_end_take(u, (b - a) as int);
        let w = u.take((b - a) as int);
        if w.len() > 0 {
            assert(w.last() == v@[b - 1]);
        }
        assert(trim_end(w) == w);
        assert(w =~= v@.subrange(a as int, b as int));
    }
    slice_chars(v, a, b)
}

/// Trims whitespace from both ends of a string slice (`str::trim`).
pub fn trim_str(s: &str) -> (r: String)
    ensures
        r@ == trim(s@),
{
    let v = chars_of(s);
    let t = trim_chars(v.as_slice());
    string_of(t.as_slice())
}

// ---------------------------------------------------------------------------------
// Prefixes, suffixes, searching.
// ---------------------------------------------------------------------------------

/// Whether `t` begins with `p`.
pub open spec fn starts_with(t: Seq<char>, p: Seq<char>) -> bool {
    p.len() <= t.len() && t.take(p.len() as int) == p
}

/// Whether `t` ends with `p`.
pub open spec fn ends_with(t: Seq<char>, p: Seq<char>) -> bool {
    p.len() <= t.len() && t.skip(t.len() - p.len()) == p
}

/// Whether `p` occurs in `t` at position `i`.
pub open spec fn occurs_at(t: Seq<char>, p: Seq<char>, i: int) -> bool {
    0 <= i && i + p.len() <= t.len() && t.subrange(i, i + p.len()) == p
}

/// Whether `p` occurs somewhere in `t` (`str::contains`); the empty pattern always does.
pub open spec fn contains(t: Seq<char>, p: Seq<char>) -> bool {
    exists|i: int| occurs_at(t, p, i)
}

/// Whether `p` occurs in `t` at position `i` (executable).
pub fn occurs_at_exec(t: &[char], p: &[char], i: usize) -> (r: bool)
    ensures
        r == occurs_at(t@, p@, i as int),
{
    if i > t.len() || p.len() > t.len() - i {
        return false;
    }
    let m = p.len();
    let mut k: usize = 0;
    while k < m
        invariant
            m == p@.len(),
            i + m <= t@.len(),
            t@.len() == t.len(),
            k <= m,
            forall|j: int| 0 <= j < k ==> t@[i + j] == p@[j],
        decreases m - k,
    {
        if t[i + k] != p[k] {
            assert(t@.subrange(i as int, i + m)[k as int] != p@[k as int]);
            return false;
        }
        k += 1;
    }
    assert(t@.subrange(i as int, i + m) =~= p@);
    true
}

/// Whether `p` occurs in `t` (`str::contains`).
pub fn contains_exec(t: &[char], p: &[char]) -> (r: bool)
    ensures
        r == contains(t@, p@),
{
    if p.len() > t.len() {
        assert forall|i: int| !occurs_at(t@, p@, i) by {}
        return false;
    }
    if p.len() == 0 {
        assert(t@.subrange(0, 0) =~= p@);
        assert(occurs_at(t@, p@, 0));
        return true;
    }
    let last = t.len() - p.len();
    let mut i: usize = 0;
    while i <= last
        invariant
            last + p@.len() == t@.len(),
            p@.len() > 0,
            t@.len() == t.len(),
            forall|j: int| 0 <= j < i ==> !occurs_at(t@, p@, j),
        decreases last + 1 - i,
    {
        if occurs_at_exec(t, p, i) {
            return true;
        }
        i += 1;
    }
    assert forall|j: int| !occurs_at(t@, p@, j) by {
        if 0 <= j && j < i {
        }
    }
    false
}

/// `t` with every leading occurrence of `p` removed, repeatedly
/// (`str::trim_start_matches` with a string pattern).
pub open spec fn trim_start_matches(t: Seq<char>, p: Seq<char>) -> Seq<char>
    recommends
        p.len() > 0,
    decreases t.len(),
{
    if p.len() > 0 && starts_with(t, p) {
        trim_start_matches(t.skip(p.len() as int), p)
    } else {
        t
    }
}

/// `t` with every trailing occurrence of `p` removed, repeatedly
/// (`str::trim_end_matches` with a string pattern).
pub open spec fn trim_end_matches(t: Seq<char>, p: Seq<char>) -> Seq<char>
    recommends
        p.len() > 0,
    decreases t.len(),
{
    if p.len() > 0 && ends_with(t, p) {
        trim_end_matches(t.take(t.len() - p.len()), p)
    } else {
        t
    }
}

/// Removes every leading occurrence of `p` from `t`.
pub fn trim_start_matches_exec(t: &[char], p: &[char]) -> (r: Vec<char>)
    requires
        p@.len() > 0,
    ensures
        r@ == trim_start_matches(t@, p@),
{
    let mut a: usize = 0;
    let n = t.len();
    assert(t@.skip(0) =~= t@);
    while occurs_at_exec(t, p, a)
        invariant
            n == t@.len(),
            a <= n,
            p@.len() > 0,
            trim_start_matches(t@, p@) == trim_start_matches(t@.skip(a as int), p@),
        decreases n - a,
    {
        let ghost u = t@.skip(a as int);
        assert(u.take(p@.len() as int) =~= t@.subrange(a as int, a + p@.len()));
        assert(u.skip(p@.len() as int) =~= t@.skip(a + p@.len()));
        a += p.len();
    }
    proof {
        let u = t@.skip(a as int);
        if starts_with(u, p@) {
            assert(u.take(p@.len() as int) =~= t@.subrange(a as int, a + p@.len()));
        }
    }
    slice_chars(t, a, n)
}

/// Removes every trailing occurrence of `p` from `t`.
pub fn trim_end_matches_exec(t: &[char], p: &[char]) -> (r: Vec<char>)
    requires
        p@.len() > 0,
    ensures
        r@ == trim_end_matches(t@, p@),
{
    let mut b: usize = t.len();
    let m = p.len();
    assert(t@.take(b as int) =~= t@);
    while b >= m && occurs_at_exec(t, p, b - m)
        invariant
            b <= t@.len(),
            m == p@.len(),
            m > 0,
            trim_end_matches(t@, p@) == trim_end_matches(t@.take(b as int), p@),
        decreases b,
    {
        let ghost u = t@.take(b as int);
        assert(u.skip(u.len() - m) =~= t@.subrange(b - m, b as int));
        assert(u.take(u.len() - m) =~= t@.take(b - m));
        b -= m;
    }
    proof {
        let u = t@.take(b as int);
        if ends_with(u, p@) {
            assert(u.skip(u.len() - m) =~= t@.subrange(b - m, b as int));
        }
        assert(t@.subrange(0, b as int) =~= u);
    }
    slice_chars(t, 0, b)
}

// ---------------------------------------------------------------------------------
// Replacing and escaping.
// ---------------------------------------------------------------------------------

/// `t` with every non-overlapping occurrence of `p`, scanned left to right, replaced by
/// `r` (`str::replace`).
pub open spec fn replace(t: Seq<char>, p: Seq<char>, r: Seq<char>) -> Seq<char>
    recommends
        p.len() > 0,
    decreases t.len(),
{
    if t.len() == 0 || p.len() == 0 {
        t
    } else if starts_with(t, p) {
        r + replace(t.skip(p.len() as int), p, r)
    } else {
        seq![t[0]] + replace(t.drop_first(), p, r)
    }
}

/// Replaces every occurrence of `p` in `t` by `r`, left to right.
pub fn replace_exec(t: &[char], p: &[char], r: &[char]) -> (out: Vec<char>)
    requires
        p@.len() > 0,
    ensures
        out@ == replace(t@, p@, r@),
{
    let n = t.len();
    let mut out: Vec<char> = Vec::new();
    let mut i: usize = 0;
    assert(t@.skip(0) =~= t@);
    assert(out@ + replace(t@, p@, r@) =~= replace(t@, p@, r@));
    while i < n
        invariant
            n == t@.len(),
            i <= n,
            p@.len() > 0,
            out@ + replace(t@.skip(i as int), p@, r@) == replace(t@, p@, r@),
        decreases n - i,
    {
        let ghost u = t@.skip(i as int);
        let ghost before = out@;
        if occurs_at_exec(t, p, i) {
            assert(u.take(p@.len() as int) =~= t@.subrange(i as int, i + p@.len()));
            assert(u.skip(p@.len() as int) =~= t@.skip(i + p@.len()));
            let mut k: usize = 0;
            while k < r.len()
                invariant
                    out@ == before + r@.take(k as int),
                    k <= r@.len(),
                decreases r@.len() - k,
            {
                out.push(r[k]);
                assert(r@.take(k as int).push(r@[k as int]) =~= r@.take(k + 1));
                assert(before + r@.take(k + 1) =~= (before + r@.take(k as int)).push(
                    r@[k as int],
                ));
                k += 1;
            }
            assert(r@.take(r@.len() as int) =~= r@);
            assert(before + (r@ + replace(t@.skip(i + p@.len()), p@, r@)) =~= out@ + replace(
                t@.skip(i + p@.len()),
                p@,
                r@,
            ));
            i += p.len();
        } else {
            proof {
                if starts_with(u, p@) {
                    assert(u.take(p@.len() as int) =~= t@.subrange(i as int, i + p@.len()));
                }
                assert(u.drop_first() =~= t@.skip(i + 1));
                assert(u[0] == t@[i as int]);
            }
            out.push(t[i]);
            assert(before + (seq![t@[i as int]] + replace(t@.skip(i + 1), p@, r@)) =~= out@
                + replace(t@.skip(i + 1), p@, r@));
            i += 1;
        }
    }
    assert(t@.skip(n as int) =~= Seq::<char>::empty());
    assert(out@ + Seq::<char>::empty() =~= out@);
    out
}

/// The escape of one character for an AppleScript double-quoted literal.
pub open spec fn escape_char(c: char) -> Seq<char> {
    if c == '\\' {
        seq!['\\', '\\']
    } else if c == '"' {
        seq!['\\', '"']
    } else {
        seq![c]
    }
}

/// `t` made safe to embed inside an AppleScript double-quoted literal: every backslash is
/// doubled and every double quote is preceded by a backslash.
pub open spec fn escape(t: Seq<char>) -> Seq<char>
    decreases t.len(),
{
    if t.len() == 0 {
        t
    } else {
        escape(t.drop_last()) + escape_char(t.last())
    }
}

/// Escapes a character sequence for an AppleScript double-quoted literal.
pub fn escape_chars(t: &[char]) -> (r: Vec<char>)
    ensures
        r@ == escape(t@),
{
    let mut r: Vec<char> = Vec::new();
    let n = t.len();
    let mut i: usize = 0;
    while i < n
        invariant
            n == t@.len(),
            i <= n,
            r@ == escape(t@.take(i as int)),
        decreases n - i,
    {
        let c = t[i];
        let ghost before = r@;
        if c == '\\' {
            r.push('\\');
            r.push('\\');
        } else if c == '"' {
            r.push('\\');
            r.push('"');
        } else {
            r.push(c);
        }
        assert(t@.take(i + 1).drop_last() =~= t@.take(i as int));
        assert(r@ =~= before + escape_char(c));
        i += 1;
    }
    assert(t@.take(n as int) =~= t@);
    r
}

/// Escapes a string for safe embedding inside an AppleScript double-quoted literal.
pub fn esc(s: &str) -> (r: String)
    ensures
        r@ == escape(s@),
{
    let v = chars_of(s);
    let e = escape_chars(v.as_slice());
    string_of(e.as_slice())
}

/// The items joined with `sep` between consecutive ones.
pub open spec fn join(items: Seq<Seq<char>>, sep: Seq<char>) -> Seq<char>
    decreases items.len(),
{
    if items.len() == 0 {
        seq![]
    } else if items.len() == 1 {
        items[0]
    } else {
        join(items.drop_last(), sep) + sep + items.last()
    }
}

/// Appends `items` joined with `sep` to `dst`.
pub fn push_joined(dst: &mut String, items: &Vec<String>, sep: &str)
    ensures
        final(dst)@ == old(dst)@ + join(items@.map_values(|s: String| s@), sep@),
{
    let ghost iv = items@.map_values(|s: String| s@);
    let n = items.len();
    let mut i: usize = 0;
    assert(iv.take(0) =~= Seq::<Seq<char>>::empty());
    while i < n
        invariant
            n == items@.len(),
            iv == items@.map_values(|s: String| s@),
            i <= n,
            dst@ == old(dst)@ + join(iv.take(i as int), sep@),
        decreases n - i,
    {
        assert(iv.take(i + 1).drop_last() =~= iv.take(i as int));
        assert(iv.take(i + 1).last() == items@[i as int]@);
        if i > 0 {
            dst.append(sep);
        } else {
            assert(iv.take(1) =~= seq![items@[0]@]);
        }
        dst.append(items[i].as_str());
        assert(dst@ =~= old(dst)@ + join(iv.take(i + 1), sep@));
        i += 1;
    }
    assert(iv.take(n as int) =~= iv);
}

// ---------------------------------------------------------------------------------
// Truncation, first line, decimal numbers.
// ---------------------------------------------------------------------------------

/// The first `n` characters of `t` (all of `t` when it is shorter).
pub open spec fn take_chars(t: Seq<char>, n: nat) -> Seq<char> {
    if t.len() <= n {
        t
    } else {
        t.take(n as int)
    }
}

/// The first `n` characters of a string slice (`s.chars().take(n).collect()`).
pub fn truncate(s: &str, n: usize) -> (r: String)
    ensures
        r@ == take_chars(s@, n as nat),
{
    let v = chars_of(s);
    if v.len() <= n {
        string_of(v.as_slice())
    } else {
        let w = slice_chars(v.as_slice(), 0, n);
        assert(v@.subrange(0, n as int) =~= v@.take(n as int));
        string_of(w.as_slice())
    }
}

/// The index of the first `c` in `t` at or after `from`; `t.len()` when there is none.
pub open spec fn index_from(t: Seq<char>, c: char, from: int) -> int
    decreases t.len() - from,
{
    if from >= t.len() {
        t.len() as int
    } else if from >= 0 && t[from] == c {
        from
    } else {
        index_from(t, c, from + 1)
    }
}

/// The index of the first `c` in `t`, if any.
pub open spec fn first_index_of(t: Seq<char>, c: char) -> Option<int> {
    if index_from(t, c, 0) < t.len() {
        Some(index_from(t, c, 0))
    } else {
        None
    }
}

/// `index_from` finds the first `c` at or after `from`.
pub proof fn lemma_index_from(t: Seq<char>, c: char, from: int)
    requires
        0 <= from <= t.len(),
    ensures
        from <= index_from(t, c, from) <= t.len(),
        index_from(t, c, from) < t.len() ==> t[index_from(t, c, from)] == c,
        forall|j: int| from <= j < index_from(t, c, from) ==> t[j] != c,
    decreases t.len() - from,
{
    if from < t.len() && t[from] != c {
        lemma_index_from(t, c, from + 1);
    }
}

/// Finds the first `c` in `t`.
pub fn find_char(t: &[char], c: char) -> (r: Option<usize>)
    ensures
        match r {
            Some(i) => i < t@.len() && t@[i as int] == c && forall|j: int| 0 <= j < i ==> t@[j] != c,
            None => forall|j: int| 0 <= j < t@.len() ==> t@[j] != c,
        },
        r matches Some(i) ==> first_index_of(t@, c) == Some(i as int),
        r is None ==> first_index_of(t@, c) is None,
{
    let n = t.len();
    let mut i: usize = 0;
    while i < n
        invariant
            n == t@.len(),
            i <= n,
            forall|j: int| 0 <= j < i ==> t@[j] != c,
            index_from(t@, c, 0) == index_from(t@, c, i as int),
        decreases n - i,
    {
        if t[i] == c {
            return Some(i);
        }
        i += 1;
    }
    None
}

/// The pieces of `t` between occurrences of `c` (`str::split` with a char pattern):
/// always at least one piece; empty pieces are kept.
pub open spec fn split(t: Seq<char>, c: char) -> Seq<Seq<char>>
    decreases t.len(),
{
    let i = index_from(t, c, 0);
    if i < t.len() {
        proof {
            lemma_index_from(t, c, 0);
        }
        seq![t.take(i)] + split(t.skip(i + 1), c)
    } else {
        seq![t]
    }
}

/// The views of a sequence of `Vec<char>`s.
pub open spec fn char_vecs_view(v: Seq<Vec<char>>) -> Seq<Seq<char>> {
    v.map_values(|x: Vec<char>| x@)
}

/// Splits `t` at every `c`.
pub fn split_chars(t: &[char], c: char) -> (r: Vec<Vec<char>>)
    ensures
        char_vecs_view(r@) == split(t@, c),
{
    let n = t.len();
    let mut r: Vec<Vec<char>> = Vec::new();
    let mut cur: Vec<char> = Vec::new();
    let mut i: usize = 0;
    let mut piece_start: usize = 0;
    assert(t@.skip(0) =~= t@);
    while i < n
        invariant
            n == t@.len(),
            piece_start <= i <= n,
            cur@ == t@.subrange(piece_start as int, i as int),
            forall|j: int| piece_start <= j < i ==> t@[j] != c,
            char_vecs_view(r@) + split(t@.skip(piece_start as int), c) == split(t@, c),
        decreases n - i,
    {
        if t[i] == c {
            proof {
                let u = t@.skip(piece_start as int);
                let k = i - piece_start;
                lemma_index_from(u, c, 0);
                assert forall|j: int| 0 <= j < k implies u[j] != c by {
                    assert(u[j] == t@[piece_start + j]);
                }
                assert(u[k as int] == c);
                if index_from(u, c, 0) < k {
                    assert(u[index_from(u, c, 0)] != c);
                }
                assert(index_from(u, c, 0) == k);
                assert(u.take(k as int) =~= cur@);
                assert(u.skip(k + 1) =~= t@.skip(i + 1));
                assert(char_vecs_view(r@.push(cur)) =~= char_vecs_view(r@).push(cur@));
                assert(split(u, c) == seq![cur@] + split(t@.skip(i + 1), c));
                assert(char_vecs_view(r@.push(cur)) + split(t@.skip(i + 1), c) =~= char_vecs_view(r@) + split(u, c));
            }
            r.push(cur);
            cur = Vec::new();
            i += 1;
            piece_start = i;
            assert(cur@ =~= t@.subrange(piece_start as int, i as int));
        } else {
            cur.push(t[i]);
            assert(cur@ =~= t@.subrange(piece_start as int, i + 1));
            i += 1;
        }
    }
    proof {
        let u = t@.skip(piece_start as int);
        lemma_index_from(u, c, 0);
        assert forall|j: int| 0 <= j < u.len() implies u[j] != c by {
            assert(u[j] == t@[piece_start + j]);
        }
        if index_from(u, c, 0) < u.len() {
            assert(u[index_from(u, c, 0)] != c);
        }
        assert(u =~= cur@);
        assert(split(u, c) == seq![cur@]);
        assert(char_vecs_view(r@.push(cur)) =~= char_vecs_view(r@).push(cur@));
        assert(char_vecs_view(r@.push(cur)) =~= char_vecs_view(r@) + split(u, c));
    }
    r.push(cur);
    r
}

/// `t` without one trailing carriage return.
pub open spec fn strip_cr(t: Seq<char>) -> Seq<char> {
    if t.len() > 0 && t.last() == '\r' {
        t.drop_last()
    } else {
        t
    }
}

/// The lines of `t` (`str::lines`): pieces between '\n's, each without a '\r' that
/// directly precedes its '\n'; a final '\n' does not start an empty line.
pub open spec fn lines(t: Seq<char>) -> Seq<Seq<char>>
    decreases t.len(),
{
    if t.len() == 0 {
        seq![]
    } else {
        let i = index_from(t, '\n', 0);
        if i < t.len() {
            proof {
                lemma_index_from(t, '\n', 0);
            }
            seq![strip_cr(t.take(i))] + lines(t.skip(i + 1))
        } else {
            seq![t]
        }
    }
}

fn strip_cr_chars(v: Vec<char>) -> (r: Vec<char>)
    ensures
        r@ == strip_cr(v@),
{
    let n = v.len();
    if n > 0 && v[n - 1] == '\r' {
        let r = slice_chars(v.as_slice(), 0, n - 1);
        assert(v@.subrange(0, n - 1) =~= v@.drop_last());
        r
    } else {
        v
    }
}

/// Splits `t` into lines.
pub fn lines_chars(t: &[char]) -> (r: Vec<Vec<char>>)
    ensures
        char_vecs_view(r@) == lines(t@),
{
    let n = t.len();
    let mut r: Vec<Vec<char>> = Vec::new();
    let mut cur: Vec<char> = Vec::new();
    let mut i: usize = 0;
    let mut piece_start: usize = 0;
    assert(t@.skip(0) =~= t@);
    while i < n
        invariant
            n == t@.len(),
            piece_start <= i <= n,
            cur@ == t@.subrange(piece_start as int, i as int),
            forall|j: int| piece_start <= j < i ==> t@[j] != '\n',
            char_vecs_view(r@) + lines(t@.skip(piece_start as int)) == lines(t@),
        decreases n - i,
    {
        if t[i] == '\n' {
            let line = strip_cr_chars(cur);
            proof {
                let u = t@.skip(piece_start as int);
                let k = i - piece_start;
                lemma_index_from(u, '\n', 0);
                assert forall|j: int| 0 <= j < k implies u[j] != '\n' by {
                    assert(u[j] == t@[piece_start + j]);
                }
                assert(u[k as int] == '\n');
                if index_from(u, '\n', 0) < k {
                    assert(u[index_from(u, '\n', 0)] != '\n');
                }
                assert(index_from(u, '\n', 0) == k);
                assert(u.take(k as int) =~= t@.subrange(piece_start as int, i as int));
                assert(u.skip(k + 1) =~= t@.skip(i + 1));
                assert(char_vecs_view(r@.push(line)) =~= char_vecs_view(r@).push(line@));
                assert(lines(u) == seq![line@] + lines(t@.skip(i + 1)));
                assert(char_vecs_view(r@.push(line)) + lines(t@.skip(i + 1)) =~= char_vecs_view(r@)
                    + lines(u));
            }
            r.push(line);
            cur = Vec::new();
            i += 1;
            piece_start = i;
            assert(cur@ =~= t@.subrange(piece_start as int, i as int));
        } else {
            cur.push(t[i]);
            assert(cur@ =~= t@.subrange(piece_start as int, i + 1));
            i += 1;
        }
    }
    proof {
        let u = t@.skip(piece_start as int);
        lemma_index_from(u, '\n', 0);
        assert forall|j: int| 0 <= j < u.len() implies u[j] != '\n' by {
            assert(u[j] == t@[piece_start + j]);
        }
        if index_from(u, '\n', 0) < u.len() {
            assert(u[index_from(u, '\n', 0)] != '\n');
        }
        assert(u =~= cur@);
    }
    if cur.len() > 0 {
        proof {
            assert(char_vecs_view(r@.push(cur)) =~= char_vecs_view(r@).push(cur@));
            assert(char_vecs_view(r@.push(cur)) =~= char_vecs_view(r@) + lines(cur@));
        }
        r.push(cur);
    } else {
        assert(char_vecs_view(r@) =~= char_vecs_view(r@) + lines(cur@));
    }
    r
}

/// The first line of `t` (`str::lines().next()`, or empty when there is none): the text
/// before the first '\n', without a '\r' that directly precedes that '\n'.
pub open spec fn first_line(t: Seq<char>) -> Seq<char> {
    match first_index_of(t, '\n') {
        Some(i) => if i > 0 && t[i - 1] == '\r' {
            t.take(i - 1)
        } else {
            t.take(i)
        },
        None => t,
    }
}

/// The first line of a character sequence.
pub fn first_line_chars(t: &[char]) -> (r: Vec<char>)
    ensures
        r@ == first_line(t@),
{
    match find_char(t, '\n') {
        Some(i) => {
            if i > 0 && t[i - 1] == '\r' {
                let r = slice_chars(t, 0, i - 1);
                assert(t@.subrange(0, i - 1) =~= t@.take(i - 1));
                r
            } else {
                let r = slice_chars(t, 0, i);
                assert(t@.subrange(0, i as int) =~= t@.take(i as int));
                r
            }
        },
        None => slice_chars(t, 0, t.len()),
    }
}

/// The decimal digit character for `d` (0..=9).
pub open spec fn digit_char(d: nat) -> char {
    (48 + d) as char
}

/// The decimal spelling of a natural number.
pub open spec fn decimal(n: nat) -> Seq<char>
    decreases n,
{
    if n < 10 {
        seq![digit_char(n)]
    } else {
        decimal(n / 10).push(digit_char(n % 10))
    }
}

/// The decimal spelling of an integer, with a leading '-' when negative.
pub open spec fn signed_decimal(i: int) -> Seq<char> {
    if i < 0 {
        seq!['-'] + decimal((-i) as nat)
    } else {
        decimal(i as nat)
    }
}

fn push_decimal(out: &mut String, n: u64)
    ensures
        final(out)@ == old(out)@ + decimal(n as nat),
    decreases n,
{
    if n >= 10 {
        push_decimal(out, n / 10);
    }
    let d = (n % 10) as u32;
    let c = char_from_digit(d);
    push_char(out, c);
    assert(old(out)@ + decimal(n as nat) =~= final(out)@) by {
        if n >= 10 {
            assert(decimal(n as nat) == decimal((n / 10) as nat).push(digit_char((n % 10) as nat)));
        }
    }
}

fn char_from_digit(d: u32) -> (c: char)
    requires
        d < 10,
    ensures
        c == digit_char(d as nat),
{
    if d == 0 { '0' }
    else if d == 1 { '1' }
    else if d == 2 { '2' }
    else if d == 3 { '3' }
    else if d == 4 { '4' }
    else if d == 5 { '5' }
    else if d == 6 { '6' }
    else if d == 7 { '7' }
    else if d == 8 { '8' }
    else { '9' }
}

/// Appends the decimal spelling of an unsigned number (as `format!("{}", n)` does).
pub fn push_u64(out: &mut String, n: u64)
    ensures
        final(out)@ == old(out)@ + decimal(n as nat),
{
    push_decimal(out, n);
}

/// Appends the decimal spelling of a signed number (as `format!("{}", i)` does).
pub fn push_i64(out: &mut String, i: i64)
    ensures
        final(out)@ == old(out)@ + signed_decimal(i as int),
{
    if i < 0 {
        push_char(out, '-');
        let m: u64 = if i == i64::MIN {
            9223372036854775808u64
        } else {
            (-i) as u64
        };
        push_decimal(out, m);
        assert(old(out)@ + signed_decimal(i as int) =~= final(out)@);
    } else {
        push_decimal(out, i as u64);
    }
}


// ---------------------------------------------------------------------------------
// Facts about the text operations.
// ---------------------------------------------------------------------------------

/// Trimming the start of `t` drops a prefix of it.
pub proof fn lemma_trim_start_suffix(t: Seq<char>) -> (k: int)
    ensures
        0 <= k <= t.len(),
        trim_start(t) == t.skip(k),
    decreases t.len(),
{
    if t.len() > 0 && white_space(t[0]) {
        let k1 = lemma_trim_start_suffix(t.drop_first());
        assert(t.drop_first().skip(k1) =~= t.skip(k1 + 1));
        k1 + 1
    } else {
        assert(t.skip(0) =~= t);
        0
    }
}

/// Trimming the end of `t` drops a suffix of it.
pub proof fn lemma_trim_end_prefix(t: Seq<char>) -> (k: int)
    ensures
        0 <= k <= t.len(),
        trim_end(t) == t.take(k),
    decreases t.len(),
{
    if t.len() > 0 && white_space(t.last()) {
        let k1 = lemma_trim_end_prefix(t.drop_last());
        assert(t.drop_last().take(k1) =~= t.take(k1));
        k1
    } else {
        assert(t.take(t.len() as int) =~= t);
        t.len() as int
    }
}

/// Removing leading occurrences of a pattern drops a prefix.
pub proof fn lemma_trim_start_matches_suffix(t: Seq<char>, p: Seq<char>) -> (k: int)
    ensures
        0 <= k <= t.len(),
        trim_start_matches(t, p) == t.skip(k),
    decreases t.len(),
{
    if p.len() > 0 && starts_with(t, p) {
        let u = t.skip(p.len() as int);
        let k1 = lemma_trim_start_matches_suffix(u, p);
        assert(u.skip(k1) =~= t.skip(k1 + p.len()));
        k1 + p.len()
    } else {
        assert(t.skip(0) =~= t);
        0
    }
}

/// Removing trailing occurrences of a pattern drops a suffix.
pub proof fn lemma_trim_end_matches_prefix(t: Seq<char>, p: Seq<char>) -> (k: int)
    ensures
        0 <= k <= t.len(),
        trim_end_matches(t, p) == t.take(k),
    decreases t.len(),
{
    if p.len() > 0 && ends_with(t, p) {
        let u = t.take(t.len() - p.len());
        let k1 = lemma_trim_end_matches_prefix(u, p);
        assert(u.take(k1) =~= t.take(k1));
        k1
    } else {
        assert(t.take(t.len() as int) =~= t);
        t.len() as int
    }
}

/// Trimming both ends of `t` keeps a contiguous piece of it.
pub proof fn lemma_trim_piece(t: Seq<char>) -> (ab: (int, int))
    ensures
        0 <= ab.0 <= ab.1 <= t.len(),
        trim(t) == t.subrange(ab.0, ab.1),
{
    let a = lemma_trim_start_suffix(t);
    let u = t.skip(a);
    let b = lemma_trim_end_prefix(u);
    assert(u.take(b) =~= t.subrange(a, a + b));
    (a, a + b)
}

/// Reading back an AppleScript double-quoted literal's body: a backslash makes the next
/// character literal.
pub open spec fn unescape(t: Seq<char>) -> Seq<char>
    decreases t.len(),
{
    if t.len() == 0 {
        t
    } else if t[0] == '\\' && t.len() >= 2 {
        seq![t[1]] + unescape(t.skip(2))
    } else {
        seq![t[0]] + unescape(t.drop_first())
    }
}

proof fn lemma_escape_concat(a: Seq<char>, b: Seq<char>)
    ensures
        escape(a + b) == escape(a) + escape(b),
    decreases b.len(),
{
    if b.len() == 0 {
        assert(a + b =~= a);
        assert(escape(a) + escape(b) =~= escape(a));
    } else {
        lemma_escape_concat(a, b.drop_last());
        assert((a + b).drop_last() =~= a + b.drop_last());
        assert((a + b).last() == b.last());
        assert(escape(a) + escape(b) =~= escape(a) + escape(b.drop_last()) + escape_char(b.last()));
    }
}

/// Escaping for an AppleScript literal loses nothing: reading the escaped text back gives
/// the same text, whatever quotes and backslashes it holds.
pub proof fn lemma_escape_round_trip(t: Seq<char>)
    ensures
        unescape(escape(t)) == t,
    decreases t.len(),
{
    if t.len() > 0 {
        let c = t[0];
        let rest = t.drop_first();
        assert(t =~= seq![c] + rest);
        lemma_escape_concat(seq![c], rest);
        assert(seq![c].drop_last() =~= Seq::<char>::empty());
        assert(seq![c].last() == c);
        assert(escape(Seq::<char>::empty()) =~= Seq::<char>::empty());
        assert(escape(seq![c]) =~= Seq::<char>::empty() + escape_char(c));
        assert(escape(seq![c]) =~= escape_char(c));
        lemma_escape_round_trip(rest);
        let e = escape_char(c) + escape(rest);
        if c == '\\' || c == '"' {
            assert(e[0] == '\\' && e[1] == c);
            assert(e.skip(2) =~= escape(rest));
        } else {
            assert(e[0] == c);
            assert(e.drop_first() =~= escape(rest));
        }
        assert(unescape(e) =~= t);
    }
}

} // verus!
