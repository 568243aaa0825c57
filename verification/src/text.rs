//! Character-level text operations with their mathematical definitions.
//!
//! Every function here takes and returns plain strings; its contract is stated
//! over the `Seq<char>` view of those strings.

use vstd::prelude::*;

verus! {

/// The characters that carry the Unicode `White_Space` property.
pub open spec fn is_whitespace(c: char) -> bool {
    ||| '\u{9}' <= c <= '\u{d}'
    ||| c == ' '
    ||| c == '\u{85}'
    ||| c == '\u{a0}'
    ||| c == '\u{1680}'
    ||| '\u{2000}' <= c <= '\u{200a}'
    ||| c == '\u{2028}'
    ||| c == '\u{2029}'
    ||| c == '\u{202f}'
    ||| c == '\u{205f}'
    ||| c == '\u{3000}'
}

/// `s` without its leading whitespace.
pub open spec fn spec_trim_start(s: Seq<char>) -> Seq<char>
    decreases s.len(),
{
    if s.len() > 0 && is_whitespace(s[0]) {
        spec_trim_start(s.drop_first())
    } else {
        s
    }
}

/// `s` without its trailing whitespace.
pub open spec fn spec_trim_end(s: Seq<char>) -> Seq<char>
    decreases s.len(),
{
    if s.len() > 0 && is_whitespace(s.last()) {
        spec_trim_end(s.drop_last())
    } else {
        s
    }
}

/// `s` without leading and trailing whitespace.
pub open spec fn spec_trim(s: Seq<char>) -> Seq<char> {
    spec_trim_end(spec_trim_start(s))
}

/// What follows `prefix` in `s`, if `s` begins with `prefix`.
pub open spec fn spec_strip_prefix(s: Seq<char>, prefix: Seq<char>) -> Option<Seq<char>> {
    if prefix.is_prefix_of(s) {
        Some(s.skip(prefix.len() as int))
    } else {
        None
    }
}

/// The position of the first `c` in `s`.
pub open spec fn spec_find(s: Seq<char>, c: char) -> Option<int>
    decreases s.len(),
{
    if s.len() == 0 {
        None
    } else if s[0] == c {
        Some(0)
    } else {
        match spec_find(s.drop_first(), c) {
            Some(i) => Some(i + 1),
            None => None,
        }
    }
}

/// The position of the last `c` in `s`.
pub open spec fn spec_rfind(s: Seq<char>, c: char) -> Option<int>
    decreases s.len(),
{
    if s.len() == 0 {
        None
    } else if s.last() == c {
        Some(s.len() - 1)
    } else {
        spec_rfind(s.drop_last(), c)
    }
}

/// The parts of `s` before and after its first `c`.
pub open spec fn spec_split_once(s: Seq<char>, c: char) -> Option<(Seq<char>, Seq<char>)> {
    match spec_find(s, c) {
        Some(i) => Some((s.take(i), s.skip(i + 1))),
        None => None,
    }
}

/// The length of the longest whitespace-free prefix of `s`.
pub open spec fn spec_word_len(s: Seq<char>) -> nat
    decreases s.len(),
{
    if s.len() > 0 && !is_whitespace(s[0]) {
        1 + spec_word_len(s.drop_first())
    } else {
        0
    }
}

/// The maximal whitespace-free runs of `s`, in order.
pub open spec fn spec_tokens(s: Seq<char>) -> Seq<Seq<char>>
    decreases s.len(),
    via spec_tokens_terminates
{
    if s.len() == 0 {
        Seq::empty()
    } else if is_whitespace(s[0]) {
        spec_tokens(s.drop_first())
    } else {
        let n = spec_word_len(s) as int;
        seq![s.take(n)] + spec_tokens(s.skip(n))
    }
}

#[via_fn]
proof fn spec_tokens_terminates(s: Seq<char>) {
    if s.len() > 0 && !is_whitespace(s[0]) {
        lemma_word_len_bounds(s);
    }
}

/// The tokens joined by single spaces.
pub open spec fn spec_join(tokens: Seq<Seq<char>>) -> Seq<char>
    decreases tokens.len(),
{
    if tokens.len() == 0 {
        Seq::empty()
    } else if tokens.len() == 1 {
        tokens[0]
    } else {
        spec_join(tokens.drop_last()) + seq![' '] + tokens.last()
    }
}

/// Lexicographic order on character sequences, by code point.
pub open spec fn lex_le(a: Seq<char>, b: Seq<char>) -> bool
    decreases a.len(),
{
    if a.len() == 0 {
        true
    } else if b.len() == 0 {
        false
    } else if a[0] != b[0] {
        a[0] < b[0]
    } else {
        lex_le(a.drop_first(), b.drop_first())
    }
}

/// The views of a sequence of strings.
pub open spec fn views(v: Seq<String>) -> Seq<Seq<char>> {
    v.map_values(|s: String| s@)
}

/// The characters of a string, in order.
pub fn to_chars(s: &str) -> (v: Vec<char>)
    ensures
        v@ == s@,
{
    let mut v: Vec<char> = Vec::new();
    for c in it: s.chars()
        invariant
            it.seq() == s@,
            v@ == s@.take(it.index() as int),
    {
        v.push(c);
    }
    assert(v@ =~= s@);
    v
}

/// Whether `c` is a whitespace character.
pub fn char_is_whitespace(c: char) -> (b: bool)
    ensures
        b == is_whitespace(c),
{
    ('\u{9}' <= c && c <= '\u{d}') || c == ' ' || c == '\u{85}' || c == '\u{a0}' || c
        == '\u{1680}' || ('\u{2000}' <= c && c <= '\u{200a}') || c == '\u{2028}' || c
        == '\u{2029}' || c == '\u{202f}' || c == '\u{205f}' || c == '\u{3000}'
}

/// The string without leading and trailing whitespace.
pub fn trim(s: &str) -> (r: &str)
    ensures
        r@ == spec_trim(s@),
{
    let chars = to_chars(s);
    let n: usize = chars.len();
    let mut a: usize = 0;
    while a < n && char_is_whitespace(chars[a])
        invariant
            n == chars@.len(),
            a <= n,
            forall|k: int| 0 <= k < a ==> is_whitespace(#[trigger] chars@[k]),
        decreases n - a,
    {
        a += 1;
    }
    let mut b: usize = n;
    while b > a && char_is_whitespace(chars[b - 1])
        invariant
            n == chars@.len(),
            a <= b <= n,
            forall|k: int| b <= k < n ==> is_whitespace(#[trigger] chars@[k]),
        decreases b,
    {
        b -= 1;
    }
    proof {
        let t = s@.skip(a as int);
        lemma_trim_start_at(s@, a as int);
        assert forall|k: int| b - a <= k < t.len() implies is_whitespace(#[trigger] t[k]) by {
            assert(t[k] == s@[k + a]);
        }
        lemma_trim_end_at(t, b - a);
        assert(t.take(b - a) =~= s@.subrange(a as int, b as int));
    }
    s.substring_char(a, b)
}

/// Whether the two strings hold the same characters.
pub fn str_eq(a: &str, b: &str) -> (r: bool)
    ensures
        r == (a@ == b@),
{
    let x = to_chars(a);
    let y = to_chars(b);
    if x.len() != y.len() {
        return false;
    }
    let n: usize = x.len();
    let mut i: usize = 0;
    while i < n
        invariant
            x@ == a@,
            y@ == b@,
            n == x@.len(),
            n == y@.len(),
            i <= n,
            forall|k: int| 0 <= k < i ==> x@[k] == y@[k],
        decreases n - i,
    {
        if x[i] != y[i] {
            return false;
        }
        i += 1;
    }
    assert(x@ =~= y@);
    true
}

/// Whether `s` begins with `prefix`.
pub fn starts_with(s: &str, prefix: &str) -> (r: bool)
    ensures
        r == prefix@.is_prefix_of(s@),
{
    let x = to_chars(s);
    let p = to_chars(prefix);
    if p.len() > x.len() {
        return false;
    }
    let n: usize = p.len();
    let mut i: usize = 0;
    while i < n
        invariant
            x@ == s@,
            p@ == prefix@,
            n == p@.len(),
            n <= x@.len(),
            i <= n,
            forall|k: int| 0 <= k < i ==> x@[k] == p@[k],
        decreases n - i,
    {
        if x[i] != p[i] {
            assert(x@.subrange(0, n as int)[i as int] != p@[i as int]);
            return false;
        }
        i += 1;
    }
    assert(x@.subrange(0, n as int) =~= p@);
    true
}

/// What follows `prefix` in `s`, where `s` begins with it.
pub fn strip_prefix<'a>(s: &'a str, prefix: &str) -> (r: Option<&'a str>)
    ensures
        match r {
            Some(rest) => spec_strip_prefix(s@, prefix@) == Some(rest@),
            None => spec_strip_prefix(s@, prefix@) is None,
        },
{
    if starts_with(s, prefix) {
        let n: usize = s.unicode_len();
        let k: usize = prefix.unicode_len();
        Some(s.substring_char(k, n))
    } else {
        None
    }
}

/// The position of the first `c` among the characters `v`.
pub fn find(v: &Vec<char>, c: char) -> (r: Option<usize>)
    ensures
        match r {
            Some(i) => i < v@.len() && spec_find(v@, c) == Some(i as int),
            None => spec_find(v@, c) is None,
        },
{
    let n: usize = v.len();
    let mut i: usize = 0;
    while i < n
        invariant
            n == v@.len(),
            i <= n,
            forall|k: int| 0 <= k < i ==> #[trigger] v@[k] != c,
        decreases n - i,
    {
        if v[i] == c {
            proof {
                lemma_find_at(v@, c, i as int);
            }
            return Some(i);
        }
        i += 1;
    }
    proof {
        lemma_find_none(v@, c);
    }
    None
}

/// The position of the last `c` among the characters `v`.
pub fn rfind(v: &Vec<char>, c: char) -> (r: Option<usize>)
    ensures
        match r {
            Some(i) => i < v@.len() && spec_rfind(v@, c) == Some(i as int),
            None => spec_rfind(v@, c) is None,
        },
{
    let n: usize = v.len();
    let mut i: usize = n;
    while i > 0
        invariant
            n == v@.len(),
            i <= n,
            forall|k: int| i <= k < n ==> #[trigger] v@[k] != c,
        decreases i,
    {
        if v[i - 1] == c {
            proof {
                lemma_rfind_at(v@, c, i - 1);
            }
            return Some(i - 1);
        }
        i -= 1;
    }
    proof {
        lemma_rfind_none(v@, c);
    }
    None
}

/// The parts of `s` before and after its first `c`.
pub fn split_once(s: &str, c: char) -> (r: Option<(&str, &str)>)
    ensures
        match r {
            Some((head, tail)) => spec_split_once(s@, c) == Some((head@, tail@)),
            None => spec_split_once(s@, c) is None,
        },
{
    let chars = to_chars(s);
    match find(&chars, c) {
        Some(i) => {
            let n: usize = chars.len();
            Some((s.substring_char(0, i), s.substring_char(i + 1, n)))
        },
        None => None,
    }
}

/// The whitespace-separated tokens of `s`, in order.
pub fn split_whitespace(s: &str) -> (tokens: Vec<String>)
    ensures
        views(tokens@) == spec_tokens(s@),
{
    let chars = to_chars(s);
    let n: usize = chars.len();
    let mut tokens: Vec<String> = Vec::new();
    let mut i: usize = 0;
    assert(s@.skip(0) =~= s@);
    assert(views(tokens@) + spec_tokens(s@) =~= spec_tokens(s@));
    while i < n
        invariant
            chars@ == s@,
            n == chars@.len(),
            i <= n,
            views(tokens@) + spec_tokens(s@.skip(i as int)) == spec_tokens(s@),
        decreases n - i,
    {
        if char_is_whitespace(chars[i]) {
            assert(s@.skip(i as int).drop_first() =~= s@.skip(i + 1));
            i += 1;
        } else {
            let mut j: usize = i + 1;
            while j < n && !char_is_whitespace(chars[j])
                invariant
                    n == chars@.len(),
                    i < j <= n,
                    forall|k: int| i <= k < j ==> !is_whitespace(#[trigger] chars@[k]),
                decreases n - j,
            {
                j += 1;
            }
            let word = s.substring_char(i, j).to_owned();
            proof {
                let t = s@.skip(i as int);
                assert forall|k: int| 0 <= k < j - i implies !is_whitespace(#[trigger] t[k]) by {
                    assert(t[k] == chars@[i + k]);
                }
                lemma_word_len_at(t, j - i);
                assert(t.take(j - i) =~= s@.subrange(i as int, j as int));
                assert(t.skip(j - i) =~= s@.skip(j as int));
                assert(views(tokens@.push(word)) =~= views(tokens@).push(word@));
                assert(views(tokens@).push(word@) + spec_tokens(s@.skip(j as int)) =~= views(
                    tokens@,
                ) + (seq![word@] + spec_tokens(s@.skip(j as int))));
            }
            tokens.push(word);
            i = j;
        }
    }
    assert(views(tokens@) + Seq::<Seq<char>>::empty() =~= views(tokens@));
    tokens
}

/// The strings joined by single spaces.
pub fn join(parts: &Vec<String>) -> (r: String)
    ensures
        r@ == spec_join(views(parts@)),
{
    let mut out = String::new();
    let n: usize = parts.len();
    let mut i: usize = 0;
    while i < n
        invariant
            n == parts@.len(),
            i <= n,
            out@ == spec_join(views(parts@).take(i as int)),
        decreases n - i,
    {
        proof {
            reveal_strlit(" ");
            let next = views(parts@).take(i + 1);
            assert(next.drop_last() =~= views(parts@).take(i as int));
            assert(next.last() == parts@[i as int]@);
            if i > 0 {
                assert(" "@ =~= seq![' ']);
            } else {
                assert(Seq::<char>::empty() + parts@[i as int]@ =~= parts@[i as int]@);
            }
        }
        if i > 0 {
            out.append(" ");
        }
        out.append(parts[i].as_str());
        i += 1;
    }
    assert(views(parts@).take(n as int) =~= views(parts@));
    out
}

/// Whether `a` comes no later than `b` in lexicographic order.
pub fn str_le(a: &str, b: &str) -> (r: bool)
    ensures
        r == lex_le(a@, b@),
{
    let x = to_chars(a);
    let y = to_chars(b);
    let n: usize = x.len();
    let m: usize = y.len();
    let mut i: usize = 0;
    assert(a@.skip(0) =~= a@);
    assert(b@.skip(0) =~= b@);
    while i < n && i < m
        invariant
            x@ == a@,
            y@ == b@,
            n == x@.len(),
            m == y@.len(),
            i <= n,
            i <= m,
            lex_le(a@, b@) == lex_le(a@.skip(i as int), b@.skip(i as int)),
        decreases n - i,
    {
        if x[i] != y[i] {
            return x[i] < y[i];
        }
        assert(a@.skip(i as int).drop_first() =~= a@.skip(i + 1));
        assert(b@.skip(i as int).drop_first() =~= b@.skip(i + 1));
        i += 1;
    }
    i == n
}

/// A whitespace-free prefix is no longer than the text, and not empty where
/// the text begins with a character that is no whitespace.
pub proof fn lemma_word_len_bounds(s: Seq<char>)
    ensures
        spec_word_len(s) <= s.len(),
        s.len() > 0 && !is_whitespace(s[0]) ==> spec_word_len(s) >= 1,
    decreases s.len(),
{
    if s.len() > 0 && !is_whitespace(s[0]) {
        lemma_word_len_bounds(s.drop_first());
    }
}

/// The first `a` characters are whitespace and the next one is not:
/// trimming the start removes exactly those `a`.
pub proof fn lemma_trim_start_at(s: Seq<char>, a: int)
    requires
        0 <= a <= s.len(),
        forall|k: int| 0 <= k < a ==> is_whitespace(#[trigger] s[k]),
        a == s.len() || !is_whitespace(s[a]),
    ensures
        spec_trim_start(s) == s.skip(a),
    decreases a,
{
    if a == 0 {
        assert(s.skip(0) =~= s);
    } else {
        let t = s.drop_first();
        assert forall|k: int| 0 <= k < a - 1 implies is_whitespace(#[trigger] t[k]) by {
            assert(t[k] == s[k + 1]);
        }
        lemma_trim_start_at(t, a - 1);
        assert(t.skip(a - 1) =~= s.skip(a));
    }
}

/// The characters from `b` on are whitespace and the one before is not:
/// trimming the end keeps exactly the first `b`.
pub proof fn lemma_trim_end_at(s: Seq<char>, b: int)
    requires
        0 <= b <= s.len(),
        forall|k: int| b <= k < s.len() ==> is_whitespace(#[trigger] s[k]),
        b == 0 || !is_whitespace(s[b - 1]),
    ensures
        spec_trim_end(s) == s.take(b),
    decreases s.len() - b,
{
    if b == s.len() {
        assert(s.take(b) =~= s);
    } else {
        let t = s.drop_last();
        lemma_trim_end_at(t, b);
        assert(t.take(b) =~= s.take(b));
    }
}

/// Trimming the start removes a run of whitespace and nothing else, and
/// what is left does not begin with whitespace.
pub proof fn lemma_trim_start_removes_whitespace(s: Seq<char>)
    ensures
        spec_trim_start(s).len() <= s.len(),
        spec_trim_start(s) == s.skip(s.len() - spec_trim_start(s).len()),
        forall|k: int|
            0 <= k < s.len() - spec_trim_start(s).len() ==> is_whitespace(#[trigger] s[k]),
        spec_trim_start(s).len() == 0 || !is_whitespace(spec_trim_start(s)[0]),
    decreases s.len(),
{
    if s.len() > 0 && is_whitespace(s[0]) {
        let t = s.drop_first();
        lemma_trim_start_removes_whitespace(t);
        let a = t.len() - spec_trim_start(t).len();
        assert(t.skip(a) =~= s.skip(a + 1));
        assert forall|k: int| 0 <= k < a + 1 implies is_whitespace(#[trigger] s[k]) by {
            if k > 0 {
                assert(s[k] == t[k - 1]);
            }
        }
    } else {
        assert(s.skip(0) =~= s);
    }
}

/// Trimming the end removes a run of whitespace and nothing else, and what
/// is left does not end with whitespace.
pub proof fn lemma_trim_end_removes_whitespace(s: Seq<char>)
    ensures
        spec_trim_end(s).len() <= s.len(),
        spec_trim_end(s) == s.take(spec_trim_end(s).len() as int),
        forall|k: int| spec_trim_end(s).len() <= k < s.len() ==> is_whitespace(#[trigger] s[k]),
        spec_trim_end(s).len() == 0 || !is_whitespace(spec_trim_end(s).last()),
    decreases s.len(),
{
    if s.len() > 0 && is_whitespace(s.last()) {
        let t = s.drop_last();
        lemma_trim_end_removes_whitespace(t);
        let b = spec_trim_end(t).len() as int;
        assert(t.take(b) =~= s.take(b));
        assert forall|k: int| b <= k < s.len() implies is_whitespace(#[trigger] s[k]) by {
            if k < t.len() {
                assert(s[k] == t[k]);
            }
        }
    } else {
        assert(s.take(s.len() as int) =~= s);
    }
}

/// Trimming leaves a text that neither begins nor ends with whitespace.
pub proof fn lemma_trim_has_no_outer_whitespace(s: Seq<char>)
    ensures
        spec_trim(s).len() == 0 || (!is_whitespace(spec_trim(s)[0]) && !is_whitespace(
            spec_trim(s).last(),
        )),
{
    let t = spec_trim_start(s);
    lemma_trim_start_removes_whitespace(s);
    lemma_trim_end_removes_whitespace(t);
    if spec_trim(s).len() > 0 {
        assert(spec_trim(s)[0] == t[0]);
    }
}

/// A text that neither begins nor ends with whitespace is its own trimmed
/// form.
pub proof fn lemma_trim_of_trimmed(s: Seq<char>)
    requires
        s.len() == 0 || (!is_whitespace(s[0]) && !is_whitespace(s.last())),
    ensures
        spec_trim(s) == s,
{
}

/// Whitespace after a text that does not end with whitespace is trimmed
/// away without touching the text.
pub proof fn lemma_trim_end_after(head: Seq<char>, tail: Seq<char>)
    requires
        head.len() > 0,
        !is_whitespace(head.last()),
    ensures
        spec_trim_end(head + tail) == head + spec_trim_end(tail),
    decreases tail.len(),
{
    if tail.len() == 0 {
        assert(head + tail =~= head);
        assert(head + spec_trim_end(tail) =~= head);
    } else if is_whitespace(tail.last()) {
        assert((head + tail).last() == tail.last());
        assert((head + tail).drop_last() =~= head + tail.drop_last());
        lemma_trim_end_after(head, tail.drop_last());
    } else {
        assert((head + tail).last() == tail.last());
    }
}

/// Trimming both sides after trimming the end gives what trimming both
/// sides gives.
pub proof fn lemma_trim_after_trim_end(s: Seq<char>)
    ensures
        spec_trim(spec_trim_end(s)) == spec_trim(s),
{
    lemma_trim_start_removes_whitespace(s);
    lemma_trim_end_removes_whitespace(s);
    let a = s.len() - spec_trim_start(s).len();
    let b = spec_trim_end(s).len() as int;
    let front = s.take(b);
    if a >= b {
        assert forall|k: int| 0 <= k < front.len() implies is_whitespace(#[trigger] front[k]) by {
            assert(front[k] == s[k]);
        }
        lemma_trim_start_at(front, b);
        assert(front.skip(b) =~= Seq::<char>::empty());
        assert(b == 0 || is_whitespace(s[b - 1]));
        assert(b == 0);
        let back = s.skip(a);
        assert forall|k: int| 0 <= k < back.len() implies is_whitespace(#[trigger] back[k]) by {
            assert(back[k] == s[k + a]);
        }
        assert(back.len() == 0 || is_whitespace(back[0]));
        assert(back.len() == 0);
    } else {
        assert forall|k: int| 0 <= k < a implies is_whitespace(#[trigger] front[k]) by {
            assert(front[k] == s[k]);
        }
        assert(front[a] == s[a]);
        assert(spec_trim_start(s)[0] == s[a]);
        lemma_trim_start_at(front, a);
        let middle = front.skip(a);
        assert(middle =~= s.subrange(a, b));
        assert(middle.last() == s[b - 1]);
        assert(spec_trim_end(s).last() == s[b - 1]);
        let back = s.skip(a);
        assert forall|k: int| b - a <= k < back.len() implies is_whitespace(#[trigger] back[k]) by {
            assert(back[k] == s[k + a]);
        }
        assert(back[b - a - 1] == s[b - 1]);
        lemma_trim_end_at(back, b - a);
        assert(back.take(b - a) =~= s.subrange(a, b));
    }
}

/// Every token is a run of characters that are no whitespace, and is not
/// empty.
pub proof fn lemma_tokens_hold_no_whitespace(s: Seq<char>, i: int)
    requires
        0 <= i < spec_tokens(s).len(),
    ensures
        spec_tokens(s)[i].len() > 0,
        forall|k: int| 0 <= k < spec_tokens(s)[i].len() ==> !is_whitespace(
            #[trigger] spec_tokens(s)[i][k],
        ),
    decreases s.len(),
{
    if s.len() == 0 {
    } else if is_whitespace(s[0]) {
        lemma_tokens_hold_no_whitespace(s.drop_first(), i);
    } else {
        lemma_word_len_bounds(s);
        let n = spec_word_len(s) as int;
        if i == 0 {
            lemma_word_holds_no_whitespace(s);
        } else {
            lemma_tokens_hold_no_whitespace(s.skip(n), i - 1);
        }
    }
}

/// The longest whitespace-free prefix holds no whitespace.
pub proof fn lemma_word_holds_no_whitespace(s: Seq<char>)
    ensures
        forall|k: int| 0 <= k < spec_word_len(s) ==> !is_whitespace(#[trigger] s[k]),
    decreases s.len(),
{
    if s.len() > 0 && !is_whitespace(s[0]) {
        let t = s.drop_first();
        lemma_word_holds_no_whitespace(t);
        lemma_word_len_bounds(s);
        assert forall|k: int| 0 <= k < spec_word_len(s) implies !is_whitespace(#[trigger] s[k]) by {
            if k > 0 {
                assert(s[k] == t[k - 1]);
            }
        }
    }
}

/// The first `n` characters are no whitespace and the next one is.
pub proof fn lemma_word_len_at(s: Seq<char>, n: int)
    requires
        0 <= n <= s.len(),
        forall|k: int| 0 <= k < n ==> !is_whitespace(#[trigger] s[k]),
        n == s.len() || is_whitespace(s[n]),
    ensures
        spec_word_len(s) == n,
    decreases n,
{
    if n > 0 {
        let t = s.drop_first();
        assert forall|k: int| 0 <= k < n - 1 implies !is_whitespace(#[trigger] t[k]) by {
            assert(t[k] == s[k + 1]);
        }
        lemma_word_len_at(t, n - 1);
    }
}

/// `i` is the position of the first `c` in `s`.
pub proof fn lemma_find_at(s: Seq<char>, c: char, i: int)
    requires
        0 <= i < s.len(),
        s[i] == c,
        forall|k: int| 0 <= k < i ==> #[trigger] s[k] != c,
    ensures
        spec_find(s, c) == Some(i),
    decreases i,
{
    if i > 0 {
        let t = s.drop_first();
        assert forall|k: int| 0 <= k < i - 1 implies #[trigger] t[k] != c by {
            assert(t[k] == s[k + 1]);
        }
        lemma_find_at(t, c, i - 1);
    }
}

/// No `c` occurs in `s`.
pub proof fn lemma_find_none(s: Seq<char>, c: char)
    requires
        forall|k: int| 0 <= k < s.len() ==> #[trigger] s[k] != c,
    ensures
        spec_find(s, c) is None,
    decreases s.len(),
{
    if s.len() > 0 {
        let t = s.drop_first();
        assert forall|k: int| 0 <= k < t.len() implies #[trigger] t[k] != c by {
            assert(t[k] == s[k + 1]);
        }
        lemma_find_none(t, c);
    }
}

/// `i` is the position of the last `c` in `s`.
pub proof fn lemma_rfind_at(s: Seq<char>, c: char, i: int)
    requires
        0 <= i < s.len(),
        s[i] == c,
        forall|k: int| i < k < s.len() ==> #[trigger] s[k] != c,
    ensures
        spec_rfind(s, c) == Some(i),
    decreases s.len(),
{
    if i < s.len() - 1 {
        lemma_rfind_at(s.drop_last(), c, i);
    }
}

/// No `c` occurs in `s`.
pub proof fn lemma_rfind_none(s: Seq<char>, c: char)
    requires
        forall|k: int| 0 <= k < s.len() ==> #[trigger] s[k] != c,
    ensures
        spec_rfind(s, c) is None,
    decreases s.len(),
{
    if s.len() > 0 {
        lemma_rfind_none(s.drop_last(), c);
    }
}

/// `lex_le` holds of every sequence and itself.
pub proof fn lemma_lex_le_reflexive(a: Seq<char>)
    ensures
        lex_le(a, a),
    decreases a.len(),
{
    if a.len() > 0 {
        lemma_lex_le_reflexive(a.drop_first());
    }
}

/// Of two sequences one is below the other.
pub proof fn lemma_lex_le_total(a: Seq<char>, b: Seq<char>)
    ensures
        lex_le(a, b) || lex_le(b, a),
    decreases a.len(),
{
    if a.len() > 0 && b.len() > 0 && a[0] == b[0] {
        lemma_lex_le_total(a.drop_first(), b.drop_first());
    }
}

/// Two sequences that are below each other are equal.
pub proof fn lemma_lex_le_antisymmetric(a: Seq<char>, b: Seq<char>)
    requires
        lex_le(a, b),
        lex_le(b, a),
    ensures
        a == b,
    decreases a.len(),
{
    if a.len() == 0 {
        assert(b.len() == 0);
        assert(a =~= b);
    } else {
        assert(b.len() > 0);
        assert(a[0] == b[0]);
        let x = a.drop_first();
        let y = b.drop_first();
        lemma_lex_le_antisymmetric(x, y);
        assert(a.len() == b.len());
        assert forall|i: int| 0 <= i < a.len() implies a[i] == b[i] by {
            if i > 0 {
                assert(a[i] == x[i - 1]);
                assert(b[i] == y[i - 1]);
            }
        }
        assert(a =~= b);
    }
}

/// `lex_le` is transitive.
pub proof fn lemma_lex_le_transitive(a: Seq<char>, b: Seq<char>, c: Seq<char>)
    requires
        lex_le(a, b),
        lex_le(b, c),
    ensures
        lex_le(a, c),
    decreases a.len(),
{
    if a.len() > 0 && b.len() > 0 && c.len() > 0 && a[0] == b[0] && b[0] == c[0] {
        lemma_lex_le_transitive(a.drop_first(), b.drop_first(), c.drop_first());
    }
}

} // verus!
