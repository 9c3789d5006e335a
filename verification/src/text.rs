//! Character-level text model: Unicode white space, trimming, searching.
//!
//! Strings are modelled by their views, sequences of `char`; every exec
//! function here states its result over those sequences.
use vstd::prelude::*;
use vstd::utf8::encode_utf8;

verus! {

/// Unicode `White_Space`, the property that `char::is_whitespace`,
/// `str::trim` and `str::trim_end` go by.
pub open spec fn is_white_space(c: char) -> bool {
    let u = c as u32;
    ||| 0x09 <= u <= 0x0D
    ||| u == 0x20
    ||| u == 0x85
    ||| u == 0xA0
    ||| u == 0x1680
    ||| 0x2000 <= u <= 0x200A
    ||| u == 0x2028
    ||| u == 0x2029
    ||| u == 0x202F
    ||| u == 0x205F
    ||| u == 0x3000
}

/// `is_white_space` as a predicate value.
pub open spec fn white_space() -> spec_fn(char) -> bool {
    |c: char| is_white_space(c)
}

/// The predicate "is not `c`".
pub open spec fn other_than(c: char) -> spec_fn(char) -> bool {
    |x: char| x != c
}

/// The predicate "is `c`".
pub open spec fn same_as(c: char) -> spec_fn(char) -> bool {
    |x: char| x == c
}

/// Length of the longest prefix of `s` whose characters all satisfy `p`.
pub open spec fn prefix_len_while(s: Seq<char>, p: spec_fn(char) -> bool) -> nat
    decreases s.len(),
{
    if s.len() > 0 && p(s[0]) {
        1 + prefix_len_while(s.drop_first(), p)
    } else {
        0
    }
}

/// Length of the longest suffix of `s` whose characters all satisfy `p`.
pub open spec fn suffix_len_while(s: Seq<char>, p: spec_fn(char) -> bool) -> nat
    decreases s.len(),
{
    if s.len() > 0 && p(s.last()) {
        1 + suffix_len_while(s.drop_last(), p)
    } else {
        0
    }
}

/// `s` without its leading white space.
pub open spec fn trim_start(s: Seq<char>) -> Seq<char> {
    s.skip(prefix_len_while(s, white_space()) as int)
}

/// `s` without its trailing white space (`str::trim_end`).
pub open spec fn trim_end(s: Seq<char>) -> Seq<char> {
    s.take(s.len() - suffix_len_while(s, white_space()))
}

/// `s` without leading and trailing white space (`str::trim`).
pub open spec fn trim(s: Seq<char>) -> Seq<char> {
    trim_end(trim_start(s))
}

/// `s` without any trailing `c` (`str::trim_end_matches` with a `char`).
pub open spec fn trim_end_char(s: Seq<char>, c: char) -> Seq<char> {
    s.take(s.len() - suffix_len_while(s, same_as(c)))
}

/// Index of the first `c` in `s`, if there is one (`str::find` with a `char`).
pub open spec fn find_char(s: Seq<char>, c: char) -> Option<int> {
    let n = prefix_len_while(s, other_than(c));
    if n < s.len() {
        Some(n as int)
    } else {
        None
    }
}

/// Index of the last `c` in `s`, if there is one (`str::rfind` with a `char`).
pub open spec fn rfind_char(s: Seq<char>, c: char) -> Option<int> {
    let n = suffix_len_while(s, other_than(c));
    if n < s.len() {
        Some(s.len() - 1 - n)
    } else {
        None
    }
}

/// `pat` occurs in `s` starting at index `i`.
pub open spec fn occurs_at(s: Seq<char>, pat: Seq<char>, i: int) -> bool {
    0 <= i && i + pat.len() <= s.len() && s.subrange(i, i + pat.len()) == pat
}

/// `pat` occurs somewhere in `s` (`str::contains`).
pub open spec fn contains_seq(s: Seq<char>, pat: Seq<char>) -> bool {
    exists|i: int| occurs_at(s, pat, i)
}

/// `s` begins with `pat` (`str::starts_with`).
pub open spec fn starts_with(s: Seq<char>, pat: Seq<char>) -> bool {
    pat.len() <= s.len() && s.take(pat.len() as int) == pat
}

/// `s` ends with `pat` (`str::ends_with`).
pub open spec fn ends_with(s: Seq<char>, pat: Seq<char>) -> bool {
    pat.len() <= s.len() && s.skip(s.len() - pat.len()) == pat
}

/// The first line of `s`: everything before the first `'\n'`.
pub open spec fn first_line(s: Seq<char>) -> Seq<char> {
    s.take(prefix_len_while(s, other_than('\n')) as int)
}

/// ASCII letters folded to lower case; every other character is kept.
pub open spec fn ascii_lower(c: char) -> char {
    if 'A' <= c <= 'Z' {
        ((c as u32) + 32) as char
    } else {
        c
    }
}

/// `s` equals `target` once ASCII letters are folded to lower case.
pub open spec fn folds_to(s: Seq<char>, target: Seq<char>) -> bool {
    s.len() == target.len() && forall|i: int| 0 <= i < s.len() ==> ascii_lower(#[trigger] s[i]) == target[i]
}

/// A prefix run is `i` long when its first `i` characters pass `p` and the next fails it.
pub proof fn lemma_prefix_len_while_is(s: Seq<char>, p: spec_fn(char) -> bool, i: int)
    requires
        0 <= i <= s.len(),
        forall|k: int| 0 <= k < i ==> p(#[trigger] s[k]),
        i < s.len() ==> !p(s[i]),
    ensures
        prefix_len_while(s, p) == i,
    decreases i,
{
    if i > 0 {
        assert forall|k: int| 0 <= k < i - 1 implies p(#[trigger] s.drop_first()[k]) by {
            assert(s.drop_first()[k] == s[k + 1]);
        }
        lemma_prefix_len_while_is(s.drop_first(), p, i - 1);
    }
}

/// The characters of a prefix run pass `p`, and the one after it (if any) fails it.
pub proof fn lemma_prefix_len_while_facts(s: Seq<char>, p: spec_fn(char) -> bool)
    ensures
        prefix_len_while(s, p) <= s.len(),
        forall|k: int| 0 <= k < prefix_len_while(s, p) ==> p(#[trigger] s[k]),
        prefix_len_while(s, p) < s.len() ==> !p(s[prefix_len_while(s, p) as int]),
    decreases s.len(),
{
    if s.len() > 0 && p(s[0]) {
        lemma_prefix_len_while_facts(s.drop_first(), p);
        assert forall|k: int| 0 <= k < prefix_len_while(s, p) implies p(#[trigger] s[k]) by {
            if k > 0 {
                assert(s[k] == s.drop_first()[k - 1]);
            }
        }
    }
}

/// A suffix run is `n` long when the last `n` characters pass `p` and the one before fails it.
pub proof fn lemma_suffix_len_while_is(s: Seq<char>, p: spec_fn(char) -> bool, n: int)
    requires
        0 <= n <= s.len(),
        forall|k: int| s.len() - n <= k < s.len() ==> p(#[trigger] s[k]),
        n < s.len() ==> !p(s[s.len() - 1 - n]),
    ensures
        suffix_len_while(s, p) == n,
    decreases n,
{
    if n > 0 {
        let t = s.drop_last();
        assert forall|k: int| t.len() - (n - 1) <= k < t.len() implies p(#[trigger] t[k]) by {
            assert(t[k] == s[k]);
        }
        if n - 1 < t.len() {
            assert(t[t.len() - 1 - (n - 1)] == s[s.len() - 1 - n]);
        }
        lemma_suffix_len_while_is(t, p, n - 1);
    }
}

/// The characters of a suffix run pass `p`, and the one before it (if any) fails it.
pub proof fn lemma_suffix_len_while_facts(s: Seq<char>, p: spec_fn(char) -> bool)
    ensures
        suffix_len_while(s, p) <= s.len(),
        forall|k: int| s.len() - suffix_len_while(s, p) <= k < s.len() ==> p(#[trigger] s[k]),
        suffix_len_while(s, p) < s.len() ==> !p(s[s.len() - 1 - suffix_len_while(s, p)]),
    decreases s.len(),
{
    if s.len() > 0 && p(s.last()) {
        let t = s.drop_last();
        lemma_suffix_len_while_facts(t, p);
        assert forall|k: int| s.len() - suffix_len_while(s, p) <= k < s.len() implies p(
            #[trigger] s[k],
        ) by {
            if k < s.len() - 1 {
                assert(s[k] == t[k]);
            }
        }
        if suffix_len_while(s, p) < s.len() {
            assert(s[s.len() - 1 - suffix_len_while(s, p)] == t[t.len() - 1 - suffix_len_while(t, p)]);
        }
    }
}

/// The characters of `s`, in order.
pub fn chars_of(s: &str) -> (v: Vec<char>)
    ensures
        v@ == s@,
{
    let mut v: Vec<char> = Vec::new();
    for c in it: s.chars()
        invariant
            v@ == it.seq().take(it.index() as int),
    {
        v.push(c);
    }
    v
}

/// Whether `c` is Unicode white space.
pub fn is_white_space_char(c: char) -> (b: bool)
    ensures
        b == is_white_space(c),
{
    let u = c as u32;
    (0x09 <= u && u <= 0x0D) || u == 0x20 || u == 0x85 || u == 0xA0 || u == 0x1680 || (0x2000
        <= u && u <= 0x200A) || u == 0x2028 || u == 0x2029 || u == 0x202F || u == 0x205F || u
        == 0x3000
}

/// Index of the first character of `v[from..]` that is not white space, or `v.len()`.
fn skip_white_space(v: &Vec<char>, from: usize) -> (i: usize)
    requires
        from <= v.len(),
    ensures
        from <= i <= v.len(),
        i - from == prefix_len_while(v@.skip(from as int), white_space()),
{
    let mut i = from;
    while i < v.len() && is_white_space_char(v[i])
        invariant
            from <= i <= v.len(),
            forall|k: int| from <= k < i ==> is_white_space(#[trigger] v@[k]),
        decreases v.len() - i,
    {
        i = i + 1;
    }
    proof {
        let t = v@.skip(from as int);
        assert forall|k: int| 0 <= k < i - from implies white_space()(#[trigger] t[k]) by {
            assert(t[k] == v@[k + from]);
        }
        lemma_prefix_len_while_is(t, white_space(), i - from);
    }
    i
}

/// End of `v[from..to]` once its trailing white space is dropped.
fn back_over_white_space(v: &Vec<char>, from: usize, to: usize) -> (j: usize)
    requires
        from <= to <= v.len(),
    ensures
        from <= j <= to,
        to - j == suffix_len_while(v@.subrange(from as int, to as int), white_space()),
{
    let mut j = to;
    while j > from && is_white_space_char(v[j - 1])
        invariant
            from <= j <= to <= v.len(),
            forall|k: int| j <= k < to ==> is_white_space(#[trigger] v@[k]),
        decreases j,
    {
        j = j - 1;
    }
    proof {
        let t = v@.subrange(from as int, to as int);
        assert forall|k: int| t.len() - (to - j) <= k < t.len() implies white_space()(
            #[trigger] t[k],
        ) by {
            assert(t[k] == v@[k + from]);
        }
        if to - j < t.len() {
            assert(t[t.len() - 1 - (to - j)] == v@[j - 1]);
        }
        lemma_suffix_len_while_is(t, white_space(), to - j);
    }
    j
}

/// `s` without leading and trailing white space.
pub fn trim_str(s: &str) -> (r: &str)
    ensures
        r@ == trim(s@),
{
    let v = chars_of(s);
    let a = skip_white_space(&v, 0);
    let b = back_over_white_space(&v, a, v.len());
    proof {
        assert(v@.skip(0) == v@);
        assert(v@.subrange(a as int, v.len() as int) == trim_start(s@));
    }
    s.substring_char(a, b)
}

/// `s` without trailing white space.
pub fn trim_end_str(s: &str) -> (r: &str)
    ensures
        r@ == trim_end(s@),
{
    let v = chars_of(s);
    let b = back_over_white_space(&v, 0, v.len());
    proof {
        assert(v@.subrange(0, v.len() as int) == s@);
    }
    s.substring_char(0, b)
}


/// The predicate "is `c`" when `equal`, else "is not `c`".
pub open spec fn char_test(c: char, equal: bool) -> spec_fn(char) -> bool {
    if equal {
        same_as(c)
    } else {
        other_than(c)
    }
}

/// Length of the longest prefix of `v` that passes `char_test(c, equal)`.
fn prefix_run(v: &Vec<char>, c: char, equal: bool) -> (n: usize)
    ensures
        n == prefix_len_while(v@, char_test(c, equal)),
{
    let mut i: usize = 0;
    while i < v.len() && ((v[i] == c) == equal)
        invariant
            i <= v.len(),
            forall|k: int| 0 <= k < i ==> char_test(c, equal)(#[trigger] v@[k]),
        decreases v.len() - i,
    {
        i = i + 1;
    }
    proof {
        lemma_prefix_len_while_is(v@, char_test(c, equal), i as int);
    }
    i
}

/// Length of the longest suffix of `v` that passes `char_test(c, equal)`.
fn suffix_run(v: &Vec<char>, c: char, equal: bool) -> (n: usize)
    ensures
        n == suffix_len_while(v@, char_test(c, equal)),
{
    let mut j: usize = v.len();
    while j > 0 && ((v[j - 1] == c) == equal)
        invariant
            j <= v.len(),
            forall|k: int| j <= k < v.len() ==> char_test(c, equal)(#[trigger] v@[k]),
        decreases j,
    {
        j = j - 1;
    }
    proof {
        lemma_suffix_len_while_is(v@, char_test(c, equal), v.len() - j);
    }
    v.len() - j
}

/// `s` without any trailing `c`.
pub fn trim_end_char_str(s: &str, c: char) -> (r: &str)
    ensures
        r@ == trim_end_char(s@, c),
{
    let v = chars_of(s);
    let n = suffix_run(&v, c, true);
    proof {
        lemma_suffix_len_while_facts(v@, same_as(c));
    }
    s.substring_char(0, v.len() - n)
}

/// Index of the first `c` in `v`.
pub fn find_char_in(v: &Vec<char>, c: char) -> (r: Option<usize>)
    ensures
        match r {
            Some(i) => find_char(v@, c) == Some(i as int),
            None => find_char(v@, c) is None,
        },
{
    let n = prefix_run(v, c, false);
    if n < v.len() {
        Some(n)
    } else {
        None
    }
}

/// Index of the last `c` in `v`.
pub fn rfind_char_in(v: &Vec<char>, c: char) -> (r: Option<usize>)
    ensures
        match r {
            Some(i) => rfind_char(v@, c) == Some(i as int),
            None => rfind_char(v@, c) is None,
        },
{
    let n = suffix_run(v, c, false);
    if n < v.len() {
        Some(v.len() - 1 - n)
    } else {
        None
    }
}

/// Whether `pat` occurs in `v` at index `i`.
fn occurs_at_in(v: &Vec<char>, pat: &Vec<char>, i: usize) -> (b: bool)
    requires
        i <= v.len(),
    ensures
        b == occurs_at(v@, pat@, i as int),
{
    if pat.len() > v.len() - i {
        return false;
    }
    let mut k: usize = 0;
    while k < pat.len()
        invariant
            k <= pat.len(),
            i + pat.len() <= v.len(),
            forall|m: int| 0 <= m < k ==> v@[i + m] == pat@[m],
        decreases pat.len() - k,
    {
        if v[i + k] != pat[k] {
            assert(v@.subrange(i as int, i + pat.len())[k as int] != pat@[k as int]);
            return false;
        }
        k = k + 1;
    }
    assert(v@.subrange(i as int, i + pat.len()) == pat@);
    true
}

/// Whether `pat` occurs anywhere in `v`.
pub fn contains_in(v: &Vec<char>, pat: &Vec<char>) -> (b: bool)
    ensures
        b == contains_seq(v@, pat@),
{
    let mut i: usize = 0;
    while i < v.len()
        invariant
            i <= v.len(),
            forall|k: int| 0 <= k < i ==> !occurs_at(v@, pat@, k),
        decreases v.len() - i,
    {
        if occurs_at_in(v, pat, i) {
            return true;
        }
        i = i + 1;
    }
    if occurs_at_in(v, pat, i) {
        return true;
    }
    assert forall|k: int| !occurs_at(v@, pat@, k) by {
        if 0 <= k <= i {
        }
    }
    false
}

/// Whether `v` begins with `pat`.
pub fn starts_with_in(v: &Vec<char>, pat: &Vec<char>) -> (b: bool)
    ensures
        b == starts_with(v@, pat@),
{
    let r = occurs_at_in(v, pat, 0);
    proof {
        if pat.len() <= v.len() {
            assert(v@.subrange(0, pat.len() as int) == v@.take(pat.len() as int));
        }
    }
    r
}

/// Whether `v` ends with `pat`.
pub fn ends_with_in(v: &Vec<char>, pat: &Vec<char>) -> (b: bool)
    ensures
        b == ends_with(v@, pat@),
{
    if pat.len() > v.len() {
        return false;
    }
    let r = occurs_at_in(v, pat, v.len() - pat.len());
    proof {
        assert(v@.subrange(v.len() - pat.len(), v.len() - pat.len() + pat.len()) == v@.skip(
            v.len() - pat.len(),
        ));
    }
    r
}

/// Whether `v` equals `target` once ASCII letters are folded to lower case.
pub fn folds_to_in(v: &Vec<char>, target: &Vec<char>) -> (b: bool)
    ensures
        b == folds_to(v@, target@),
{
    if v.len() != target.len() {
        return false;
    }
    let mut i: usize = 0;
    while i < v.len()
        invariant
            i <= v.len() == target.len(),
            forall|k: int| 0 <= k < i ==> ascii_lower(#[trigger] v@[k]) == target@[k],
        decreases v.len() - i,
    {
        let c = v[i];
        let lower = if 'A' <= c && c <= 'Z' {
            char_from_ascii_offset(c)
        } else {
            c
        };
        if lower != target[i] {
            return false;
        }
        i = i + 1;
    }
    true
}

/// The lower-case letter for the upper-case ASCII letter `c`.
fn char_from_ascii_offset(c: char) -> (r: char)
    requires
        'A' <= c <= 'Z',
    ensures
        r == ascii_lower(c),
{
    let u = (c as u32) + 32;
    let b = u as u8;
    b as char
}


/// `s` cut to at most `max_chars` characters: when it is longer, its first
/// `max_chars - 1` characters (none when `max_chars` is 0) followed by `'…'`.
pub open spec fn truncate_chars(s: Seq<char>, max_chars: nat) -> Seq<char> {
    if s.len() <= max_chars {
        s
    } else {
        s.take(if max_chars >= 1 {
            max_chars - 1
        } else {
            0
        }) + seq!['…']
    }
}

/// `s` cut to at most `max_chars` characters, marking a cut with `'…'`.
pub fn truncate_str(s: &str, max_chars: usize) -> (r: String)
    ensures
        r@ == truncate_chars(s@, max_chars as nat),
{
    let n = s.unicode_len();
    if n <= max_chars {
        String::from_str(s)
    } else {
        let keep = if max_chars >= 1 {
            max_chars - 1
        } else {
            0
        };
        let head = s.substring_char(0, keep);
        proof {
            reveal_strlit("…");
        }
        String::from_str(head).concat("…")
    }
}


/// A trimmed text is empty or starts and ends with a character that is not white space.
pub proof fn lemma_trim_ends(s: Seq<char>)
    ensures
        trim(s).len() > 0 ==> !is_white_space(trim(s)[0]),
        trim(s).len() > 0 ==> !is_white_space(trim(s).last()),
        trim(s).len() <= s.len(),
{
    let a = prefix_len_while(s, white_space());
    lemma_prefix_len_while_facts(s, white_space());
    let u = trim_start(s);
    let b = suffix_len_while(u, white_space());
    lemma_suffix_len_while_facts(u, white_space());
    let t = trim(s);
    if t.len() > 0 {
        assert(t[0] == u[0]);
        assert(u[0] == s[a as int]);
        assert(t.last() == u[u.len() - 1 - b]);
    }
}

/// A text that is empty or starts and ends with non-white-space is its own trim.
pub proof fn lemma_trim_fixed(t: Seq<char>)
    requires
        t.len() > 0 ==> !is_white_space(t[0]) && !is_white_space(t.last()),
    ensures
        trim(t) == t,
        trim_start(t) == t,
        trim_end(t) == t,
{
    lemma_prefix_len_while_is(t, white_space(), 0);
    assert(t.skip(0) == t);
    lemma_suffix_len_while_is(t, white_space(), 0);
    assert(t.take(t.len() as int) == t);
}

/// Trimming twice is trimming once.
pub proof fn trim_is_idempotent(s: Seq<char>)
    ensures
        trim(trim(s)) == trim(s),
{
    lemma_trim_ends(s);
    lemma_trim_fixed(trim(s));
}

/// Cutting never leaves more than `max_chars` characters (one, the `'…'`, when
/// `max_chars` is 0), and cutting a cut text changes nothing.
pub proof fn truncate_is_idempotent(s: Seq<char>, max_chars: nat)
    ensures
        truncate_chars(s, max_chars).len() <= (if max_chars >= 1 {
            max_chars
        } else {
            1
        }),
        truncate_chars(truncate_chars(s, max_chars), max_chars) == truncate_chars(s, max_chars),
{
    let r = truncate_chars(s, max_chars);
    if s.len() > max_chars && max_chars == 0 {
        assert(r == seq!['…']);
        assert(r.take(0) + seq!['…'] == r);
    }
}


/// The first line of `s`: everything before the first `'\n'`.
pub fn first_line_str(s: &str) -> (r: &str)
    ensures
        r@ == first_line(s@),
{
    let v = chars_of(s);
    let n = prefix_run(&v, '\n', false);
    proof {
        lemma_prefix_len_while_facts(v@, other_than('\n'));
    }
    s.substring_char(0, n)
}

/// Number of bytes in the UTF-8 encoding of `c`.
pub open spec fn utf8_width(c: char) -> nat {
    encode_utf8(seq![c]).len()
}

proof fn lemma_utf8_width(c: char)
    ensures
        utf8_width(c) == (if (c as u32) <= 0x7F {
            1nat
        } else if (c as u32) <= 0x7FF {
            2nat
        } else if (c as u32) <= 0xFFFF {
            3nat
        } else {
            4nat
        }),
{
    broadcast use vstd::utf8::char_is_scalar;

    reveal_with_fuel(encode_utf8, 2);
    assert(seq![c].drop_first() == Seq::<char>::empty());
}

proof fn lemma_encode_utf8_push(s: Seq<char>, c: char)
    ensures
        encode_utf8(s.push(c)).len() == encode_utf8(s).len() + utf8_width(c),
    decreases s.len(),
{
    if s.len() == 0 {
        assert(s.push(c) == seq![c]);
    } else {
        assert(s.push(c).drop_first() == s.drop_first().push(c));
        lemma_encode_utf8_push(s.drop_first(), c);
    }
}

/// Whether the UTF-8 encoding of `v` (what `str::len` counts) has at most `limit` bytes.
pub fn utf8_len_at_most(v: &Vec<char>, limit: usize) -> (b: bool)
    ensures
        b == (encode_utf8(v@).len() <= limit),
{
    let mut total: usize = 0;
    let mut i: usize = 0;
    while i < v.len()
        invariant
            i <= v.len(),
            total == encode_utf8(v@.take(i as int)).len(),
            total <= limit,
        decreases v.len() - i,
    {
        let u = v[i] as u32;
        let w: usize = if u <= 0x7F {
            1
        } else if u <= 0x7FF {
            2
        } else if u <= 0xFFFF {
            3
        } else {
            4
        };
        proof {
            lemma_utf8_width(v@[i as int]);
            assert(v@.take(i + 1) == v@.take(i as int).push(v@[i as int]));
            lemma_encode_utf8_push(v@.take(i as int), v@[i as int]);
        }
        if w > limit - total {
            proof {
                lemma_encode_utf8_grows(v@, i + 1);
            }
            return false;
        }
        total = total + w;
        i = i + 1;
    }
    assert(v@.take(i as int) == v@);
    true
}

proof fn lemma_encode_utf8_grows(s: Seq<char>, i: int)
    requires
        0 <= i <= s.len(),
    ensures
        encode_utf8(s.take(i)).len() <= encode_utf8(s).len(),
    decreases s.len() - i,
{
    if i < s.len() {
        assert(s.take(i + 1) == s.take(i).push(s[i]));
        lemma_encode_utf8_push(s.take(i), s[i]);
        lemma_encode_utf8_grows(s, i + 1);
    } else {
        assert(s.take(i) == s);
    }
}


/// Dropping trailing white space twice is dropping it once.
pub proof fn trim_end_is_idempotent(s: Seq<char>)
    ensures
        trim_end(trim_end(s)) == trim_end(s),
{
    let y = trim_end(s);
    lemma_suffix_len_while_facts(s, white_space());
    if y.len() > 0 {
        assert(y.last() == s[s.len() - 1 - suffix_len_while(s, white_space())]);
    }
    lemma_suffix_len_while_is(y, white_space(), 0);
    assert(y.take(y.len() as int) == y);
}


/// Cutting a text anywhere after its first line keeps the first line.
pub proof fn lemma_first_line_of_prefix(s: Seq<char>, m: int)
    requires
        prefix_len_while(s, other_than('\n')) <= m <= s.len(),
    ensures
        first_line(s.take(m)) == first_line(s),
{
    let n = prefix_len_while(s, other_than('\n'));
    lemma_prefix_len_while_facts(s, other_than('\n'));
    let y = s.take(m);
    assert forall|k: int| 0 <= k < n implies other_than('\n')(#[trigger] y[k]) by {
        assert(y[k] == s[k]);
    }
    if n < m {
        assert(y[n as int] == s[n as int]);
    }
    lemma_prefix_len_while_is(y, other_than('\n'), n as int);
    assert(y.take(n as int) == s.take(n as int));
}

/// Dropping a tail of white space does not change the trimmed text.
pub proof fn lemma_trim_drops_white_tail(s: Seq<char>, j: int)
    requires
        0 <= j <= s.len(),
        forall|k: int| j <= k < s.len() ==> is_white_space(#[trigger] s[k]),
    ensures
        trim(s.take(j)) == trim(s),
{
    let a = prefix_len_while(s, white_space());
    lemma_prefix_len_while_facts(s, white_space());
    let p = s.take(j);
    if a >= j {
        assert forall|k: int| 0 <= k < p.len() implies white_space()(#[trigger] p[k]) by {
            assert(p[k] == s[k]);
        }
        lemma_prefix_len_while_is(p, white_space(), p.len() as int);
        assert forall|k: int| 0 <= k < s.len() implies white_space()(#[trigger] s[k]) by {
            if k >= j {
                assert(is_white_space(s[k]));
            }
        }
        lemma_prefix_len_while_is(s, white_space(), s.len() as int);
        assert(trim_start(p).len() == 0);
        assert(trim_start(s).len() == 0);
    } else {
        assert forall|k: int| 0 <= k < a implies white_space()(#[trigger] p[k]) by {
            assert(p[k] == s[k]);
        }
        assert(p[a as int] == s[a as int]);
        lemma_prefix_len_while_is(p, white_space(), a as int);
        let u = p.skip(a as int);
        let w = s.skip(a as int);
        assert(trim_start(p) == u);
        assert(trim_start(s) == w);
        let b = suffix_len_while(u, white_space());
        lemma_suffix_len_while_facts(u, white_space());
        assert(u[0] == s[a as int]);
        assert(b < u.len());
        let q = a + u.len() - 1 - b;
        assert(u[u.len() - 1 - b] == s[q]);
        assert forall|k: int| w.len() - (s.len() - 1 - q) <= k < w.len() implies white_space()(
            #[trigger] w[k],
        ) by {
            assert(w[k] == s[k + a]);
            if k + a < j {
                assert(u[k] == s[k + a]);
            }
        }
        assert(w[w.len() - 1 - (s.len() - 1 - q)] == s[q]);
        lemma_suffix_len_while_is(w, white_space(), s.len() - 1 - q);
        assert(trim_end(u) == s.subrange(a as int, q + 1));
        assert(trim_end(w) == s.subrange(a as int, q + 1));
    }
}

/// Trimming the end of a text whose first line trims to something leaves that first
/// line, up to white space, and leaves something.
pub proof fn lemma_trim_end_keeps_first_line(y: Seq<char>)
    requires
        trim(first_line(y)).len() > 0,
    ensures
        trim(first_line(trim_end(y))) == trim(first_line(y)),
        trim_end(y).len() > 0,
{
    let n = prefix_len_while(y, other_than('\n'));
    lemma_prefix_len_while_facts(y, other_than('\n'));
    let b = suffix_len_while(y, white_space());
    lemma_suffix_len_while_facts(y, white_space());
    let e = y.len() - b;
    let z = trim_end(y);
    let l = first_line(y);
    if e > n {
        lemma_first_line_of_prefix(y, e);
    } else {
        assert(z == l.take(e));
        assert forall|k: int| 0 <= k < e implies other_than('\n')(#[trigger] z[k]) by {
            assert(z[k] == y[k]);
        }
        lemma_prefix_len_while_is(z, other_than('\n'), e);
        assert(z.take(e) == z);
        assert forall|k: int| e <= k < l.len() implies is_white_space(#[trigger] l[k]) by {
            assert(l[k] == y[k]);
        }
        lemma_trim_drops_white_tail(l, e);
        if z.len() == 0 {
            lemma_trim_fixed(z);
        }
    }
}


/// Cutting keeps a beginning of the text: a text that fits is kept whole; one that is
/// too long keeps its first characters, as many as fit beside the `'…'`, which ends it.
pub proof fn truncate_keeps_a_beginning(s: Seq<char>, max_chars: nat)
    ensures
        s.len() <= max_chars ==> truncate_chars(s, max_chars) == s,
        s.len() > max_chars ==> {
            let r = truncate_chars(s, max_chars);
            &&& r.len() == (if max_chars >= 1 {
                max_chars
            } else {
                1
            })
            &&& r.last() == '…'
            &&& forall|k: int| 0 <= k < r.len() - 1 ==> #[trigger] r[k] == s[k]
        },
{
}

/// Dropping trailing slashes keeps a beginning of the text, drops only slashes, and
/// leaves no slash at the end.
pub proof fn trailing_char_cut(s: Seq<char>, c: char)
    ensures
        trim_end_char(s, c).len() <= s.len(),
        forall|k: int| 0 <= k < trim_end_char(s, c).len() ==> #[trigger] trim_end_char(s, c)[k] == s[k],
        forall|k: int| trim_end_char(s, c).len() <= k < s.len() ==> #[trigger] s[k] == c,
        trim_end_char(s, c).len() > 0 ==> trim_end_char(s, c).last() != c,
{
    lemma_suffix_len_while_facts(s, same_as(c));
    let r = trim_end_char(s, c);
    assert forall|k: int| r.len() <= k < s.len() implies #[trigger] s[k] == c by {
        assert(same_as(c)(s[k]));
    }
    if r.len() > 0 {
        assert(r.last() == s[s.len() - 1 - suffix_len_while(s, same_as(c))]);
    }
}

} // verus!
