//! Turning the model's reply into the draft shown to the user: the JSON object in
//! the reply, the salutation the body must open with, the closing it must not have.
use vstd::prelude::*;
use vstd::utf8::encode_utf8;

use crate::text::{
    chars_of, contains_in, contains_seq, ends_with, ends_with_in, find_char, find_char_in,
    first_line, first_line_str, lemma_first_line_of_prefix, lemma_prefix_len_while_facts,
    lemma_prefix_len_while_is, lemma_suffix_len_while_facts, lemma_trim_end_keeps_first_line,
    lemma_trim_ends, lemma_trim_fixed, occurs_at, other_than, prefix_len_while, rfind_char,
    rfind_char_in, suffix_len_while,
    starts_with, starts_with_in, trim, trim_end, trim_end_is_idempotent, trim_end_str,
    trim_is_idempotent, trim_str, utf8_len_at_most,
};

verus! {

/// Put before a body whose first line is no salutation.
pub const DEFAULT_SALUTATION_PREFIX: &'static str = "您好，\n\n";

/// A first line of at most this many UTF-8 bytes that names a lawyer counts as a salutation.
pub const LAWYER_SALUTATION_MAX_BYTES: usize = 48;

/// Subject and body as the model wrote them in its JSON object.
#[derive(Debug)]
pub struct GenJson {
    pub subject: String,
    pub body: String,
}

/// The draft handed back to the user.
#[derive(Debug)]
pub struct GeneratedEmail {
    pub subject: String,
    pub body: String,
}

/// Whether a first line reads like the salutation of a letter: once trimmed it is not
/// empty and it greets (您好), addresses someone respectfully (尊敬, 老师), opens with
/// "Dear ", is a short line naming a lawyer (律师, at most 48 UTF-8 bytes), or ends
/// with a colon (full-width or ASCII).
pub open spec fn looks_like_salutation(first_line: Seq<char>) -> bool {
    let s = trim(first_line);
    &&& s.len() > 0
    &&& {
        ||| contains_seq(s, "您好"@)
        ||| contains_seq(s, "尊敬"@)
        ||| contains_seq(s, "老师"@)
        ||| starts_with(s, "Dear "@)
        ||| contains_seq(s, "律师"@) && encode_utf8(s).len() <= LAWYER_SALUTATION_MAX_BYTES
        ||| s.last() == '：'
        ||| s.last() == ':'
    }
}

/// The body with a salutation guaranteed, and whether one had to be added: the trimmed
/// body when it is empty or its first line already reads like a salutation, else the
/// default salutation followed by the trimmed body. (The first line is taken up to the
/// first `'\n'`; a `'\r'` before it, which `str::lines` would drop, goes with the trim.)
pub open spec fn with_salutation(body: Seq<char>) -> (Seq<char>, bool) {
    let t = trim(body);
    if t.len() == 0 {
        (Seq::<char>::empty(), false)
    } else if looks_like_salutation(trim(first_line(t))) {
        (t, false)
    } else {
        (DEFAULT_SALUTATION_PREFIX@ + t, true)
    }
}

/// The traditional letter closings ("此致 / 敬礼") that are cut from a body, in the
/// order they are tried.
pub open spec fn letter_closings() -> Seq<Seq<char>> {
    seq!["\n\n此致\n敬礼"@, "\n此致\n敬礼"@, "\n\n此致\n\n敬礼"@, "\n\n此致 \n敬礼"@]
}

/// `t` without the first of `closings[k..]` it ends with, and then without trailing
/// white space; `t` itself when it ends with none of them.
pub open spec fn cut_first_closing(t: Seq<char>, closings: Seq<Seq<char>>, k: int) -> Seq<char>
    decreases closings.len() - k,
{
    if k < 0 || k >= closings.len() {
        t
    } else if ends_with(t, closings[k]) {
        trim_end(t.take(t.len() - closings[k].len()))
    } else {
        cut_first_closing(t, closings, k + 1)
    }
}

/// The body without trailing white space and without a traditional letter closing.
pub open spec fn without_letter_closing(body: Seq<char>) -> Seq<char> {
    cut_first_closing(trim_end(body), letter_closings(), 0)
}

/// The part of the reply from its first `{` to its last `}`, when both are there in
/// that order; else the whole trimmed reply.
pub open spec fn json_object_text(raw: Seq<char>) -> Seq<char> {
    let s = trim(raw);
    match (find_char(s, '{'), rfind_char(s, '}')) {
        (Some(i), Some(j)) => if j >= i {
            s.subrange(i, j + 1)
        } else {
            s
        },
        _ => s,
    }
}

/// The body of the draft: trimmed, with a salutation, without a closing.
pub open spec fn finished_body(body: Seq<char>) -> Seq<char> {
    without_letter_closing(with_salutation(trim(body)).0)
}

/// Whether `first_line` reads like a salutation (see `looks_like_salutation`).
pub fn first_line_looks_like_salutation(first_line: &str) -> (b: bool)
    ensures
        b == looks_like_salutation(first_line@),
{
    let s = trim_str(first_line);
    let v = chars_of(s);
    if v.len() == 0 {
        return false;
    }
    let last = v[v.len() - 1];
    contains_in(&v, &chars_of("您好")) || contains_in(&v, &chars_of("尊敬")) || contains_in(
        &v,
        &chars_of("老师"),
    ) || starts_with_in(&v, &chars_of("Dear ")) || (contains_in(&v, &chars_of("律师"))
        && utf8_len_at_most(&v, LAWYER_SALUTATION_MAX_BYTES)) || last == '：' || last == ':'
}

/// The trimmed body, opened with the default salutation when its first line has none;
/// the flag tells whether the salutation was added.
pub fn ensure_body_salutation(body: &str) -> (r: (String, bool))
    ensures
        (r.0@, r.1) == with_salutation(body@),
{
    let t = trim_str(body);
    if t.unicode_len() == 0 {
        return (String::new(), false);
    }
    let first = trim_str(first_line_str(t));
    if first_line_looks_like_salutation(first) {
        (String::from_str(t), false)
    } else {
        (String::from_str(DEFAULT_SALUTATION_PREFIX).concat(t), true)
    }
}

/// The body without trailing white space and without a traditional letter closing.
pub fn strip_traditional_letter_closing(body: &str) -> (r: String)
    ensures
        r@ == without_letter_closing(body@),
{
    let t = trim_end_str(body);
    let v = chars_of(t);
    let closings = [
        "\n\n此致\n敬礼",
        "\n此致\n敬礼",
        "\n\n此致\n\n敬礼",
        "\n\n此致 \n敬礼",
    ];
    let ghost cs = letter_closings();
    assert(cs.len() == 4);
    let mut k: usize = 0;
    while k < 4
        invariant
            k <= 4,
            v@ == t@,
            t@ == trim_end(body@),
            cs == letter_closings(),
            forall|m: int| 0 <= m < 4 ==> (#[trigger] closings@[m])@ == cs[m],
            cut_first_closing(t@, cs, k as int) == cut_first_closing(t@, cs, 0),
        decreases 4 - k,
    {
        let suffix = chars_of(closings[k]);
        assert(suffix@ == cs[k as int]);
        if ends_with_in(&v, &suffix) {
            let kept = trim_end_str(t.substring_char(0, v.len() - suffix.len()));
            assert(t@.subrange(0, v.len() - suffix.len()) == t@.take(
                t@.len() - cs[k as int].len(),
            ));
            return String::from_str(kept);
        }
        k = k + 1;
    }
    String::from_str(t)
}

/// The reply from its first `{` to its last `}` (see `json_object_text`).
pub fn extract_json_object(raw: &str) -> (r: String)
    ensures
        r@ == json_object_text(raw@),
{
    let s = trim_str(raw);
    let v = chars_of(s);
    match (find_char_in(&v, '{'), rfind_char_in(&v, '}')) {
        (Some(i), Some(j)) => {
            assert(j < v.len());
            if j >= i {
                return String::from_str(s.substring_char(i, j + 1));
            }
        },
        _ => {},
    }
    String::from_str(s)
}

/// The draft for the subject and body the model wrote: the subject
/// trimmed, the body finished (see `finished_body`).
pub fn finish_generated_email(generated: GenJson) -> (email: GeneratedEmail)
    ensures
        email.subject@ == trim(generated.subject@),
        email.body@ == finished_body(generated.body@),
{
    let body_trimmed = trim_str(generated.body.as_str());
    let (body_with_salutation, _) = ensure_body_salutation(body_trimmed);
    let body = strip_traditional_letter_closing(body_with_salutation.as_str());
    GeneratedEmail { subject: String::from_str(trim_str(generated.subject.as_str())), body }
}


/// The default salutation's first line, "您好，", reads like a salutation.
proof fn lemma_default_salutation_line()
    ensures
        DEFAULT_SALUTATION_PREFIX@ == seq!['您', '好', '，', '\n', '\n'],
        looks_like_salutation(seq!['您', '好', '，']),
{
    reveal_strlit("您好，\n\n");
    reveal_strlit("您好");
    let s = seq!['您', '好', '，'];
    lemma_trim_fixed(s);
    assert(s.subrange(0, 2) == "您好"@);
    assert(occurs_at(s, "您好"@, 0));
}

/// A body that went through `ensure_body_salutation` opens with a line that reads like
/// a salutation (unless it is empty), and a second pass adds nothing.
pub proof fn salutation_is_ensured(body: Seq<char>)
    ensures
        with_salutation(body).0.len() > 0 ==> looks_like_salutation(
            trim(first_line(with_salutation(body).0)),
        ),
        with_salutation(with_salutation(body).0) == (with_salutation(body).0, false),
        !with_salutation(body).1 ==> with_salutation(body).0 == trim(body),
        trim(with_salutation(body).0) == with_salutation(body).0,
{
    let t = trim(body);
    let r = with_salutation(body).0;
    lemma_trim_ends(body);
    trim_is_idempotent(body);
    if t.len() == 0 {
        lemma_trim_fixed(r);
    } else if looks_like_salutation(trim(first_line(t))) {
        trim_is_idempotent(body);
    } else {
        lemma_default_salutation_line();
        assert(r == DEFAULT_SALUTATION_PREFIX@ + t);
        assert(r[0] == '您');
        assert(r.last() == t.last());
        lemma_trim_fixed(r);
        assert forall|k: int| 0 <= k < 3 implies other_than('\n')(#[trigger] r[k]) by {}
        assert(r[3] == '\n');
        lemma_prefix_len_while_is(r, other_than('\n'), 3);
        assert(first_line(r) == seq!['您', '好', '，']);
        lemma_trim_fixed(first_line(r));
    }
}

proof fn lemma_cut_closing_is_trimmed(t: Seq<char>, closings: Seq<Seq<char>>, k: int)
    requires
        trim_end(t) == t,
    ensures
        trim_end(cut_first_closing(t, closings, k)) == cut_first_closing(t, closings, k),
    decreases closings.len() - k,
{
    if k < 0 || k >= closings.len() {
    } else if ends_with(t, closings[k]) {
        trim_end_is_idempotent(t.take(t.len() - closings[k].len()));
    } else {
        lemma_cut_closing_is_trimmed(t, closings, k + 1);
    }
}

/// A body without its letter closing has no trailing white space.
pub proof fn closing_cut_leaves_no_trailing_space(body: Seq<char>)
    ensures
        trim_end(without_letter_closing(body)) == without_letter_closing(body),
{
    trim_end_is_idempotent(body);
    lemma_cut_closing_is_trimmed(trim_end(body), letter_closings(), 0);
}

/// When the reply holds a `{` and after it a `}`, the extracted text runs from a `{` to a `}`.
pub proof fn json_object_is_braced(raw: Seq<char>)
    ensures
        ({
            let s = trim(raw);
            match (find_char(s, '{'), rfind_char(s, '}')) {
                (Some(i), Some(j)) => j >= i ==> {
                    let r = json_object_text(raw);
                    &&& r.len() == j - i + 1
                    &&& r[0] == '{'
                    &&& r.last() == '}'
                },
                _ => json_object_text(raw) == s,
            }
        }),
{
    let s = trim(raw);
    lemma_prefix_len_while_facts(s, other_than('{'));
    lemma_suffix_len_while_facts(s, other_than('}'));
}


proof fn lemma_closings_start_with_newline()
    ensures
        forall|k: int|
            0 <= k < letter_closings().len() ==> (#[trigger] letter_closings()[k]).len() > 0
                && letter_closings()[k][0] == '\n',
{
    reveal_strlit("\n\n此致\n敬礼");
    reveal_strlit("\n此致\n敬礼");
    reveal_strlit("\n\n此致\n\n敬礼");
    reveal_strlit("\n\n此致 \n敬礼");
}

proof fn lemma_cut_keeps_salutation(r: Seq<char>, k: int)
    requires
        r.len() > 0,
        looks_like_salutation(trim(first_line(r))),
    ensures
        cut_first_closing(r, letter_closings(), k).len() > 0,
        looks_like_salutation(trim(first_line(cut_first_closing(r, letter_closings(), k)))),
    decreases letter_closings().len() - k,
{
    let cs = letter_closings();
    if k < 0 || k >= cs.len() {
    } else if ends_with(r, cs[k]) {
        lemma_closings_start_with_newline();
        let m = r.len() - cs[k].len();
        assert(r[m] == cs[k][0]);
        lemma_prefix_len_while_facts(r, other_than('\n'));
        let y = r.take(m);
        lemma_first_line_of_prefix(r, m);
        lemma_trim_end_keeps_first_line(y);
    } else {
        lemma_cut_keeps_salutation(r, k + 1);
    }
}

/// The finished body is empty exactly when the model's body is blank; otherwise it
/// opens with a line that reads like a salutation, whatever closing was cut.
pub proof fn finished_body_opens_with_salutation(body: Seq<char>)
    ensures
        finished_body(body).len() == 0 <==> trim(body).len() == 0,
        finished_body(body).len() > 0 ==> looks_like_salutation(
            trim(first_line(finished_body(body))),
        ),
{
    let t = trim(body);
    trim_is_idempotent(body);
    salutation_is_ensured(t);
    let r = with_salutation(t).0;
    lemma_trim_ends(r);
    lemma_trim_fixed(r);
    if r.len() > 0 {
        lemma_cut_keeps_salutation(r, 0);
    } else {
        lemma_closings_start_with_newline();
        assert(!ends_with(r, letter_closings()[0]));
        assert(!ends_with(r, letter_closings()[1]));
        assert(!ends_with(r, letter_closings()[2]));
        assert(!ends_with(r, letter_closings()[3]));
        reveal_with_fuel(cut_first_closing, 5);
    }
}


/// Which first lines read like a salutation, over all first lines: one that, trimmed,
/// contains 您好, 尊敬 or 老师 anywhere, opens with "Dear ", or ends with a colon does;
/// one that is blank does not.
pub proof fn salutation_markers(first_line: Seq<char>)
    ensures
        contains_seq(trim(first_line), "您好"@) ==> looks_like_salutation(first_line),
        contains_seq(trim(first_line), "尊敬"@) ==> looks_like_salutation(first_line),
        contains_seq(trim(first_line), "老师"@) ==> looks_like_salutation(first_line),
        starts_with(trim(first_line), "Dear "@) ==> looks_like_salutation(first_line),
        trim(first_line).len() > 0 && (trim(first_line).last() == '：' || trim(first_line).last()
            == ':') ==> looks_like_salutation(first_line),
        trim(first_line).len() == 0 ==> !looks_like_salutation(first_line),
{
    reveal_strlit("您好");
    reveal_strlit("尊敬");
    reveal_strlit("老师");
    reveal_strlit("Dear ");
}

/// A body whose first line greets with 您好 anywhere in it is kept as it is (trimmed),
/// and no second greeting is put in front.
pub proof fn greeting_body_is_kept(body: Seq<char>)
    ensures
        contains_seq(trim(first_line(trim(body))), "您好"@) ==> with_salutation(body) == (
            trim(body),
            false,
        ),
{
    let t = trim(body);
    let l = first_line(t);
    salutation_markers(l);
    trim_is_idempotent(l);
    salutation_markers(trim(l));
    lemma_prefix_len_while_facts(t, other_than('\n'));
    lemma_trim_ends(l);
    if contains_seq(trim(l), "您好"@) {
        reveal_strlit("您好");
        assert(trim(l).len() > 0);
        assert(t.len() > 0);
    }
}


/// The extracted object is cut from the trimmed reply character for character: when the
/// reply holds a `{` and after it a `}`, the result is the reply's characters from its
/// first `{` through its last `}`, with no `{` before that start and no `}` after that
/// end; otherwise it is the trimmed reply itself.
pub proof fn json_object_is_cut_from_reply(raw: Seq<char>)
    ensures
        ({
            let s = trim(raw);
            let r = json_object_text(raw);
            match (find_char(s, '{'), rfind_char(s, '}')) {
                (Some(i), Some(j)) => if j >= i {
                    &&& r.len() == j - i + 1
                    &&& forall|k: int| 0 <= k < r.len() ==> #[trigger] r[k] == s[i + k]
                    &&& s[i] == '{' && s[j] == '}'
                    &&& forall|k: int| 0 <= k < i ==> #[trigger] s[k] != '{'
                    &&& forall|k: int| j < k < s.len() ==> #[trigger] s[k] != '}'
                } else {
                    r == s
                },
                _ => r == s,
            }
        }),
{
    let s = trim(raw);
    lemma_prefix_len_while_facts(s, other_than('{'));
    lemma_suffix_len_while_facts(s, other_than('}'));
    assert forall|k: int| 0 <= k < prefix_len_while(s, other_than('{')) implies #[trigger] s[k]
        != '{' by {
        assert(other_than('{')(s[k]));
    }
    assert forall|k: int| s.len() - suffix_len_while(s, other_than('}')) <= k < s.len() implies #[trigger] s[k]
        != '}' by {
        assert(other_than('}')(s[k]));
    }
}


proof fn lemma_cut_is_prefix(t: Seq<char>, closings: Seq<Seq<char>>, k: int)
    ensures
        cut_first_closing(t, closings, k).len() <= t.len(),
        t.take(cut_first_closing(t, closings, k).len() as int) == cut_first_closing(t, closings, k),
    decreases closings.len() - k,
{
    if k < 0 || k >= closings.len() {
        assert(t.take(t.len() as int) == t);
    } else if ends_with(t, closings[k]) {
        let y = t.take(t.len() - closings[k].len());
        let z = trim_end(y);
        lemma_suffix_len_while_facts(y, crate::text::white_space());
        assert(t.take(z.len() as int) == z);
    } else {
        lemma_cut_is_prefix(t, closings, k + 1);
    }
}

/// Cutting the closing only ever removes text from the end: the result is a beginning
/// of the body without its trailing white space, and a body that ends with none of the
/// closings loses nothing but that white space.
pub proof fn closing_cut_only_shortens(body: Seq<char>)
    ensures
        without_letter_closing(body).len() <= trim_end(body).len(),
        trim_end(body).take(without_letter_closing(body).len() as int) == without_letter_closing(
            body,
        ),
        (forall|k: int| 0 <= k < letter_closings().len() ==> !ends_with(
            trim_end(body),
            #[trigger] letter_closings()[k],
        )) ==> without_letter_closing(body) == trim_end(body),
{
    lemma_cut_is_prefix(trim_end(body), letter_closings(), 0);
    let t = trim_end(body);
    let cs = letter_closings();
    if forall|k: int| 0 <= k < cs.len() ==> !ends_with(t, #[trigger] cs[k]) {
        assert(!ends_with(t, cs[0]));
        assert(!ends_with(t, cs[1]));
        assert(!ends_with(t, cs[2]));
        assert(!ends_with(t, cs[3]));
        reveal_with_fuel(cut_first_closing, 5);
    }
}

/// Ensuring the salutation never changes the body's text: the result is the trimmed
/// body, or the default salutation followed by the trimmed body, as the flag tells.
pub proof fn salutation_only_prepends(body: Seq<char>)
    ensures
        with_salutation(body).1 ==> with_salutation(body).0 == DEFAULT_SALUTATION_PREFIX@ + trim(
            body,
        ),
        !with_salutation(body).1 ==> with_salutation(body).0 == trim(body),
        ends_with(with_salutation(body).0, trim(body)),
{
    let r = with_salutation(body).0;
    let t = trim(body);
    if t.len() == 0 {
        assert(r.skip(0) == t);
    } else {
        assert(r.skip(r.len() - t.len()) == t);
    }
}

} // verus!
