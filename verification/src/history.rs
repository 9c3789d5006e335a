//! The generation history: building entries, recording, deleting and listing them.
use vstd::prelude::*;

use crate::text::{trim, trim_str, truncate_chars, truncate_str};

verus! {

/// Characters of the job description kept in a history entry.
pub const MAX_JD_CHARS: usize = 100000;

/// Characters of the strategy Markdown kept in a history entry.
pub const MAX_STRATEGY_CHARS: usize = 300000;

/// Entries the history keeps.
pub const MAX_HISTORY_ENTRIES: usize = 50;

/// One generated email kept in the history file.
#[derive(Debug, Clone)]
pub struct HistoryEntry {
    pub id: String,
    /// Milliseconds since the Unix epoch.
    pub created_at: i64,
    pub subject: String,
    pub body: String,
    pub jd_text: String,
    pub strategy_path: Option<String>,
    pub strategy_md: String,
}

/// What the front end hands over to record a generated email.
#[derive(Debug)]
pub struct AppendHistoryInput {
    pub subject: String,
    pub body: String,
    pub jd_text: String,
    pub strategy_path: Option<String>,
    pub strategy_md: String,
}

/// `e` is the entry recorded for `input` under `id` at `created_at`: the subject is
/// trimmed, the job description and strategy are cut to their limits, the rest is kept.
pub open spec fn entry_made_from(
    e: HistoryEntry,
    id: Seq<char>,
    created_at: i64,
    input: AppendHistoryInput,
) -> bool {
    &&& e.id@ == id
    &&& e.created_at == created_at
    &&& e.subject@ == trim(input.subject@)
    &&& e.body == input.body
    &&& e.jd_text@ == truncate_chars(input.jd_text@, MAX_JD_CHARS as nat)
    &&& e.strategy_path == input.strategy_path
    &&& e.strategy_md@ == truncate_chars(input.strategy_md@, MAX_STRATEGY_CHARS as nat)
}

/// The history after recording `e`: `e` first, then the older entries, at most
/// `MAX_HISTORY_ENTRIES` in all.
pub open spec fn recorded(entries: Seq<HistoryEntry>, e: HistoryEntry) -> Seq<HistoryEntry> {
    let s = seq![e] + entries;
    if s.len() > MAX_HISTORY_ENTRIES {
        s.take(MAX_HISTORY_ENTRIES as int)
    } else {
        s
    }
}

/// The predicate "does not have the identifier `id`".
pub open spec fn id_is_not(id: Seq<char>) -> spec_fn(HistoryEntry) -> bool {
    |e: HistoryEntry| e.id@ != id
}

/// The creation time stored for a clock reading: the milliseconds since the Unix
/// epoch, cut to `i64` as `as` does, or 0 when the clock stood before the epoch.
pub open spec fn created_at_for(elapsed_millis: Option<u128>) -> i64 {
    match elapsed_millis {
        Some(m) => m as i64,
        None => 0,
    }
}

/// A lower-case hexadecimal digit.
pub open spec fn is_lower_hex(c: char) -> bool {
    ('0' <= c <= '9') || ('a' <= c <= 'f')
}

/// `s` is a random (version 4) UUID in hyphenated lower-case form: hexadecimal digits
/// in groups of 8, 4, 4, 4 and 12 joined by `-`, the version digit `4`, and the variant
/// digit one of `8`, `9`, `a`, `b`.
pub open spec fn is_uuid_v4_text(s: Seq<char>) -> bool {
    &&& s.len() == 36
    &&& forall|i: int|
        #![trigger s[i]]
        0 <= i < 36 ==> if i == 8 || i == 13 || i == 18 || i == 23 {
            s[i] == '-'
        } else {
            is_lower_hex(s[i])
        }
    &&& s[14] == '4'
    &&& (s[19] == '8' || s[19] == '9' || s[19] == 'a' || s[19] == 'b')
}

/// The predicate "was created at `t`".
pub open spec fn created_at_is(t: i64) -> spec_fn(HistoryEntry) -> bool {
    |e: HistoryEntry| e.created_at == t
}

/// No entry is older than one after it.
pub open spec fn newest_first(s: Seq<HistoryEntry>) -> bool {
    forall|i: int, j: int| 0 <= i < j < s.len() ==> s[i].created_at >= s[j].created_at
}

/// `r` is `s` sorted newest first by a stable sort: it is ordered, and the entries
/// that share a creation time come in the order they had in `s`.
pub open spec fn stable_newest_first(s: Seq<HistoryEntry>, r: Seq<HistoryEntry>) -> bool {
    &&& newest_first(r)
    &&& forall|t: i64| #[trigger] r.filter(created_at_is(t)) == s.filter(created_at_is(t))
}

proof fn lemma_filter_none<A>(s: Seq<A>, p: spec_fn(A) -> bool)
    requires
        forall|i: int| 0 <= i < s.len() ==> !p(#[trigger] s[i]),
    ensures
        s.filter(p) == Seq::<A>::empty(),
    decreases s.len(),
{
    reveal(Seq::filter);
    if s.len() > 0 {
        let t = s.drop_last();
        assert forall|i: int| 0 <= i < t.len() implies !p(#[trigger] t[i]) by {
            assert(t[i] == s[i]);
        }
        lemma_filter_none(t, p);
    }
}

proof fn lemma_filter_single<A>(x: A, p: spec_fn(A) -> bool)
    ensures
        seq![x].filter(p) == (if p(x) {
            seq![x]
        } else {
            Seq::<A>::empty()
        }),
{
    reveal_with_fuel(Seq::filter, 2);
    assert(seq![x].drop_last() == Seq::<A>::empty());
}

/// Inserting `x` at `p` into a newest-first `out`, after every entry at least as new.
proof fn lemma_insert_keeps_groups(
    out: Seq<HistoryEntry>,
    p: int,
    x: HistoryEntry,
    t: i64,
)
    requires
        0 <= p <= out.len(),
        forall|k: int| 0 <= k < p ==> (#[trigger] out[k]).created_at >= x.created_at,
        forall|k: int| p <= k < out.len() ==> (#[trigger] out[k]).created_at < x.created_at,
    ensures
        out.insert(p, x).filter(created_at_is(t)) == out.filter(created_at_is(t)) + seq![x].filter(
            created_at_is(t),
        ),
{
    let f = created_at_is(t);
    let a = out.take(p);
    let b = out.skip(p);
    assert(out == a + b);
    assert(out.insert(p, x) == a + seq![x] + b);
    Seq::filter_distributes_over_add(a, b, f);
    Seq::filter_distributes_over_add(a + seq![x], b, f);
    Seq::filter_distributes_over_add(a, seq![x], f);
    lemma_filter_single(x, f);
    if t == x.created_at {
        assert forall|i: int| 0 <= i < b.len() implies !f(#[trigger] b[i]) by {
            assert(b[i] == out[i + p]);
        }
        lemma_filter_none(b, f);
        assert(b.filter(f) == Seq::<HistoryEntry>::empty());
        assert(a.filter(f) + b.filter(f) == a.filter(f));
    } else {
        assert(seq![x].filter(f) == Seq::<HistoryEntry>::empty());
        assert(a.filter(f) + Seq::<HistoryEntry>::empty() == a.filter(f));
    }
}

proof fn lemma_insert_to_multiset<A>(s: Seq<A>, p: int, x: A)
    requires
        0 <= p <= s.len(),
    ensures
        s.insert(p, x).to_multiset() == s.to_multiset().insert(x),
{
    broadcast use vstd::seq_lib::group_to_multiset_ensures;
    broadcast use vstd::multiset::group_multiset_axioms;

    let t = s.insert(p, x);
    assert(t.remove(p) == s);
    assert(t[p] == x);
    assert(t.to_multiset().count(x) > 0) by {
        assert(t.contains(x));
    }
    assert(t.to_multiset() =~= s.to_multiset().insert(x));
}

/// Calls `uuid::Uuid::new_v4` and formats the identifier with its `Display`
/// impl. `new_v4` sets the version bits to 4 and the variant bits to `10`, and
/// `Display` writes the hyphenated lower-case form; the contract claims that form,
/// which every outcome has, and nothing of the random digits.
#[verifier::external_body]
fn new_entry_id() -> (id: String)
    ensures
        is_uuid_v4_text(id@),
{
    uuid::Uuid::new_v4().to_string()
}

/// The creation time stored for a clock reading (milliseconds since the epoch,
/// `None` when the clock stood before it).
pub fn created_at_from_elapsed(elapsed_millis: Option<u128>) -> (t: i64)
    ensures
        t == created_at_for(elapsed_millis),
{
    match elapsed_millis {
        Some(m) => m as i64,
        None => 0,
    }
}

/// The entry recorded for `input` under `id` at `created_at`.
pub fn build_history_entry(id: String, created_at: i64, input: AppendHistoryInput) -> (e:
    HistoryEntry)
    ensures
        entry_made_from(e, id@, created_at, input),
{
    let subject = String::from_str(trim_str(input.subject.as_str()));
    let jd_text = truncate_str(input.jd_text.as_str(), MAX_JD_CHARS);
    let strategy_md = truncate_str(input.strategy_md.as_str(), MAX_STRATEGY_CHARS);
    HistoryEntry {
        id,
        created_at,
        subject,
        body: input.body,
        jd_text,
        strategy_path: input.strategy_path,
        strategy_md,
    }
}

/// A new entry for `input` created at `created_at`, under a fresh random identifier
/// (a version 4 UUID).
pub fn new_history_entry(created_at: i64, input: AppendHistoryInput) -> (e: HistoryEntry)
    ensures
        entry_made_from(e, e.id@, created_at, input),
        is_uuid_v4_text(e.id@),
{
    let id = new_entry_id();
    build_history_entry(id, created_at, input)
}

/// Records `e` as the newest entry and drops the oldest beyond `MAX_HISTORY_ENTRIES`.
pub fn record_history_entry(entries: &mut Vec<HistoryEntry>, e: HistoryEntry)
    ensures
        final(entries)@ == recorded(old(entries)@, e),
        final(entries)@.len() <= MAX_HISTORY_ENTRIES,
        final(entries)@[0] == e,
{
    entries.insert(0, e);
    proof {
        assert(entries@ == seq![e] + old(entries)@);
    }
    if entries.len() > MAX_HISTORY_ENTRIES {
        entries.truncate(MAX_HISTORY_ENTRIES);
    }
}

proof fn lemma_filter_push<A>(s: Seq<A>, x: A, p: spec_fn(A) -> bool)
    ensures
        s.push(x).filter(p) == (if p(x) {
            s.filter(p).push(x)
        } else {
            s.filter(p)
        }),
{
    reveal_with_fuel(Seq::filter, 1);
    assert(s.push(x).drop_last() == s);
}

/// Removes every entry whose identifier is `id`; the others keep their order.
pub fn delete_history_entry(entries: &mut Vec<HistoryEntry>, id: &String)
    ensures
        final(entries)@ == old(entries)@.filter(id_is_not(id@)),
        forall|i: int| 0 <= i < final(entries)@.len() ==> (#[trigger] final(entries)@[i]).id@ != id@,
{
    let ghost orig = entries@;
    let mut i: usize = 0;
    let ghost mut j: int = 0;
    assert(orig.take(0).filter(id_is_not(id@)) == entries@.take(0)) by {
        reveal_with_fuel(Seq::filter, 1);
    }
    while i < entries.len()
        invariant
            0 <= i <= j <= orig.len(),
            i <= entries@.len(),
            entries@.take(i as int) == orig.take(j).filter(id_is_not(id@)),
            entries@.skip(i as int) == orig.skip(j),
            entries@.len() - i == orig.len() - j,
        decreases entries@.len() - i,
    {
        let ghost before = entries@;
        assert(j < orig.len());
        let ghost x = orig[j];
        assert(before[i as int] == x) by {
            assert(before.skip(i as int)[0] == orig.skip(j)[0]);
        }
        proof {
            assert(orig.take(j + 1) == orig.take(j).push(x));
            lemma_filter_push(orig.take(j), x, id_is_not(id@));
        }
        if entries[i].id == *id {
            entries.remove(i);
            proof {
                assert(entries@.take(i as int) == before.take(i as int));
                assert(entries@.skip(i as int) == before.skip(i as int + 1));
                assert(before.skip(i as int + 1) == before.skip(i as int).drop_first());
                assert(orig.skip(j + 1) == orig.skip(j).drop_first());
            }
        } else {
            proof {
                assert(before.take(i as int + 1) == before.take(i as int).push(x));
                assert(before.skip(i as int + 1) == before.skip(i as int).drop_first());
                assert(orig.skip(j + 1) == orig.skip(j).drop_first());
            }
            i = i + 1;
        }
        proof {
            j = j + 1;
        }
    }
    proof {
        assert(orig.skip(j).len() == 0);
        assert(j == orig.len());
        assert(orig.take(j) == orig);
        assert(entries@.take(i as int) == entries@);
        assert forall|k: int| 0 <= k < entries@.len() implies (#[trigger] entries@[k]).id@ != id@ by {
            orig.lemma_filter_pred(id_is_not(id@), k);
        }
    }
}

proof fn lemma_filter_twice<A>(s: Seq<A>, p: spec_fn(A) -> bool)
    ensures
        s.filter(p).filter(p) == s.filter(p),
    decreases s.len(),
{
    if s.len() > 0 {
        let t = s.drop_last();
        lemma_filter_twice(t, p);
        assert(s == t.push(s.last()));
        lemma_filter_push(t, s.last(), p);
        if p(s.last()) {
            lemma_filter_push(t.filter(p), s.last(), p);
        }
    } else {
        reveal_with_fuel(Seq::filter, 1);
    }
}

/// Deleting the same identifier a second time changes nothing.
pub proof fn delete_is_idempotent(entries: Seq<HistoryEntry>, id: Seq<char>)
    ensures
        entries.filter(id_is_not(id)).filter(id_is_not(id)) == entries.filter(id_is_not(id)),
{
    lemma_filter_twice(entries, id_is_not(id));
}

/// The history listed newest first (the list returned by the history command);
/// entries with the same creation time keep their order.
pub fn sort_history_newest_first(entries: Vec<HistoryEntry>) -> (r: Vec<HistoryEntry>)
    ensures
        stable_newest_first(entries@, r@),
        r@.to_multiset() == entries@.to_multiset(),
        r@.len() == entries@.len(),
{
    let ghost orig = entries@;
    let mut rest = entries;
    let mut out: Vec<HistoryEntry> = Vec::new();
    let ghost mut done: int = 0;
    assert(orig.take(0) == out@);
    while rest.len() > 0
        invariant
            0 <= done <= orig.len(),
            rest@ == orig.skip(done),
            newest_first(out@),
            out@.to_multiset() == orig.take(done).to_multiset(),
            forall|t: i64| #[trigger]
                out@.filter(created_at_is(t)) == orig.take(done).filter(created_at_is(t)),
        decreases rest.len(),
    {
        let x = rest.remove(0);
        assert(x == orig[done]);
        let mut p: usize = 0;
        while p < out.len() && out[p].created_at >= x.created_at
            invariant
                p <= out.len(),
                forall|k: int| 0 <= k < p ==> (#[trigger] out@[k]).created_at >= x.created_at,
            decreases out.len() - p,
        {
            p = p + 1;
        }
        let ghost before = out@;
        assert forall|k: int| p <= k < before.len() implies (#[trigger] before[k]).created_at
            < x.created_at by {
            if p < before.len() {
                assert(before[p as int].created_at < x.created_at);
                assert(before[p as int].created_at >= before[k].created_at);
            }
        }
        out.insert(p, x);
        proof {
            assert forall|t: i64| #[trigger]
                out@.filter(created_at_is(t)) == orig.take(done + 1).filter(created_at_is(t)) by {
                lemma_insert_keeps_groups(before, p as int, x, t);
                assert(orig.take(done + 1) == orig.take(done) + seq![x]);
                Seq::filter_distributes_over_add(orig.take(done), seq![x], created_at_is(t));
            }
            assert forall|i: int, j: int| 0 <= i < j < out@.len() implies out@[i].created_at
                >= out@[j].created_at by {
                if j < p {
                } else if j == p {
                    assert(out@[i] == before[i]);
                } else if i < p {
                    assert(out@[j] == before[j - 1]);
                    assert(out@[i] == before[i]);
                } else if i == p {
                    assert(out@[j] == before[j - 1]);
                } else {
                    assert(out@[j] == before[j - 1]);
                    assert(out@[i] == before[i - 1]);
                }
            }
            lemma_insert_to_multiset(before, p as int, x);
            assert(orig.take(done + 1) == orig.take(done).push(x));
            broadcast use vstd::seq_lib::group_to_multiset_ensures;

            done = done + 1;
            assert(rest@ == orig.skip(done));
        }
    }
    assert(orig.take(done) == orig);
    proof {
        broadcast use vstd::seq_lib::group_to_multiset_ensures;

        assert(out@.len() == out@.to_multiset().len());
    }
    out
}


proof fn lemma_filter_cons(s: Seq<HistoryEntry>, t: i64)
    requires
        s.len() > 0,
    ensures
        s.filter(created_at_is(t)) == seq![s[0]].filter(created_at_is(t)) + s.drop_first().filter(
            created_at_is(t),
        ),
{
    assert(s == seq![s[0]] + s.drop_first());
    Seq::filter_distributes_over_add(seq![s[0]], s.drop_first(), created_at_is(t));
}

/// A newest-first list has no entry newer than its first.
proof fn lemma_no_newer_group(s: Seq<HistoryEntry>, t: i64)
    requires
        newest_first(s),
        s.len() > 0,
        t > s[0].created_at,
    ensures
        s.filter(created_at_is(t)) == Seq::<HistoryEntry>::empty(),
{
    assert forall|i: int| 0 <= i < s.len() implies !created_at_is(t)(#[trigger] s[i]) by {
        if i > 0 {
            assert(s[0].created_at >= s[i].created_at);
        }
    }
    lemma_filter_none(s, created_at_is(t));
}

/// Two newest-first lists with the same entries for every creation time, in the same
/// order, are the same list.
proof fn lemma_same_groups_same_list(a: Seq<HistoryEntry>, b: Seq<HistoryEntry>)
    requires
        newest_first(a),
        newest_first(b),
        forall|t: i64| #[trigger] a.filter(created_at_is(t)) == b.filter(created_at_is(t)),
    ensures
        a == b,
    decreases a.len(),
{
    if a.len() == 0 || b.len() == 0 {
        if a.len() > 0 {
            let t = a[0].created_at;
            lemma_filter_cons(a, t);
            lemma_filter_single(a[0], created_at_is(t));
            assert(a.filter(created_at_is(t)).len() > 0);
            assert(b.filter(created_at_is(t)) == b) by {
                reveal_with_fuel(Seq::filter, 1);
            }
        } else if b.len() > 0 {
            let t = b[0].created_at;
            lemma_filter_cons(b, t);
            lemma_filter_single(b[0], created_at_is(t));
            assert(b.filter(created_at_is(t)).len() > 0);
            assert(a.filter(created_at_is(t)) == a) by {
                reveal_with_fuel(Seq::filter, 1);
            }
        }
    } else {
        let ka = a[0].created_at;
        let kb = b[0].created_at;
        lemma_filter_cons(a, ka);
        lemma_filter_single(a[0], created_at_is(ka));
        lemma_filter_cons(b, kb);
        lemma_filter_single(b[0], created_at_is(kb));
        if ka > kb {
            lemma_no_newer_group(b, ka);
            assert(a.filter(created_at_is(ka)).len() > 0);
        } else if kb > ka {
            lemma_no_newer_group(a, kb);
            assert(b.filter(created_at_is(kb)).len() > 0);
        } else {
            let k = ka;
            assert(a.filter(created_at_is(k))[0] == a[0]);
            assert(b.filter(created_at_is(k))[0] == b[0]);
            let ra = a.drop_first();
            let rb = b.drop_first();
            assert forall|t: i64| #[trigger] ra.filter(created_at_is(t)) == rb.filter(
                created_at_is(t),
            ) by {
                lemma_filter_cons(a, t);
                lemma_filter_single(a[0], created_at_is(t));
                lemma_filter_cons(b, t);
                lemma_filter_single(b[0], created_at_is(t));
                if t == k {
                    assert(a.filter(created_at_is(t)).drop_first() == ra.filter(created_at_is(t)));
                    assert(b.filter(created_at_is(t)).drop_first() == rb.filter(created_at_is(t)));
                } else {
                    assert(seq![a[0]].filter(created_at_is(t)) + ra.filter(created_at_is(t))
                        == ra.filter(created_at_is(t)));
                    assert(seq![b[0]].filter(created_at_is(t)) + rb.filter(created_at_is(t))
                        == rb.filter(created_at_is(t)));
                }
            }
            assert forall|i: int, j: int| 0 <= i < j < ra.len() implies ra[i].created_at
                >= ra[j].created_at by {
                assert(ra[i] == a[i + 1] && ra[j] == a[j + 1]);
            }
            assert forall|i: int, j: int| 0 <= i < j < rb.len() implies rb[i].created_at
                >= rb[j].created_at by {
                assert(rb[i] == b[i + 1] && rb[j] == b[j + 1]);
            }
            lemma_same_groups_same_list(ra, rb);
            assert(a == seq![a[0]] + ra);
            assert(b == seq![b[0]] + rb);
        }
    }
}

/// The listing order is determined: any two stable newest-first orders of the same
/// history are equal, and listing a history that is already newest first changes nothing.
pub proof fn listing_order_is_determined(
    entries: Seq<HistoryEntry>,
    r1: Seq<HistoryEntry>,
    r2: Seq<HistoryEntry>,
)
    ensures
        stable_newest_first(entries, r1) && stable_newest_first(entries, r2) ==> r1 == r2,
        newest_first(entries) && stable_newest_first(entries, r1) ==> r1 == entries,
{
    if stable_newest_first(entries, r1) && stable_newest_first(entries, r2) {
        lemma_same_groups_same_list(r1, r2);
    }
    if newest_first(entries) && stable_newest_first(entries, r1) {
        lemma_same_groups_same_list(r1, entries);
    }
}


/// Recording keeps every older entry while there is room: the new entry comes first,
/// then the older entries in their order, cut only at `MAX_HISTORY_ENTRIES` in all.
pub proof fn recording_keeps_older_entries(entries: Seq<HistoryEntry>, e: HistoryEntry)
    ensures
        recorded(entries, e).len() == (if entries.len() + 1 <= MAX_HISTORY_ENTRIES {
            entries.len() + 1
        } else {
            MAX_HISTORY_ENTRIES as nat
        }),
        recorded(entries, e)[0] == e,
        forall|k: int| 1 <= k < recorded(entries, e).len() ==> #[trigger] recorded(entries, e)[k] == entries[k - 1],
        entries.len() < MAX_HISTORY_ENTRIES ==> recorded(entries, e).skip(1) == entries,
{
    let r = recorded(entries, e);
    assert forall|k: int| 1 <= k < r.len() implies #[trigger] r[k] == entries[k - 1] by {
        assert((seq![e] + entries)[k] == entries[k - 1]);
    }
    if entries.len() < MAX_HISTORY_ENTRIES {
        assert(r.skip(1) =~= entries);
    }
}


/// Deleting keeps every entry with another identifier, in its order, and nothing else:
/// each kept entry was in the history, and each entry of the history with another
/// identifier is kept.
pub proof fn deleting_keeps_the_others(entries: Seq<HistoryEntry>, id: Seq<char>)
    ensures
        entries.filter(id_is_not(id)).len() <= entries.len(),
        forall|i: int|
            0 <= i < entries.len() && (#[trigger] entries[i]).id@ != id ==> entries.filter(
                id_is_not(id),
            ).contains(entries[i]),
        forall|i: int|
            0 <= i < entries.filter(id_is_not(id)).len() ==> entries.contains(
                #[trigger] entries.filter(id_is_not(id))[i],
            ) && entries.filter(id_is_not(id))[i].id@ != id,
{
    broadcast use vstd::seq_lib::group_filter_ensures;

    assert forall|i: int|
        0 <= i < entries.filter(id_is_not(id)).len() implies entries.contains(
        #[trigger] entries.filter(id_is_not(id))[i],
    ) by {
        lemma_filter_member(entries, id_is_not(id), i);
    }
}

proof fn lemma_filter_member<A>(s: Seq<A>, p: spec_fn(A) -> bool, i: int)
    requires
        0 <= i < s.filter(p).len(),
    ensures
        s.contains(s.filter(p)[i]),
    decreases s.len(),
{
    reveal(Seq::filter);
    let t = s.drop_last();
    if p(s.last()) && i == s.filter(p).len() - 1 {
        assert(s[s.len() - 1] == s.filter(p)[i]);
    } else {
        assert(s.filter(p)[i] == t.filter(p)[i]);
        lemma_filter_member(t, p, i);
        let k = choose|k: int| 0 <= k < t.len() && t[k] == t.filter(p)[i];
        assert(s[k] == t[k]);
    }
}

} // verus!
