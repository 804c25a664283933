//! Assembling a report from the expanded threads, and guarding its target page.
use crate::error::IndexError;
use crate::parser::{Instructions, DEFAULT_TEMPLATE};
use crate::text::{chars_of, same_chars, trim, trim_chars};
use crate::thread::{thread_views, Thread, ThreadView};
use vstd::prelude::*;
use vstd::seq_lib::{to_multiset_build, to_multiset_insert};

verus! {

/// Threads in order of their first timestamp.
pub open spec fn sorted_by_first(ts: Seq<ThreadView>) -> bool {
    forall|i: int, j: int| 0 <= i < j < ts.len() ==> (#[trigger] ts[i]).first.epoch() <= (#[trigger] ts[j]).first.epoch()
}

/// The position before the first thread of `s` that starts at `key` or later.
pub open spec fn insertion_point(s: Seq<ThreadView>, key: int) -> nat
    decreases s.len(),
{
    if s.len() == 0 || s[0].first.epoch() >= key {
        0
    } else {
        1 + insertion_point(s.drop_first(), key)
    }
}

/// `ts` ordered by first timestamp by insertion: each thread, from the last to the
/// first, goes before every thread already placed that starts with it or later.
pub open spec fn stable_sorted(ts: Seq<ThreadView>) -> Seq<ThreadView>
    decreases ts.len(),
{
    if ts.len() == 0 {
        seq![]
    } else {
        let r = stable_sorted(ts.drop_first());
        r.insert(insertion_point(r, ts[0].first.epoch()) as int, ts[0])
    }
}

/// The threads of `ts` that start at `key`, in their order in `ts`.
pub open spec fn starting_at(ts: Seq<ThreadView>, key: int) -> Seq<ThreadView> {
    ts.filter(|t: ThreadView| t.first.epoch() == key)
}

proof fn lemma_insertion_point_bounds(s: Seq<ThreadView>, key: int)
    ensures
        insertion_point(s, key) <= s.len(),
        forall|i: int| 0 <= i < insertion_point(s, key) ==> (#[trigger] s[i]).first.epoch() < key,
    decreases s.len(),
{
    if s.len() > 0 && s[0].first.epoch() < key {
        lemma_insertion_point_bounds(s.drop_first(), key);
        assert forall|i: int| 0 <= i < insertion_point(s, key) implies (#[trigger] s[i]).first.epoch() < key by {
            if i > 0 {
                assert(s[i] == s.drop_first()[i - 1]);
            }
        }
    }
}

proof fn lemma_filter_single(t: ThreadView, key: int)
    ensures
        starting_at(seq![t], key) == if t.first.epoch() == key { seq![t] } else { Seq::<ThreadView>::empty() },
{
    reveal(Seq::filter);
    let pred = |x: ThreadView| x.first.epoch() == key;
    assert(seq![t].drop_last() =~= Seq::<ThreadView>::empty());
    assert(seq![t].last() == t);
    assert(Seq::<ThreadView>::empty().filter(pred) =~= Seq::<ThreadView>::empty());
    assert(seq![t].filter(pred) == if pred(t) {
        Seq::<ThreadView>::empty().push(t)
    } else {
        Seq::<ThreadView>::empty()
    });
    assert(Seq::<ThreadView>::empty().push(t) =~= seq![t]);
}

proof fn lemma_starting_at_insert(s: Seq<ThreadView>, t: ThreadView, key: int)
    ensures
        starting_at(s.insert(insertion_point(s, t.first.epoch()) as int, t), key) == starting_at(
            seq![t],
            key,
        ) + starting_at(s, key),
{
    let k = t.first.epoch();
    let ip = insertion_point(s, k) as int;
    lemma_insertion_point_bounds(s, k);
    let pre = s.subrange(0, ip);
    let post = s.subrange(ip, s.len() as int);
    let pred = |x: ThreadView| x.first.epoch() == key;
    assert(s.insert(ip, t) =~= pre + seq![t] + post);
    assert(s =~= pre + post);
    Seq::filter_distributes_over_add(pre + seq![t], post, pred);
    Seq::filter_distributes_over_add(pre, seq![t], pred);
    Seq::filter_distributes_over_add(pre, post, pred);
    lemma_filter_single(t, key);
    if key == k {
        assert(pre.all(|x: ThreadView| !pred(x))) by {
            assert forall|i: int| 0 <= i < pre.len() implies !pred(#[trigger] pre[i]) by {
                assert(pre[i] == s[i]);
            }
        }
        pre.lemma_all_neg_filter_empty(pred);
        assert(pre.filter(pred) =~= Seq::<ThreadView>::empty());
        assert(starting_at(s.insert(ip, t), key) =~= starting_at(seq![t], key) + starting_at(s, key));
    } else {
        assert(starting_at(seq![t], key) =~= Seq::<ThreadView>::empty());
        assert(starting_at(s.insert(ip, t), key) =~= starting_at(seq![t], key) + starting_at(s, key));
    }
}

/// Sorting is stable: for every starting moment, the threads that start then come out
/// in the order they went in.
pub proof fn lemma_stable_sorted_keeps_ties(ts: Seq<ThreadView>, key: int)
    ensures
        starting_at(stable_sorted(ts), key) == starting_at(ts, key),
    decreases ts.len(),
{
    if ts.len() > 0 {
        let rest = ts.drop_first();
        lemma_stable_sorted_keeps_ties(rest, key);
        lemma_starting_at_insert(stable_sorted(rest), ts[0], key);
        assert(ts =~= seq![ts[0]] + rest);
        Seq::filter_distributes_over_add(seq![ts[0]], rest, |x: ThreadView| x.first.epoch() == key);
    }
}

proof fn lemma_insertion_point(s: Seq<ThreadView>, key: int, j: int)
    requires
        0 <= j <= s.len(),
        forall|i: int| 0 <= i < j ==> (#[trigger] s[i]).first.epoch() < key,
        j < s.len() ==> s[j].first.epoch() >= key,
    ensures
        insertion_point(s, key) == j,
    decreases j,
{
    if j > 0 {
        assert forall|i: int| 0 <= i < j - 1 implies (#[trigger] s.drop_first()[i]).first.epoch() < key by {
            assert(s.drop_first()[i] == s[i + 1]);
        }
        if j < s.len() {
            assert(s.drop_first()[j - 1] == s[j]);
        }
        lemma_insertion_point(s.drop_first(), key, j - 1);
    }
}

/// Inserts `t` after the threads that start before it and before those that start
/// with it or later.
#[verifier::rlimit(60)]
fn insert_sorted(out: &mut Vec<Thread>, t: Thread)
    requires
        t.wf(),
        forall|i: int| 0 <= i < old(out)@.len() ==> (#[trigger] old(out)@[i]).wf(),
        sorted_by_first(thread_views(old(out)@)),
    ensures
        forall|i: int| 0 <= i < final(out)@.len() ==> (#[trigger] final(out)@[i]).wf(),
        sorted_by_first(thread_views(final(out)@)),
        thread_views(final(out)@).to_multiset() == thread_views(old(out)@).to_multiset().insert(t@),
        thread_views(final(out)@) == thread_views(old(out)@).insert(
            insertion_point(thread_views(old(out)@), t.first.epoch()) as int,
            t@,
        ),
{
    broadcast use to_multiset_insert;

    let key = t.first_epoch();
    let mut j: usize = 0;
    while j < out.len() && out[j].first_epoch() < key
        invariant
            j <= out@.len(),
            t.wf(),
            key == t.first.epoch(),
            forall|i: int| 0 <= i < out@.len() ==> (#[trigger] out@[i]).wf(),
            forall|i: int| 0 <= i < j ==> (#[trigger] out@[i]).first.epoch() < key,
        decreases out@.len() - j,
    {
        j = j + 1;
    }
    let ghost before = thread_views(out@);
    proof {
        if j < before.len() {
            assert(before[j as int] == out@[j as int]@);
        }
        assert forall|i: int| 0 <= i < j implies (#[trigger] before[i]).first.epoch() < key by {
            assert(before[i] == out@[i]@);
        }
        lemma_insertion_point(before, key as int, j as int);
    }
    assert(forall|i: int| j <= i < before.len() ==> (#[trigger] before[i]).first.epoch() >= key) by {
        assert forall|i: int| j <= i < before.len() implies (#[trigger] before[i]).first.epoch() >= key by {
            if j < before.len() {
                assert(before[j as int] == out@[j as int]@);
                if i > j {
                    assert(before[j as int].first.epoch() <= before[i].first.epoch());
                }
            }
        }
    }
    out.insert(j, t);
    assert(thread_views(out@) =~= before.insert(j as int, t@));
    assert(sorted_by_first(thread_views(out@))) by {
        let nv = before.insert(j as int, t@);
        assert forall|x: int, y: int| 0 <= x < y < nv.len() implies (#[trigger] nv[x]).first.epoch()
            <= (#[trigger] nv[y]).first.epoch() by {
            if y < j {
                assert(nv[x] == before[x] && nv[y] == before[y]);
            } else if y == j {
                assert(nv[x] == before[x]);
            } else if x < j {
                assert(nv[x] == before[x] && nv[y] == before[y - 1]);
            } else if x == j {
                assert(nv[y] == before[y - 1]);
            } else {
                assert(nv[x] == before[x - 1] && nv[y] == before[y - 1]);
            }
        }
    }
}

/// Sorts threads by their first timestamp; threads that start together keep their order.
pub fn sort_threads(threads: Vec<Thread>) -> (r: Vec<Thread>)
    requires
        forall|i: int| 0 <= i < threads@.len() ==> (#[trigger] threads@[i]).wf(),
    ensures
        thread_views(r@) == stable_sorted(thread_views(threads@)),
        sorted_by_first(thread_views(r@)),
        forall|key: int| #[trigger] starting_at(thread_views(r@), key) == starting_at(thread_views(threads@), key),
        thread_views(r@).to_multiset() == thread_views(threads@).to_multiset(),
        forall|i: int| 0 <= i < r@.len() ==> (#[trigger] r@[i]).wf(),
{
    broadcast use to_multiset_build, to_multiset_insert;

    let mut out: Vec<Thread> = Vec::new();
    let mut input = threads;
    let ghost orig = input@;
    let n = input.len();
    assert(thread_views(out@) =~= Seq::<ThreadView>::empty());
    assert(orig.skip(n as int) =~= Seq::<Thread>::empty());
    assert(thread_views(orig.skip(n as int)) =~= Seq::<ThreadView>::empty());
    assert(orig.take(n as int) =~= orig);
    let mut m: usize = n;
    while m > 0
        invariant
            n == orig.len(),
            m <= n,
            input@ == orig.take(m as int),
            forall|i: int| 0 <= i < orig.len() ==> (#[trigger] orig[i]).wf(),
            forall|i: int| 0 <= i < out@.len() ==> (#[trigger] out@[i]).wf(),
            sorted_by_first(thread_views(out@)),
            thread_views(out@).to_multiset() == thread_views(orig.skip(m as int)).to_multiset(),
            thread_views(out@) == stable_sorted(thread_views(orig.skip(m as int))),
        decreases m,
    {
        let t = input.pop().unwrap();
        assert(t == orig[m - 1]);
        let ghost tv = t@;
        insert_sorted(&mut out, t);
        proof {
            assert(thread_views(orig.skip(m - 1)) =~= thread_views(orig.skip(m as int)).insert(0, tv));
            to_multiset_insert(thread_views(orig.skip(m as int)), 0, tv);
            let sk = thread_views(orig.skip(m - 1));
            assert(sk[0] == tv);
            assert(sk.drop_first() =~= thread_views(orig.skip(m as int)));
        }
        m = m - 1;
        assert(input@ =~= orig.take(m as int));
    }
    assert(orig.skip(0) =~= orig);
    assert forall|key: int| #[trigger] starting_at(thread_views(out@), key) == starting_at(thread_views(orig), key) by {
        lemma_stable_sorted_keeps_ties(thread_views(orig), key);
    }
    out
}


/// The threads of all masks, sorted by first timestamp; an empty list is an error, as it
/// usually means a broken mask.
pub fn prepare_threads(threads: Vec<Thread>) -> (r: Result<Vec<Thread>, IndexError>)
    requires
        forall|i: int| 0 <= i < threads@.len() ==> (#[trigger] threads@[i]).wf(),
    ensures
        r is Err <==> threads@.len() == 0,
        r is Err ==> r == Err::<Vec<Thread>, IndexError>(IndexError::ZeroThreads),
        r matches Ok(v) ==> thread_views(v@) == stable_sorted(thread_views(threads@))
            && sorted_by_first(thread_views(v@)) && (forall|key: int| #[trigger] starting_at(thread_views(v@), key)
            == starting_at(thread_views(threads@), key)) && thread_views(v@).to_multiset()
            == thread_views(threads@).to_multiset() && forall|i: int|
            0 <= i < v@.len() ==> (#[trigger] v@[i]).wf(),
{
    if threads.len() == 0 {
        Err(IndexError::ZeroThreads)
    } else {
        Ok(sort_threads(threads))
    }
}

/// The comments that allow the report to overwrite its target page.
pub open spec fn is_safety_marker(text: Seq<char>) -> bool {
    text == "HBC Archive Indexerbot can blank this"@ || text == "Legobot can blank this"@
}

/// Whether one of the target page's comments, trimmed, is a safety marker.
pub fn has_comment(comments: &Vec<String>) -> (r: bool)
    ensures
        r == exists|i: int| 0 <= i < comments@.len() && is_safety_marker(trim(#[trigger] comments@[i]@)),
{
    let a = chars_of("HBC Archive Indexerbot can blank this");
    let b = chars_of("Legobot can blank this");
    let mut i: usize = 0;
    while i < comments.len()
        invariant
            a@ == "HBC Archive Indexerbot can blank this"@,
            b@ == "Legobot can blank this"@,
            i <= comments@.len(),
            forall|k: int| 0 <= k < i ==> !is_safety_marker(trim(#[trigger] comments@[k]@)),
        decreases comments@.len() - i,
    {
        let c = trim_chars(&chars_of(&comments[i]));
        if same_chars(&c, &a) || same_chars(&c, &b) {
            return true;
        }
        i = i + 1;
    }
    false
}

/// Whether the new report differs from the target's text, white space at either end aside.
pub fn needs_save(old_text: &str, new_text: &str) -> (r: bool)
    ensures
        r == (trim(old_text@) != trim(new_text@)),
{
    !same_chars(&trim_chars(&chars_of(old_text)), &trim_chars(&chars_of(new_text)))
}

/// Whether the instructions ask for the built-in default template.
pub fn uses_default_template(instructions: &Instructions) -> (r: bool)
    ensures
        r == (instructions.template@ == DEFAULT_TEMPLATE@),
{
    same_chars(&chars_of(&instructions.template), &chars_of(DEFAULT_TEMPLATE))
}

} // verus!
