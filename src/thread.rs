//! Thread records, and their extraction from the sections of a discussion page.
use crate::calendar::{Timestamp, format_duration, lemma_epoch_bounds, duration_text};
use crate::text::{
    append_chars, chars_of, digit_value, replace_chars, replaced, same_chars, string_of, value_of,
};
use vstd::prelude::*;
use vstd::seq_lib::to_multiset_contains;

verus! {

/// A heading that opens a section.
pub struct Heading {
    /// Depth in the heading hierarchy; top-level discussion headings are at 2.
    pub level: u32,
    /// The heading's display text.
    pub text: String,
    /// The heading's stable anchor identifier.
    pub anchor: String,
}

/// One section of a parsed page: its heading, if any, and its flattened text.
pub struct Section {
    pub heading: Option<Heading>,
    pub text: String,
}

/// A parsed page: its title and its sections, in order.
pub struct Document {
    pub title: String,
    pub sections: Vec<Section>,
}

/// One discussion thread.
pub struct Thread {
    pub topic: String,
    pub replies: usize,
    pub link: String,
    pub first: Timestamp,
    pub last: Timestamp,
}

/// What a thread holds, as plain values.
pub struct ThreadView {
    pub topic: Seq<char>,
    pub replies: nat,
    pub link: Seq<char>,
    pub first: Timestamp,
    pub last: Timestamp,
}

impl View for Thread {
    type V = ThreadView;

    open spec fn view(&self) -> ThreadView {
        ThreadView {
            topic: self.topic@,
            replies: self.replies as nat,
            link: self.link@,
            first: self.first,
            last: self.last,
        }
    }
}

pub open spec fn thread_views(ts: Seq<Thread>) -> Seq<ThreadView> {
    ts.map_values(|t: Thread| t@)
}

impl ThreadView {
    /// Both timestamps are real, and the first is not after the last.
    pub open spec fn wf(&self) -> bool {
        self.first.wf() && self.last.wf() && self.first.epoch() <= self.last.epoch()
    }
}

impl Thread {
    pub open spec fn wf(&self) -> bool {
        self@.wf()
    }

    /// The first timestamp, as `HH:MM, D Month YYYY`.
    pub fn first(&self) -> (r: String)
        requires
            self.wf(),
        ensures
            r@ == self.first.text(),
    {
        self.first.format()
    }

    pub fn first_epoch(&self) -> (r: i64)
        requires
            self.wf(),
        ensures
            r == self.first.epoch(),
    {
        self.first.epoch_secs()
    }

    /// The last timestamp, as `HH:MM, D Month YYYY`.
    pub fn last(&self) -> (r: String)
        requires
            self.wf(),
        ensures
            r@ == self.last.text(),
    {
        self.last.format()
    }

    pub fn last_epoch(&self) -> (r: i64)
        requires
            self.wf(),
        ensures
            r == self.last.epoch(),
    {
        self.last.epoch_secs()
    }

    /// Seconds from the first timestamp to the last.
    pub fn duration_secs(&self) -> (r: i64)
        requires
            self.wf(),
        ensures
            r == self.last.epoch() - self.first.epoch(),
            r >= 0,
    {
        proof {
            lemma_epoch_bounds(self.first);
            lemma_epoch_bounds(self.last);
        }
        self.last_epoch() - self.first_epoch()
    }

    /// The time from the first timestamp to the last, as `D day(s), H:MM:SS`.
    pub fn duration(&self) -> (r: String)
        requires
            self.wf(),
        ensures
            r@ == duration_text((self.last.epoch() - self.first.epoch()) as nat),
    {
        format_duration(self.duration_secs() as u64)
    }
}

/// The pattern of a signature timestamp: `HH:MM(:SS)?, D Month YYYY`.
pub const TIMESTAMP_PATTERN: &'static str = "(\\d{2}):(\\d{2})(?::\\d{2})?, (\\d{1,2}) (January|February|March|April|May|June|July|August|September|October|November|December) (\\d{4})";

/// Whether a regular expression compiles.
pub uninterp spec fn regex_compiles(pattern: Seq<char>) -> bool;

/// Every non-overlapping match of `pattern` in `text`, leftmost first, each given as
/// its capture groups (group 0 being the whole match).
pub uninterp spec fn regex_captures_of(pattern: Seq<char>, text: Seq<char>) -> Seq<Seq<Seq<char>>>;

/// Relies on `regex::Regex::new`, which fails on a pattern it cannot compile, and on
/// `Regex::captures_iter`, which yields each match with all its groups; a group that
/// took no part is given as an empty string. The timestamp pattern is one that
/// `Regex::new` accepts.
#[verifier::external_body]
pub(crate) fn regex_captures(pattern: &str, text: &str) -> (r: Option<Vec<Vec<String>>>)
    ensures
        r is Some == regex_compiles(pattern@),
        r matches Some(v) ==> v.deep_view() == regex_captures_of(pattern@, text@),
        pattern@ == TIMESTAMP_PATTERN@ ==> r is Some,
{
    let re = regex::Regex::new(pattern).ok()?;
    Some(
        re.captures_iter(text).map(
            |c| c.iter().map(|g| g.map_or(String::new(), |m| m.as_str().to_string())).collect(),
        ).collect(),
    )
}

/// A number written with `lo` to `hi` ASCII digits (at most four).
pub open spec fn number_of(s: Seq<char>, lo: nat, hi: nat) -> Option<nat> {
    if lo <= s.len() <= hi && hi <= 4 && forall|i: int| 0 <= i < s.len() ==> (#[trigger] digit_value(s[i])) is Some {
        Some(value_of(s))
    } else {
        None
    }
}

/// The number (1 to 12) of an English month name.
pub open spec fn month_number(s: Seq<char>) -> Option<nat> {
    if s == "January"@ { Some(1) } else if s == "February"@ { Some(2) } else if s == "March"@ { Some(3) }
    else if s == "April"@ { Some(4) } else if s == "May"@ { Some(5) } else if s == "June"@ { Some(6) }
    else if s == "July"@ { Some(7) } else if s == "August"@ { Some(8) } else if s == "September"@ { Some(9) }
    else if s == "October"@ { Some(10) } else if s == "November"@ { Some(11) } else if s == "December"@ { Some(12) }
    else { None }
}

/// The timestamp that one match of the timestamp pattern names, if it is a real one.
/// Seconds, when present, are ignored.
pub open spec fn capture_timestamp(c: Seq<Seq<char>>) -> Option<Timestamp> {
    if c.len() >= 6 {
        let hour = number_of(c[1], 2, 2);
        let minute = number_of(c[2], 2, 2);
        let day = number_of(c[3], 1, 2);
        let month = month_number(c[4]);
        let year = number_of(c[5], 4, 4);
        if hour is Some && minute is Some && day is Some && month is Some && year is Some {
            let t = Timestamp {
                year: year->0 as u16,
                month: month->0 as u8,
                day: day->0 as u8,
                hour: hour->0 as u8,
                minute: minute->0 as u8,
            };
            if t.wf() { Some(t) } else { None }
        } else {
            None
        }
    } else {
        None
    }
}

/// The real timestamps among the matches, in order.
pub open spec fn valid_timestamps(caps: Seq<Seq<Seq<char>>>) -> Seq<Timestamp>
    decreases caps.len(),
{
    if caps.len() == 0 {
        seq![]
    } else {
        let rest = valid_timestamps(caps.drop_last());
        match capture_timestamp(caps.last()) {
            Some(t) => rest.push(t),
            None => rest,
        }
    }
}

/// The timestamps found in a section's text.
pub open spec fn section_timestamps(text: Seq<char>) -> Seq<Timestamp> {
    valid_timestamps(regex_captures_of(TIMESTAMP_PATTERN@, text))
}

/// The earliest of `ts` (the first such, on a tie).
pub open spec fn earliest(ts: Seq<Timestamp>) -> Timestamp
    decreases ts.len(),
{
    if ts.len() <= 1 {
        ts[0]
    } else {
        let e = earliest(ts.drop_last());
        if ts.last().epoch() < e.epoch() { ts.last() } else { e }
    }
}

/// The latest of `ts` (the first such, on a tie).
pub open spec fn latest(ts: Seq<Timestamp>) -> Timestamp
    decreases ts.len(),
{
    if ts.len() <= 1 {
        ts[0]
    } else {
        let l = latest(ts.drop_last());
        if ts.last().epoch() > l.epoch() { ts.last() } else { l }
    }
}

/// `[[Title#anchor]]`, with underscores in the anchor shown as spaces.
pub open spec fn link_text(title: Seq<char>, anchor: Seq<char>) -> Seq<char> {
    "[["@ + title + "#"@ + replaced(anchor, "_"@, " "@) + "]]"@
}

/// Whether a section is a top-level discussion thread.
pub open spec fn is_thread_section(s: Section) -> bool {
    s.heading matches Some(h) && h.level == 2
}

/// The thread under heading `h` whose text gave the timestamp matches `caps`, if any
/// of them is a real timestamp.
pub open spec fn captures_thread(title: Seq<char>, h: Heading, caps: Seq<Seq<Seq<char>>>) -> Option<ThreadView> {
    let ts = valid_timestamps(caps);
    if ts.len() > 0 {
        Some(ThreadView {
            topic: h.text@,
            replies: ts.len(),
            link: link_text(title, h.anchor@),
            first: earliest(ts),
            last: latest(ts),
        })
    } else {
        None
    }
}

/// The thread that a top-level section forms, if it has any timestamps.
pub open spec fn section_thread(title: Seq<char>, s: Section) -> Option<ThreadView> {
    if is_thread_section(s) {
        captures_thread(title, s.heading->0, regex_captures_of(TIMESTAMP_PATTERN@, s.text@))
    } else {
        None
    }
}

/// The threads of a page, in the order of their sections.
pub open spec fn page_threads(title: Seq<char>, sections: Seq<Section>) -> Seq<ThreadView>
    decreases sections.len(),
{
    if sections.len() == 0 {
        seq![]
    } else {
        let rest = page_threads(title, sections.drop_last());
        match section_thread(title, sections.last()) {
            Some(t) => rest.push(t),
            None => rest,
        }
    }
}


/// Reads a number written with `lo` to `hi` ASCII digits.
pub fn parse_number(s: &[char], lo: usize, hi: usize) -> (r: Option<u16>)
    requires
        hi <= 4,
    ensures
        r matches Some(v) ==> number_of(s@, lo as nat, hi as nat) == Some(v as nat),
        r is None ==> number_of(s@, lo as nat, hi as nat) is None,
{
    if s.len() < lo || s.len() > hi {
        return None;
    }
    let mut v: u16 = 0;
    let mut i: usize = 0;
    while i < s.len()
        invariant
            s@.len() <= 4,
            i <= s@.len(),
            v as nat == value_of(s@.take(i as int)),
            v < if i == 0 { 1int } else if i == 1 { 10 } else if i == 2 { 100 } else if i == 3 { 1000 } else { 10000 },
            forall|k: int| 0 <= k < i ==> (#[trigger] digit_value(s@[k])) is Some,
        decreases s@.len() - i,
    {
        let d = digit_of(s[i]);
        match d {
            None => {
                return None;
            },
            Some(d) => {
                assert(s@.take(i + 1).drop_last() =~= s@.take(i as int));
                v = v * 10 + d;
                i = i + 1;
            },
        }
    }
    assert(s@.take(i as int) =~= s@);
    Some(v)
}

/// The value of a decimal digit character.
pub fn digit_of(c: char) -> (r: Option<u16>)
    ensures
        r matches Some(d) ==> digit_value(c) == Some(d as nat) && d < 10,
        r is None ==> digit_value(c) is None,
{
    if c == '0' { Some(0) } else if c == '1' { Some(1) } else if c == '2' { Some(2) }
    else if c == '3' { Some(3) } else if c == '4' { Some(4) } else if c == '5' { Some(5) }
    else if c == '6' { Some(6) } else if c == '7' { Some(7) } else if c == '8' { Some(8) }
    else if c == '9' { Some(9) } else { None }
}

/// The number (1 to 12) of an English month name.
pub fn get_month(input: &str) -> (r: Option<u8>)
    ensures
        r matches Some(m) ==> month_number(input@) == Some(m as nat),
        r is None ==> month_number(input@) is None,
{
    let c = chars_of(input);
    if same_chars(&c, &chars_of("January")) { Some(1) }
    else if same_chars(&c, &chars_of("February")) { Some(2) }
    else if same_chars(&c, &chars_of("March")) { Some(3) }
    else if same_chars(&c, &chars_of("April")) { Some(4) }
    else if same_chars(&c, &chars_of("May")) { Some(5) }
    else if same_chars(&c, &chars_of("June")) { Some(6) }
    else if same_chars(&c, &chars_of("July")) { Some(7) }
    else if same_chars(&c, &chars_of("August")) { Some(8) }
    else if same_chars(&c, &chars_of("September")) { Some(9) }
    else if same_chars(&c, &chars_of("October")) { Some(10) }
    else if same_chars(&c, &chars_of("November")) { Some(11) }
    else if same_chars(&c, &chars_of("December")) { Some(12) }
    else { None }
}

/// The timestamp that one match of the timestamp pattern names, if it is a real one.
pub fn capture_to_timestamp(c: &Vec<String>) -> (r: Option<Timestamp>)
    ensures
        r == capture_timestamp(c.deep_view()),
        r matches Some(t) ==> t.wf(),
{
    let ghost dv = c.deep_view();
    if c.len() < 6 {
        return None;
    }
    assert(dv[2] == c@[2]@ && dv[1] == c@[1]@ && dv[3] == c@[3]@ && dv[4] == c@[4]@ && dv[5] == c@[5]@);
    let hour = parse_number(&chars_of(&c[1]), 2, 2);
    let minute = parse_number(&chars_of(&c[2]), 2, 2);
    let day = parse_number(&chars_of(&c[3]), 1, 2);
    let month = get_month(&c[4]);
    let year = parse_number(&chars_of(&c[5]), 4, 4);
    match (hour, minute, day, month, year) {
        (Some(h), Some(mi), Some(d), Some(m), Some(y)) => {
            Timestamp::new(y, m, d as u8, h as u8, mi as u8)
        },
        _ => None,
    }
}

/// `[[Title#anchor]]`, with underscores in the anchor shown as spaces.
pub fn make_link(title: &str, anchor: &str) -> (r: String)
    ensures
        r@ == link_text(title@, anchor@),
{
    let mut v = chars_of("[[");
    append_chars(&mut v, &chars_of(title));
    append_chars(&mut v, &chars_of("#"));
    proof {
        reveal_strlit("_");
    }
    let a = replace_chars(&chars_of(anchor), &chars_of("_"), &chars_of(" "));
    append_chars(&mut v, &a);
    append_chars(&mut v, &chars_of("]]"));
    assert(v@ =~= link_text(title@, anchor@));
    string_of(&v)
}

/// The thread under heading `h` whose text gave the timestamp matches `caps`: its
/// real timestamps give the count and the earliest and latest moments.
#[verifier::rlimit(50)]
pub fn thread_from_captures(title: &str, h: &Heading, caps: &Vec<Vec<String>>) -> (r: Option<Thread>)
    ensures
        r matches Some(t) ==> captures_thread(title@, *h, caps.deep_view()) == Some(t@) && t.wf(),
        r is None ==> captures_thread(title@, *h, caps.deep_view()) is None,
{
    let ghost all = caps.deep_view();
    let mut count: usize = 0;
    let mut first = Timestamp { year: 0, month: 1, day: 1, hour: 0, minute: 0 };
    let mut last = first;
    let mut j: usize = 0;
    while j < caps.len()
        invariant
            all == caps.deep_view(),
            j <= caps@.len(),
            count as nat == valid_timestamps(all.take(j as int)).len(),
            count <= j,
            count > 0 ==> first == earliest(valid_timestamps(all.take(j as int))),
            count > 0 ==> last == latest(valid_timestamps(all.take(j as int))),
            count > 0 ==> first.wf() && last.wf() && first.epoch() <= last.epoch(),
        decreases caps@.len() - j,
    {
        let t = capture_to_timestamp(&caps[j]);
        let ghost prev = valid_timestamps(all.take(j as int));
        proof {
            assert(all.take(j + 1).drop_last() =~= all.take(j as int));
            assert(all[j as int] == caps@[j as int].deep_view());
            assert(all.take(j + 1).last() == all[j as int]);
            if let Some(t) = t {
                assert(valid_timestamps(all.take(j + 1)) == prev.push(t));
                assert(prev.push(t).drop_last() =~= prev);
            } else {
                assert(valid_timestamps(all.take(j + 1)) == prev);
            }
        }
        if let Some(t) = t {
            if count == 0 {
                first = t;
                last = t;
            } else {
                let te = t.epoch_secs();
                if te < first.epoch_secs() {
                    first = t;
                }
                if te > last.epoch_secs() {
                    last = t;
                }
            }
            count = count + 1;
        }
        j = j + 1;
    }
    assert(all.take(j as int) =~= all);
    if count == 0 {
        return None;
    }
    let link = make_link(title, &h.anchor);
    Some(Thread { topic: h.text.clone(), replies: count, link, first, last })
}

/// The thread that one section forms, if it is a top-level section with timestamps.
pub fn thread_of_section(title: &str, s: &Section) -> (r: Option<Thread>)
    ensures
        r matches Some(t) ==> section_thread(title@, *s) == Some(t@) && t.wf(),
        r is None ==> section_thread(title@, *s) is None,
{
    let h = match &s.heading {
        Some(h) => h,
        None => {
            return None;
        },
    };
    if h.level != 2 {
        return None;
    }
    match regex_captures(TIMESTAMP_PATTERN, &s.text) {
        Some(caps) => thread_from_captures(title, h, &caps),
        None => None,
    }
}

/// Extracts the threads of a page: one for each top-level section that holds at
/// least one real timestamp, in the order of the sections.
#[verifier::rlimit(60)]
pub fn extract_threads(doc: &Document) -> (r: Vec<Thread>)
    ensures
        thread_views(r@) == page_threads(doc.title@, doc.sections@),
        forall|i: int| 0 <= i < r@.len() ==> (#[trigger] r@[i]).wf(),
{
    let mut out: Vec<Thread> = Vec::new();
    let mut i: usize = 0;
    while i < doc.sections.len()
        invariant
            i <= doc.sections@.len(),
            thread_views(out@) == page_threads(doc.title@, doc.sections@.take(i as int)),
            forall|k: int| 0 <= k < out@.len() ==> (#[trigger] out@[k]).wf(),
        decreases doc.sections@.len() - i,
    {
        let ghost before = out@;
        match thread_of_section(&doc.title, &doc.sections[i]) {
            Some(t) => {
                out.push(t);
            },
            None => {},
        }
        proof {
            assert(doc.sections@.take(i + 1).drop_last() =~= doc.sections@.take(i as int));
            assert(thread_views(out@) =~= page_threads(doc.title@, doc.sections@.take(i + 1)));
        }
        i = i + 1;
    }
    assert(doc.sections@.take(i as int) =~= doc.sections@);
    out
}


/// `earliest` is one of the timestamps, and none is earlier.
pub proof fn lemma_earliest(ts: Seq<Timestamp>)
    requires
        ts.len() > 0,
    ensures
        exists|k: int| 0 <= k < ts.len() && ts[k] == earliest(ts),
        forall|i: int| 0 <= i < ts.len() ==> earliest(ts).epoch() <= (#[trigger] ts[i]).epoch(),
    decreases ts.len(),
{
    if ts.len() > 1 {
        let rest = ts.drop_last();
        lemma_earliest(rest);
        let k = choose|k: int| 0 <= k < rest.len() && rest[k] == earliest(rest);
        assert(ts[k] == rest[k]);
        if ts.last().epoch() < earliest(rest).epoch() {
            assert(ts[ts.len() - 1] == earliest(ts));
        }
        assert forall|i: int| 0 <= i < ts.len() implies earliest(ts).epoch() <= (#[trigger] ts[i]).epoch() by {
            if i < ts.len() - 1 {
                assert(ts[i] == rest[i]);
            }
        }
    } else {
        assert(ts[0] == earliest(ts));
    }
}

/// `latest` is one of the timestamps, and none is later.
pub proof fn lemma_latest(ts: Seq<Timestamp>)
    requires
        ts.len() > 0,
    ensures
        exists|k: int| 0 <= k < ts.len() && ts[k] == latest(ts),
        forall|i: int| 0 <= i < ts.len() ==> latest(ts).epoch() >= (#[trigger] ts[i]).epoch(),
    decreases ts.len(),
{
    if ts.len() > 1 {
        let rest = ts.drop_last();
        lemma_latest(rest);
        let k = choose|k: int| 0 <= k < rest.len() && rest[k] == latest(rest);
        assert(ts[k] == rest[k]);
        if ts.last().epoch() > latest(rest).epoch() {
            assert(ts[ts.len() - 1] == latest(ts));
        }
        assert forall|i: int| 0 <= i < ts.len() implies latest(ts).epoch() >= (#[trigger] ts[i]).epoch() by {
            if i < ts.len() - 1 {
                assert(ts[i] == rest[i]);
            }
        }
    } else {
        assert(ts[0] == latest(ts));
    }
}

/// A top-level section's thread starts at its strictly earliest timestamp and ends at its
/// strictly latest one, wherever those stand in the text, and counts every real timestamp.
pub proof fn lemma_section_thread_extremes(title: Seq<char>, s: Section, lo: int, hi: int)
    requires
        is_thread_section(s),
        0 <= lo < section_timestamps(s.text@).len(),
        0 <= hi < section_timestamps(s.text@).len(),
        forall|i: int|
            0 <= i < section_timestamps(s.text@).len() && i != lo ==> section_timestamps(s.text@)[lo].epoch()
                < (#[trigger] section_timestamps(s.text@)[i]).epoch(),
        forall|i: int|
            0 <= i < section_timestamps(s.text@).len() && i != hi ==> section_timestamps(s.text@)[hi].epoch()
                > (#[trigger] section_timestamps(s.text@)[i]).epoch(),
    ensures
        section_thread(title, s) == Some(
            ThreadView {
                topic: s.heading->0.text@,
                replies: section_timestamps(s.text@).len(),
                link: link_text(title, s.heading->0.anchor@),
                first: section_timestamps(s.text@)[lo],
                last: section_timestamps(s.text@)[hi],
            },
        ),
{
    let ts = section_timestamps(s.text@);
    lemma_earliest(ts);
    lemma_latest(ts);
    let a = choose|k: int| 0 <= k < ts.len() && ts[k] == earliest(ts);
    let b = choose|k: int| 0 <= k < ts.len() && ts[k] == latest(ts);
    if a != lo {
        assert(ts[lo].epoch() < ts[a].epoch());
        assert(earliest(ts).epoch() <= ts[lo].epoch());
    }
    if b != hi {
        assert(ts[hi].epoch() > ts[b].epoch());
        assert(latest(ts).epoch() >= ts[hi].epoch());
    }
}


/// The timestamps of `ts` are distinct moments.
pub open spec fn distinct_moments(ts: Seq<Timestamp>) -> bool {
    forall|i: int, j: int| 0 <= i < ts.len() && 0 <= j < ts.len() && i != j ==> (#[trigger] ts[i]).epoch() != (#[trigger] ts[j]).epoch()
}

proof fn lemma_same_moment_same_timestamp(ts: Seq<Timestamp>, a: Timestamp, b: Timestamp)
    requires
        distinct_moments(ts),
        ts.contains(a),
        ts.contains(b),
        a.epoch() == b.epoch(),
    ensures
        a == b,
{
    let i = choose|i: int| 0 <= i < ts.len() && ts[i] == a;
    let j = choose|j: int| 0 <= j < ts.len() && ts[j] == b;
    if i != j {
        assert(ts[i].epoch() != ts[j].epoch());
    }
}

proof fn lemma_shared(t1: Seq<Timestamp>, t2: Seq<Timestamp>, x: Timestamp)
    requires
        t1.to_multiset() == t2.to_multiset(),
        t1.contains(x),
    ensures
        t2.contains(x),
{
    to_multiset_contains(t1, x);
    to_multiset_contains(t2, x);
}

/// A section's thread does not depend on the order in which its timestamps appear:
/// two texts whose real timestamps are the same distinct moments, in any order, give
/// the same thread.
#[verifier::rlimit(30)]
pub proof fn lemma_thread_order_free(title: Seq<char>, h: Heading, c1: Seq<Seq<Seq<char>>>, c2: Seq<Seq<Seq<char>>>)
    requires
        valid_timestamps(c1).to_multiset() == valid_timestamps(c2).to_multiset(),
        distinct_moments(valid_timestamps(c1)),
    ensures
        captures_thread(title, h, c1) == captures_thread(title, h, c2),
{
    let t1 = valid_timestamps(c1);
    let t2 = valid_timestamps(c2);
    vstd::seq_lib::to_multiset_len(t1);
    vstd::seq_lib::to_multiset_len(t2);
    if t1.len() > 0 {
        lemma_earliest(t1);
        lemma_earliest(t2);
        lemma_latest(t1);
        lemma_latest(t2);
        let e1 = earliest(t1);
        let e2 = earliest(t2);
        let l1 = latest(t1);
        let l2 = latest(t2);
        lemma_shared(t1, t2, e1);
        lemma_shared(t2, t1, e2);
        lemma_shared(t1, t2, l1);
        lemma_shared(t2, t1, l2);
        let i2 = choose|k: int| 0 <= k < t2.len() && t2[k] == e1;
        let i1 = choose|k: int| 0 <= k < t1.len() && t1[k] == e2;
        let j2 = choose|k: int| 0 <= k < t2.len() && t2[k] == l1;
        let j1 = choose|k: int| 0 <= k < t1.len() && t1[k] == l2;
        assert(e2.epoch() <= t2[i2].epoch());
        assert(e1.epoch() <= t1[i1].epoch());
        assert(l2.epoch() >= t2[j2].epoch());
        assert(l1.epoch() >= t1[j1].epoch());
        lemma_same_moment_same_timestamp(t1, e1, e2);
        lemma_same_moment_same_timestamp(t1, l1, l2);
    }
}

} // verus!
