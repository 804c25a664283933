//! Masks, which name a series of archive pages, and their expansion into threads.
//!
//! Expansion is a state machine: the caller asks [`Expansion::next_title`] which page to
//! fetch, fetches it, and hands the outcome to [`Expansion::feed`], until the
//! expansion is finished.
use crate::calendar::{month_chars, month_name};
use crate::error::IndexError;
use crate::text::{
    first_at, first_occurrence, replace_first_chars, replaced_first, chars_of, digits_of, padded, push_decimal, push_padded, replace_chars, replaced,
    string_of,
};
use crate::thread::{
    extract_threads, get_month, month_number, number_of, page_threads, parse_number,
    regex_captures, regex_captures_of, regex_compiles, thread_views, Document, Thread, ThreadView,
};
use vstd::prelude::*;

verus! {

/// How to enumerate a series of archive pages.
pub enum Mask {
    /// Pages numbered from 1 in place of `<#>`, zero-padded to `leading_zeros + 1` digits.
    Numerical { mask: String, leading_zeros: u32 },
    /// One page.
    SinglePage { title: String },
    /// Pages by month and year in place of `<month>` and `<year>`, from `first_archive` on.
    Monthly { mask: String, first_archive: String },
    /// Pages by year in place of `<year>`, from `first_archive` on.
    Yearly { mask: String, first_archive: String },
}

/// A mask as plain values.
pub enum MaskView {
    Numerical { mask: Seq<char>, leading_zeros: nat },
    SinglePage { title: Seq<char> },
    Monthly { mask: Seq<char>, first_archive: Seq<char> },
    Yearly { mask: Seq<char>, first_archive: Seq<char> },
}

impl View for Mask {
    type V = MaskView;

    open spec fn view(&self) -> MaskView {
        match self {
            Mask::Numerical { mask, leading_zeros } => MaskView::Numerical {
                mask: mask@,
                leading_zeros: *leading_zeros as nat,
            },
            Mask::SinglePage { title } => MaskView::SinglePage { title: title@ },
            Mask::Monthly { mask, first_archive } => MaskView::Monthly {
                mask: mask@,
                first_archive: first_archive@,
            },
            Mask::Yearly { mask, first_archive } => MaskView::Yearly {
                mask: mask@,
                first_archive: first_archive@,
            },
        }
    }
}

impl MaskView {
    pub open spec fn pattern(self) -> Seq<char> {
        match self {
            MaskView::Numerical { mask, .. } => mask,
            MaskView::SinglePage { title } => title,
            MaskView::Monthly { mask, .. } => mask,
            MaskView::Yearly { mask, .. } => mask,
        }
    }
}

impl Mask {
    /// The mask's pattern, or the single page's title.
    pub open spec fn pattern(&self) -> Seq<char> {
        match self {
            Mask::Numerical { mask, .. } => mask@,
            Mask::SinglePage { title } => title@,
            Mask::Monthly { mask, .. } => mask@,
            Mask::Yearly { mask, .. } => mask@,
        }
    }

    /// The display form of the mask: its underlying pattern.
    pub fn display(&self) -> (r: String)
        ensures
            r@ == self.pattern(),
    {
        match self {
            Mask::Numerical { mask, .. } => mask.clone(),
            Mask::SinglePage { title } => title.clone(),
            Mask::Monthly { mask, .. } => mask.clone(),
            Mask::Yearly { mask, .. } => mask.clone(),
        }
    }
}

/// The alternation of the twelve month names, as a capture group.
pub const MONTH_GROUP: &'static str = "(January|February|March|April|May|June|July|August|September|October|November|December)";

/// The alternation of the twelve month names, as a group that captures nothing.
pub const MONTH_ANY: &'static str = "(?:January|February|March|April|May|June|July|August|September|October|November|December)";

/// A four-digit year, as a capture group.
pub const YEAR_GROUP: &'static str = "(\\d{4})";

/// A four-digit year, as a group that captures nothing.
pub const YEAR_ANY: &'static str = "(?:\\d{4})";

/// The characters that have a meaning of their own in a regular expression.
pub open spec fn is_regex_meta(c: char) -> bool {
    c == '\\' || c == '.' || c == '+' || c == '*' || c == '?' || c == '(' || c == ')' || c == '|'
        || c == '[' || c == ']' || c == '{' || c == '}' || c == '^' || c == '$' || c == '#' || c
        == '&' || c == '-' || c == '~'
}

/// `s` as a regular expression that matches `s` itself: a backslash before each
/// character with a meaning of its own.
pub open spec fn escaped(s: Seq<char>) -> Seq<char>
    decreases s.len(),
{
    if s.len() == 0 {
        seq![]
    } else {
        escaped(s.drop_last()) + if is_regex_meta(s.last()) {
            seq!['\\', s.last()]
        } else {
            seq![s.last()]
        }
    }
}

/// Relies on `regex::escape`: it puts a backslash before each character that
/// `regex_syntax::is_meta_character` accepts, and copies the others.
#[verifier::external_body]
fn regex_escape(s: &str) -> (r: String)
    ensures
        r@ == escaped(s@),
{
    regex::escape(s)
}

/// The pattern that recovers the month (when `monthly`) and the year from a page title.
/// The mask's text matches only itself; the first `<month>` and the first `<year>` each
/// open a capture group, and later ones match the same forms without capturing.
pub open spec fn dated_matcher(mask: Seq<char>, monthly: bool) -> Seq<char> {
    let e = escaped(mask);
    if monthly {
        replaced_first(
            replaced_first(e, "<month>"@, MONTH_GROUP@, MONTH_ANY@),
            "<year>"@,
            YEAR_GROUP@,
            YEAR_ANY@,
        )
    } else {
        replaced_first(e, "<year>"@, YEAR_GROUP@, YEAR_ANY@)
    }
}

/// The capture groups (month, year) of a monthly mask's pattern: the placeholder that
/// comes first in the mask opens group 1.
pub open spec fn month_year_groups(mask: Seq<char>) -> (int, int) {
    if first_at(mask, "<month>"@, 0) < first_at(mask, "<year>"@, 0) {
        (1, 2)
    } else {
        (2, 1)
    }
}

/// The month (0 for a yearly mask) and year that `first_archive` names under `mask`,
/// if it matches.
pub open spec fn dated_start(mask: Seq<char>, first_archive: Seq<char>, monthly: bool) -> Option<
    (nat, nat),
> {
    let p = dated_matcher(mask, monthly);
    let caps = regex_captures_of(p, first_archive);
    if !regex_compiles(p) || caps.len() == 0 {
        None
    } else if monthly {
        let (mi, yi) = month_year_groups(mask);
        if caps[0].len() >= 3 && month_number(caps[0][mi]) is Some && number_of(caps[0][yi], 4, 4) is Some {
            Some((month_number(caps[0][mi])->0, number_of(caps[0][yi], 4, 4)->0))
        } else {
            None
        }
    } else {
        if caps[0].len() >= 2 && number_of(caps[0][1], 4, 4) is Some {
            Some((0, number_of(caps[0][1], 4, 4)->0))
        } else {
            None
        }
    }
}

/// Where an expansion stands.
#[derive(Clone, Copy, PartialEq, Eq, Structural)]
pub enum Cursor {
    Numbered { count: u64 },
    Single,
    Monthly { month: u8, year: u64 },
    Yearly { year: u64 },
    Finished,
}

/// The state of an expansion, as plain values.
pub struct ExpansionModel {
    pub pattern: Seq<char>,
    pub leading_zeros: nat,
    pub cursor: Cursor,
    pub threads: Seq<ThreadView>,
}

/// The expansion of one mask: the page to fetch next, and the threads found so far.
pub struct Expansion {
    pub pattern: String,
    pub leading_zeros: u32,
    pub cursor: Cursor,
    pub threads: Vec<Thread>,
}

impl View for Expansion {
    type V = ExpansionModel;

    open spec fn view(&self) -> ExpansionModel {
        ExpansionModel {
            pattern: self.pattern@,
            leading_zeros: self.leading_zeros as nat,
            cursor: self.cursor,
            threads: thread_views(self.threads@),
        }
    }
}

/// The title of the page that `cursor` stands at.
pub open spec fn title_at(pattern: Seq<char>, leading_zeros: nat, cursor: Cursor) -> Seq<char> {
    match cursor {
        Cursor::Numbered { count } => replaced(pattern, "<#>"@, padded(count as nat, leading_zeros + 1)),
        Cursor::Monthly { month, year } => replaced(
            replaced(pattern, "<month>"@, month_name(month as int)),
            "<year>"@,
            digits_of(year as nat),
        ),
        Cursor::Yearly { year } => replaced(pattern, "<year>"@, digits_of(year as nat)),
        _ => pattern,
    }
}

/// The next page of the series: the next number, month or year. A single page has no
/// next one; nor has a counter at the largest value it can hold.
pub open spec fn advance(cursor: Cursor) -> Cursor {
    match cursor {
        Cursor::Numbered { count } => if count == u64::MAX {
            Cursor::Finished
        } else {
            Cursor::Numbered { count: (count + 1) as u64 }
        },
        Cursor::Monthly { month, year } => if month < 12 {
            Cursor::Monthly { month: (month + 1) as u8, year }
        } else if year == u64::MAX {
            Cursor::Finished
        } else {
            Cursor::Monthly { month: 1, year: (year + 1) as u64 }
        },
        Cursor::Yearly { year } => if year == u64::MAX {
            Cursor::Finished
        } else {
            Cursor::Yearly { year: (year + 1) as u64 }
        },
        _ => Cursor::Finished,
    }
}

/// One step of an expansion: a missing page ends the series; a page that exists adds its
/// threads and moves on to the next page.
pub open spec fn step(m: ExpansionModel, page: Option<Document>) -> ExpansionModel {
    match page {
        None => ExpansionModel { cursor: Cursor::Finished, ..m },
        Some(doc) => ExpansionModel {
            cursor: advance(m.cursor),
            threads: m.threads + page_threads(doc.title@, doc.sections@),
            ..m
        },
    }
}

/// The expansion after the pages of `pages` were fetched in turn.
pub open spec fn run(m: ExpansionModel, pages: Seq<Option<Document>>) -> ExpansionModel
    decreases pages.len(),
{
    if pages.len() == 0 {
        m
    } else {
        run(step(m, pages[0]), pages.drop_first())
    }
}

/// The cursor at which a mask's expansion starts, or `None` when a dated mask's
/// `first_archive` does not match it.
pub open spec fn start_cursor(mask: Mask) -> Option<Cursor> {
    match mask {
        Mask::Numerical { .. } => Some(Cursor::Numbered { count: 1 }),
        Mask::SinglePage { .. } => Some(Cursor::Single),
        Mask::Monthly { mask, first_archive } => match dated_start(mask@, first_archive@, true) {
            Some((m, y)) => Some(Cursor::Monthly { month: m as u8, year: y as u64 }),
            None => None,
        },
        Mask::Yearly { mask, first_archive } => match dated_start(mask@, first_archive@, false) {
            Some((_, y)) => Some(Cursor::Yearly { year: y as u64 }),
            None => None,
        },
    }
}

pub open spec fn mask_leading_zeros(mask: Mask) -> nat {
    match mask {
        Mask::Numerical { leading_zeros, .. } => leading_zeros as nat,
        _ => 0,
    }
}


/// Recovers the month (when `monthly`) and the year that `first_archive` names under `mask`.
fn match_first_archive(mask: &str, first_archive: &str, monthly: bool) -> (r: Option<(u8, u64)>)
    ensures
        r matches Some((m, y)) ==> dated_start(mask@, first_archive@, monthly) == Some(
            (m as nat, y as nat),
        ),
        r is None ==> dated_start(mask@, first_archive@, monthly) is None,
{
    proof {
        reveal_strlit("<month>");
        reveal_strlit("<year>");
    }
    let e = chars_of(&regex_escape(mask));
    let year_pattern = if monthly {
        replace_first_chars(&e, &chars_of("<month>"), &chars_of(MONTH_GROUP), &chars_of(MONTH_ANY))
    } else {
        e
    };
    let pattern = string_of(
        &replace_first_chars(&year_pattern, &chars_of("<year>"), &chars_of(YEAR_GROUP), &chars_of(YEAR_ANY)),
    );
    assert(pattern@ == dated_matcher(mask@, monthly));
    let caps = match regex_captures(&pattern, first_archive) {
        Some(caps) => caps,
        None => {
            return None;
        },
    };
    if caps.len() == 0 {
        return None;
    }
    let first = &caps[0];
    assert(caps.deep_view()[0] == first.deep_view());
    if monthly {
        if first.len() < 3 {
            return None;
        }
        let m = chars_of(mask);
        let (mi, yi): (usize, usize) = if first_occurrence(&m, &chars_of("<month>")) < first_occurrence(&m, &chars_of("<year>")) {
            (1, 2)
        } else {
            (2, 1)
        };
        assert(first.deep_view()[mi as int] == first@[mi as int]@ && first.deep_view()[yi as int] == first@[yi as int]@);
        let month = get_month(&first[mi]);
        let year = parse_number(&chars_of(&first[yi]), 4, 4);
        match (month, year) {
            (Some(m), Some(y)) => Some((m, y as u64)),
            _ => None,
        }
    } else {
        if first.len() < 2 {
            return None;
        }
        assert(first.deep_view()[1] == first@[1]@);
        match parse_number(&chars_of(&first[1]), 4, 4) {
            Some(y) => Some((0, y as u64)),
            None => None,
        }
    }
}

impl Expansion {
    /// Every thread found so far is well formed, and a month is a real one.
    pub open spec fn wf(&self) -> bool {
        &&& forall|i: int| 0 <= i < self.threads@.len() ==> (#[trigger] self.threads@[i]).wf()
        &&& self.cursor matches Cursor::Monthly { month, .. } ==> 1 <= month <= 12
    }

    /// Starts the expansion of `mask`, before any page is fetched. A dated mask whose
    /// `first_archive` does not match it is a configuration error, found here, so that
    /// no page is ever fetched for it.
    pub fn new(mask: &Mask) -> (r: Result<Expansion, IndexError>)
        ensures
            r is Err <==> start_cursor(*mask) is None,
            r is Err ==> r == Err::<Expansion, IndexError>(IndexError::FirstArchiveMismatch),
            r matches Ok(e) ==> e.wf() && e@ == (ExpansionModel {
                pattern: mask.pattern(),
                leading_zeros: mask_leading_zeros(*mask),
                cursor: start_cursor(*mask)->0,
                threads: seq![],
            }),
    {
        let (pattern, leading_zeros, cursor) = match mask {
            Mask::Numerical { mask, leading_zeros } => (mask.clone(), *leading_zeros, Cursor::Numbered { count: 1 }),
            Mask::SinglePage { title } => (title.clone(), 0, Cursor::Single),
            Mask::Monthly { mask, first_archive } => match match_first_archive(mask, first_archive, true) {
                Some((m, y)) => (mask.clone(), 0, Cursor::Monthly { month: m, year: y }),
                None => {
                    return Err(IndexError::FirstArchiveMismatch);
                },
            },
            Mask::Yearly { mask, first_archive } => match match_first_archive(mask, first_archive, false) {
                Some((_, y)) => (mask.clone(), 0, Cursor::Yearly { year: y }),
                None => {
                    return Err(IndexError::FirstArchiveMismatch);
                },
            },
        };
        let threads: Vec<Thread> = Vec::new();
        let e = Expansion { pattern, leading_zeros, cursor, threads };
        assert(e@.threads =~= Seq::<ThreadView>::empty());
        Ok(e)
    }

    pub fn is_finished(&self) -> (r: bool)
        ensures
            r == (self.cursor == Cursor::Finished),
    {
        match self.cursor {
            Cursor::Finished => true,
            _ => false,
        }
    }

    /// The title of the page to fetch next, or `None` once the expansion is finished.
    pub fn next_title(&self) -> (r: Option<String>)
        requires
            self.wf(),
        ensures
            self.cursor == Cursor::Finished ==> r is None,
            self.cursor != Cursor::Finished ==> (r matches Some(t) && t@ == title_at(
                self.pattern@,
                self.leading_zeros as nat,
                self.cursor,
            )),
    {
        proof {
            reveal_strlit("<#>");
            reveal_strlit("<month>");
            reveal_strlit("<year>");
        }
        let p = chars_of(&self.pattern);
        match self.cursor {
            Cursor::Numbered { count } => {
                let mut n: Vec<char> = Vec::new();
                push_padded(count, self.leading_zeros as u64 + 1, &mut n);
                Some(string_of(&replace_chars(&p, &chars_of("<#>"), &n)))
            },
            Cursor::Single => Some(self.pattern.clone()),
            Cursor::Monthly { month, year } => {
                let with_month = replace_chars(&p, &chars_of("<month>"), &month_chars(month));
                let mut y: Vec<char> = Vec::new();
                push_decimal(year, &mut y);
                Some(string_of(&replace_chars(&with_month, &chars_of("<year>"), &y)))
            },
            Cursor::Yearly { year } => {
                let mut y: Vec<char> = Vec::new();
                push_decimal(year, &mut y);
                Some(string_of(&replace_chars(&p, &chars_of("<year>"), &y)))
            },
            Cursor::Finished => None,
        }
    }

    /// Takes the outcome of fetching the page that `next_title` named: `None` when the
    /// page does not exist, which ends the series, or the parsed page.
    pub fn feed(&mut self, page: Option<&Document>)
        requires
            old(self).wf(),
            old(self).cursor != Cursor::Finished,
        ensures
            final(self).wf(),
            final(self)@ == step(old(self)@, match page {
                Some(d) => Some(*d),
                None => None,
            }),
    {
        match page {
            None => {
                self.cursor = Cursor::Finished;
            },
            Some(doc) => {
                let mut found = extract_threads(doc);
                let ghost before = self.threads@;
                let ghost added = found@;
                self.threads.append(&mut found);
                assert(thread_views(self.threads@) =~= thread_views(before) + thread_views(added));
                self.cursor = match self.cursor {
                    Cursor::Numbered { count } => if count == u64::MAX {
                        Cursor::Finished
                    } else {
                        Cursor::Numbered { count: count + 1 }
                    },
                    Cursor::Monthly { month, year } => if month < 12 {
                        Cursor::Monthly { month: month + 1, year }
                    } else if year == u64::MAX {
                        Cursor::Finished
                    } else {
                        Cursor::Monthly { month: 1, year: year + 1 }
                    },
                    Cursor::Yearly { year } => if year == u64::MAX {
                        Cursor::Finished
                    } else {
                        Cursor::Yearly { year: year + 1 }
                    },
                    _ => Cursor::Finished,
                };
            },
        }
    }

    /// The threads found, in the order of the pages and of their sections.
    pub fn into_threads(self) -> (r: Vec<Thread>)
        ensures
            thread_views(r@) == self@.threads,
            self.wf() ==> forall|i: int| 0 <= i < r@.len() ==> (#[trigger] r@[i]).wf(),
    {
        self.threads
    }
}


/// The threads of `docs`, page after page.
pub open spec fn all_threads(docs: Seq<Document>) -> Seq<ThreadView>
    decreases docs.len(),
{
    if docs.len() == 0 {
        seq![]
    } else {
        page_threads(docs[0].title@, docs[0].sections@) + all_threads(docs.drop_first())
    }
}

/// Each of `docs` found by its fetch.
pub open spec fn found(docs: Seq<Document>) -> Seq<Option<Document>> {
    docs.map_values(|d: Document| Some(d))
}

proof fn lemma_numbered_run(m: ExpansionModel, c: u64, docs: Seq<Document>)
    requires
        m.cursor == (Cursor::Numbered { count: c }),
        c + docs.len() < u64::MAX,
    ensures
        run(m, found(docs).push(None)) == (ExpansionModel {
            cursor: Cursor::Finished,
            threads: m.threads + all_threads(docs),
            ..m
        }),
    decreases docs.len(),
{
    let evs = found(docs).push(None);
    if docs.len() == 0 {
        assert(evs.drop_first() =~= Seq::<Option<Document>>::empty());
        assert(evs[0] == None::<Document>);
        assert(run(step(m, None), evs.drop_first()) == step(m, None));
        assert(run(m, evs) == step(m, None));
        assert(m.threads + all_threads(docs) =~= m.threads);
    } else {
        let rest = docs.drop_first();
        let m1 = step(m, Some(docs[0]));
        assert(evs[0] == Some(docs[0]));
        assert(evs.drop_first() =~= found(rest).push(None));
        assert(run(m, evs) == run(m1, found(rest).push(None)));
        lemma_numbered_run(m1, (c + 1) as u64, rest);
        assert(m1.threads + all_threads(rest) =~= m.threads + all_threads(docs));
    }
}

proof fn lemma_numbered_prefix(m: ExpansionModel, c: u64, docs: Seq<Document>, j: int)
    requires
        m.cursor == (Cursor::Numbered { count: c }),
        c + docs.len() < u64::MAX,
        0 <= j <= docs.len(),
    ensures
        run(m, found(docs).take(j)).cursor == (Cursor::Numbered { count: (c + j) as u64 }),
    decreases j,
{
    let t = found(docs).take(j);
    if j == 0 {
        assert(t =~= Seq::<Option<Document>>::empty());
    } else {
        let rest = docs.drop_first();
        let m1 = step(m, Some(docs[0]));
        assert(t[0] == Some(docs[0]));
        assert(t.drop_first() =~= found(rest).take(j - 1));
        assert(run(m, t) == run(m1, found(rest).take(j - 1)));
        lemma_numbered_prefix(m1, (c + 1) as u64, rest, j - 1);
    }
}

/// Numerical expansion against a store that holds pages 1 to k and lacks page k + 1:
/// the j-th page asked for is page j (counting from 1), and the expansion ends after
/// the missing page with exactly the threads of pages 1 to k, in page order.
pub proof fn lemma_numerical_expansion(mask: Seq<char>, leading_zeros: nat, docs: Seq<Document>)
    requires
        docs.len() + 1 < u64::MAX,
    ensures
        ({
            let m0 = ExpansionModel {
                pattern: mask,
                leading_zeros,
                cursor: Cursor::Numbered { count: 1 },
                threads: seq![],
            };
            &&& run(m0, found(docs).push(None)).cursor == Cursor::Finished
            &&& run(m0, found(docs).push(None)).threads == all_threads(docs)
            &&& forall|j: int|
                0 <= j <= docs.len() ==> title_at(mask, leading_zeros, (#[trigger] run(m0, found(docs).take(j))).cursor)
                    == replaced(mask, "<#>"@, padded((j + 1) as nat, leading_zeros + 1))
        }),
{
    let m0 = ExpansionModel {
        pattern: mask,
        leading_zeros,
        cursor: Cursor::Numbered { count: 1 },
        threads: seq![],
    };
    lemma_numbered_run(m0, 1, docs);
    assert forall|j: int| 0 <= j <= docs.len() implies title_at(mask, leading_zeros, (#[trigger] run(m0, found(docs).take(j))).cursor)
        == replaced(mask, "<#>"@, padded((j + 1) as nat, leading_zeros + 1)) by {
        lemma_numbered_prefix(m0, 1, docs, j);
    }
    assert(m0.threads + all_threads(docs) =~= all_threads(docs));
}

} // verus!
