//! Report templates: compiling a marker-delimited document into fragments, and
//! rendering a thread list with them.
use crate::calendar::duration_text;
use crate::mask::MaskView;
use crate::parser::{Instructions, InstructionsView};
use crate::text::{
    append_chars, chars_of, digits_of, int_text, join, lemma_lines_step,
    lines_of, newline_index, push_decimal, push_int, push_joined, replace_chars,
    replaced, same_chars, string_of, trim, trim_chars,
};
use crate::thread::{thread_views, Thread, ThreadView};
use vstd::prelude::*;

verus! {

/// The fragments of a report template.
pub struct Template {
    pub lead: String,
    pub header: String,
    pub row: String,
    pub altrow: Option<String>,
    pub footer: String,
    pub tail: String,
}

pub struct TemplateView {
    pub lead: Seq<char>,
    pub header: Seq<char>,
    pub row: Seq<char>,
    pub altrow: Option<Seq<char>>,
    pub footer: Seq<char>,
    pub tail: Seq<char>,
}

impl View for Template {
    type V = TemplateView;

    open spec fn view(&self) -> TemplateView {
        TemplateView {
            lead: self.lead@,
            header: self.header@,
            row: self.row@,
            altrow: match self.altrow {
                Some(a) => Some(a@),
                None => None,
            },
            footer: self.footer@,
            tail: self.tail@,
        }
    }
}

/// The fragment that a marker line opens: 0 lead, 1 header, 2 row, 3 alternate row,
/// 4 footer, 5 tail.
pub open spec fn marker_part(line: Seq<char>) -> Option<nat> {
    if line == "<!-- LEAD -->"@ { Some(0) }
    else if line == "<!-- HEADER -->"@ { Some(1) }
    else if line == "<!-- ROW -->"@ { Some(2) }
    else if line == "<!-- ALT ROW -->"@ { Some(3) }
    else if line == "<!-- FOOTER -->"@ { Some(4) }
    else if line == "<!-- TAIL -->"@ { Some(5) }
    else { None }
}

/// The fragments' lines as gathered so far, one sequence per fragment.
pub open spec fn no_lines() -> Seq<Seq<Seq<char>>> {
    seq![seq![], seq![], seq![], seq![], seq![], seq![]]
}

/// Reads `lines` in the state `part` (6: before any marker) into `acc`. A line that,
/// trimmed, is a marker switches the fragment being filled, and `<!-- END -->` ends the
/// input; any other line goes as it stands to the current fragment, or nowhere before
/// the first marker.
pub open spec fn gather(lines: Seq<Seq<char>>, part: nat, acc: Seq<Seq<Seq<char>>>) -> Seq<Seq<Seq<char>>>
    decreases lines.len(),
{
    if lines.len() == 0 {
        acc
    } else {
        let l = trim(lines[0]);
        if l == "<!-- END -->"@ {
            acc
        } else {
            match marker_part(l) {
                Some(p) => gather(lines.drop_first(), p, acc),
                None => gather(
                    lines.drop_first(),
                    part,
                    if part < 6 { acc.update(part as int, acc[part as int].push(lines[0])) } else { acc },
                ),
            }
        }
    }
}

/// The template that a template document compiles to.
pub open spec fn compiled(text: Seq<char>) -> TemplateView {
    let acc = gather(lines_of(text), 6, no_lines());
    let nl = "\n"@;
    TemplateView {
        lead: join(acc[0], nl),
        header: join(acc[1], nl),
        row: join(acc[2], nl),
        altrow: if acc[3].len() == 0 { None } else { Some(join(acc[3], nl)) },
        footer: join(acc[4], nl),
        tail: join(acc[5], nl),
    }
}

pub open spec fn deep_lines(parts: Seq<Vec<Vec<char>>>) -> Seq<Seq<Seq<char>>> {
    parts.map_values(|p: Vec<Vec<char>>| p.deep_view())
}

/// The marker fragment number of a trimmed line, if it is a marker.
fn marker_of(l: &[char]) -> (r: Option<usize>)
    ensures
        r matches Some(p) ==> marker_part(l@) == Some(p as nat),
        r is None ==> marker_part(l@) is None,
{
    if same_chars(l, &chars_of("<!-- LEAD -->")) { Some(0) }
    else if same_chars(l, &chars_of("<!-- HEADER -->")) { Some(1) }
    else if same_chars(l, &chars_of("<!-- ROW -->")) { Some(2) }
    else if same_chars(l, &chars_of("<!-- ALT ROW -->")) { Some(3) }
    else if same_chars(l, &chars_of("<!-- FOOTER -->")) { Some(4) }
    else if same_chars(l, &chars_of("<!-- TAIL -->")) { Some(5) }
    else { None }
}

/// Compiles a template document into its fragments.
pub fn parse(text: &str) -> (r: Template)
    ensures
        r@ == compiled(text@),
{
    let s = chars_of(text);
    let n = s.len();
    let end_marker = chars_of("<!-- END -->");
    let mut parts: Vec<Vec<Vec<char>>> = Vec::new();
    let mut j: usize = 0;
    while j < 6
        invariant
            j <= 6,
            parts@.len() == j,
            forall|i: int| 0 <= i < j ==> (#[trigger] parts@[i])@.len() == 0,
        decreases 6 - j,
    {
        parts.push(Vec::new());
        j = j + 1;
    }
    assert(deep_lines(parts@) =~= no_lines()) by {
        assert forall|i: int| 0 <= i < 6 implies (#[trigger] deep_lines(parts@)[i]) =~= no_lines()[i] by {
            assert(parts@[i]@.len() == 0);
            assert(parts@[i].deep_view().len() == 0);
        }
    }
    let mut part: usize = 6;
    let mut pos: usize = 0;
    let mut ended = false;
    assert(s@.subrange(0, n as int) =~= s@);
    while pos < n && !ended
        invariant
            n == s@.len(),
            s@ == text@,
            end_marker@ == "<!-- END -->"@,
            pos <= n,
            part <= 6,
            parts@.len() == 6,
            ended ==> gather(lines_of(text@), 6, no_lines()) == deep_lines(parts@),
            !ended ==> gather(lines_of(text@), 6, no_lines()) == gather(
                lines_of(s@.subrange(pos as int, n as int)),
                part as nat,
                deep_lines(parts@),
            ),
        decreases n - pos + if ended { 0int } else { 1int },
    {
        let k = newline_index(&s, pos);
        proof {
            lemma_lines_step(s@, pos as int);
        }
        let end = if k < n && k > pos && s[k - 1] == '\r' { k - 1 } else { k };
        let raw = crate::text::copy_chars(&s[pos..end]);
        let line = trim_chars(&raw);
        let ghost rest = if k < n { lines_of(s@.subrange(k + 1, n as int)) } else { Seq::<Seq<char>>::empty() };
        let ghost ls = lines_of(s@.subrange(pos as int, n as int));
        assert(k < n ==> ls[0] == crate::text::strip_cr(s@.subrange(pos as int, k as int)));
        assert(k < n ==> raw@ =~= ls[0]);
        assert(k >= n ==> raw@ =~= ls[0]);
        assert(ls.drop_first() =~= rest);
        if same_chars(&line, &end_marker) {
            ended = true;
        } else {
            match marker_of(&line) {
                Some(p) => {
                    part = p;
                },
                None => {
                    if part < 6 {
                        let ghost before = deep_lines(parts@);
                        let ghost old_parts = parts@;
                        let mut cur = parts.remove(part);
                        let ghost old_cur = cur;
                        assert(raw.deep_view() =~= raw@);
                        cur.push(raw);
                        parts.insert(part, cur);
                        assert(parts@ =~= old_parts.update(part as int, cur));
                        assert(cur.deep_view() =~= old_cur.deep_view().push(raw@));
                        assert(deep_lines(parts@) =~= before.update(part as int, before[part as int].push(raw@)));
                    }
                },
            }
            if k < n {
                pos = k + 1;
            } else {
                pos = n;
                assert(s@.subrange(n as int, n as int) =~= Seq::<char>::empty());
            }
        }
    }
    let ghost acc = deep_lines(parts@);
    assert(acc == gather(lines_of(text@), 6, no_lines())) by {
        if !ended {
            assert(s@.subrange(pos as int, n as int) =~= Seq::<char>::empty());
        }
    }
    let nl = ['\n'];
    proof {
        reveal_strlit("\n");
        assert(nl@ =~= "\n"@);
    }
    let mut lead: Vec<char> = Vec::new();
    push_joined(&parts[0], &nl, &mut lead);
    let mut header: Vec<char> = Vec::new();
    push_joined(&parts[1], &nl, &mut header);
    let mut row: Vec<char> = Vec::new();
    push_joined(&parts[2], &nl, &mut row);
    let mut footer: Vec<char> = Vec::new();
    push_joined(&parts[4], &nl, &mut footer);
    let mut tail: Vec<char> = Vec::new();
    push_joined(&parts[5], &nl, &mut tail);
    let altrow = if parts[3].len() == 0 {
        None
    } else {
        let mut a: Vec<char> = Vec::new();
        push_joined(&parts[3], &nl, &mut a);
        Some(string_of(&a))
    };
    assert(acc[0] == parts@[0].deep_view() && acc[1] == parts@[1].deep_view() && acc[2] == parts@[2].deep_view()
        && acc[3] == parts@[3].deep_view() && acc[4] == parts@[4].deep_view() && acc[5] == parts@[5].deep_view());
    let t = Template {
        lead: string_of(&lead),
        header: string_of(&header),
        row: string_of(&row),
        altrow,
        footer: string_of(&footer),
        tail: string_of(&tail),
    };
    assert(t@.lead =~= compiled(text@).lead);
    t
}


/// The row fragment for the thread at `position`: the primary row at even positions,
/// the alternate row (when there is one) at odd positions.
pub open spec fn row_for(t: TemplateView, position: nat) -> Seq<char> {
    if position % 2 == 0 {
        t.row
    } else {
        match t.altrow {
            Some(a) => a,
            None => t.row,
        }
    }
}

/// `row` with each token replaced by the thread's value.
pub open spec fn fill_row(row: Seq<char>, th: ThreadView) -> Seq<char> {
    let secs = th.last.epoch() - th.first.epoch();
    let r1 = replaced(row, "%%topic%%"@, th.topic);
    let r2 = replaced(r1, "%%replies%%"@, digits_of(th.replies));
    let r3 = replaced(r2, "%%link%%"@, th.link);
    let r4 = replaced(r3, "%%first%%"@, th.first.text());
    let r5 = replaced(r4, "%%firstepoch%%"@, int_text(th.first.epoch()));
    let r6 = replaced(r5, "%%last%%"@, th.last.text());
    let r7 = replaced(r6, "%%lastepoch%%"@, int_text(th.last.epoch()));
    let r8 = replaced(r7, "%%duration%%"@, duration_text(secs as nat));
    replaced(r8, "%%durationsecs%%"@, int_text(secs))
}

/// The summary line naming the origin page and every mask.
pub open spec fn intro_line(ins: InstructionsView) -> Seq<char> {
    "Report generated based on a request from [["@ + ins.origin
        + "]]. It matches the following masks: "@ + join(
        ins.masks.map_values(|m: MaskView| m.pattern()),
        ", "@,
    ) + ".<br>"@
}

/// The comment that allows the report to overwrite its target.
pub open spec fn blank_marker() -> Seq<char> {
    "<!-- HBC Archive Indexerbot can blank this -->"@
}

/// The lines of a report, before they are joined.
pub open spec fn report_lines(t: TemplateView, threads: Seq<ThreadView>, ins: InstructionsView) -> Seq<Seq<char>> {
    seq![blank_marker(), t.lead, intro_line(ins), "{{last edited by}}"@, t.header]
        + Seq::new(threads.len(), |i: int| fill_row(row_for(t, i as nat), threads[i]))
        + seq![t.footer, t.tail]
}

/// The report text.
pub open spec fn rendered(t: TemplateView, threads: Seq<ThreadView>, ins: InstructionsView) -> Seq<char> {
    join(report_lines(t, threads, ins), "\n"@)
}

/// Appends one line to `lines`.
fn push_line(lines: &mut Vec<Vec<char>>, l: Vec<char>)
    ensures
        final(lines).deep_view() == old(lines).deep_view().push(l@),
{
    let ghost before = lines.deep_view();
    assert(l.deep_view() =~= l@);
    lines.push(l);
    assert(lines.deep_view() =~= before.push(l@));
}

/// Replaces `token` in `row` by `value`.
fn put(row: Vec<char>, token: &str, value: &[char]) -> (r: Vec<char>)
    requires
        token@.len() > 0,
    ensures
        r@ == replaced(row@, token@, value@),
{
    replace_chars(&row, &chars_of(token), value)
}

/// A row filled in with one thread's values.
fn fill(row: &str, th: &Thread) -> (r: Vec<char>)
    requires
        th.wf(),
    ensures
        r@ == fill_row(row@, th@),
{
    proof {
        reveal_strlit("%%topic%%");
        reveal_strlit("%%replies%%");
        reveal_strlit("%%link%%");
        reveal_strlit("%%first%%");
        reveal_strlit("%%firstepoch%%");
        reveal_strlit("%%last%%");
        reveal_strlit("%%lastepoch%%");
        reveal_strlit("%%duration%%");
        reveal_strlit("%%durationsecs%%");
    }
    let mut replies: Vec<char> = Vec::new();
    push_decimal(th.replies as u64, &mut replies);
    let mut first_epoch: Vec<char> = Vec::new();
    push_int(th.first_epoch(), &mut first_epoch);
    let mut last_epoch: Vec<char> = Vec::new();
    push_int(th.last_epoch(), &mut last_epoch);
    let mut secs: Vec<char> = Vec::new();
    push_int(th.duration_secs(), &mut secs);
    let r = chars_of(row);
    let r = put(r, "%%topic%%", &chars_of(&th.topic));
    let r = put(r, "%%replies%%", &replies);
    let r = put(r, "%%link%%", &chars_of(&th.link));
    let r = put(r, "%%first%%", &chars_of(&th.first()));
    let r = put(r, "%%firstepoch%%", &first_epoch);
    let r = put(r, "%%last%%", &chars_of(&th.last()));
    let r = put(r, "%%lastepoch%%", &last_epoch);
    let r = put(r, "%%duration%%", &chars_of(&th.duration()));
    put(r, "%%durationsecs%%", &secs)
}

impl Template {
    /// Renders the report for `threads`, in the order given, under `instructions`.
    pub fn build(&self, threads: Vec<Thread>, instructions: &Instructions) -> (r: String)
        requires
            forall|i: int| 0 <= i < threads@.len() ==> (#[trigger] threads@[i]).wf(),
        ensures
            r@ == rendered(self@, thread_views(threads@), instructions@),
    {
        let ghost ins = instructions@;
        let mut masks: Vec<Vec<char>> = Vec::new();
        let mut i: usize = 0;
        while i < instructions.masks.len()
            invariant
                ins == instructions@,
                i <= instructions.masks@.len(),
                masks.deep_view() =~= ins.masks.map_values(|m: MaskView| m.pattern()).take(i as int),
            decreases instructions.masks@.len() - i,
        {
            let d = chars_of(&instructions.masks[i].display());
            let ghost pats = ins.masks.map_values(|m: MaskView| m.pattern());
            assert(ins.masks[i as int] == instructions.masks@[i as int]@);
            assert(pats.take(i + 1) =~= pats.take(i as int).push(d@));
            push_line(&mut masks, d);
            i = i + 1;
        }
        proof {
            reveal_strlit("\n");
            reveal_strlit(", ");
        }
        let sep = [',', ' '];
        assert(sep@ =~= ", "@);
        let mut intro = chars_of("Report generated based on a request from [[");
        append_chars(&mut intro, &chars_of(&instructions.origin));
        append_chars(&mut intro, &chars_of("]]. It matches the following masks: "));
        push_joined(&masks, &sep, &mut intro);
        append_chars(&mut intro, &chars_of(".<br>"));
        assert(masks.deep_view() =~= ins.masks.map_values(|m: MaskView| m.pattern()));
        assert(intro@ =~= intro_line(ins));
        let mut lines: Vec<Vec<char>> = Vec::new();
        push_line(&mut lines, chars_of("<!-- HBC Archive Indexerbot can blank this -->"));
        push_line(&mut lines, chars_of(&self.lead));
        push_line(&mut lines, intro);
        push_line(&mut lines, chars_of("{{last edited by}}"));
        push_line(&mut lines, chars_of(&self.header));
        let ghost head = seq![blank_marker(), self@.lead, intro_line(ins), "{{last edited by}}"@, self@.header];
        assert(lines.deep_view() =~= head);
        let ghost tv = thread_views(threads@);
        let mut k: usize = 0;
        while k < threads.len()
            invariant
                tv == thread_views(threads@),
                forall|i: int| 0 <= i < threads@.len() ==> (#[trigger] threads@[i]).wf(),
                k <= threads@.len(),
                lines.deep_view() =~= head + Seq::new(k as nat, |i: int| fill_row(row_for(self@, i as nat), tv[i])),
            decreases threads@.len() - k,
        {
            let row = if k % 2 == 0 {
                &self.row
            } else {
                match &self.altrow {
                    Some(a) => a,
                    None => &self.row,
                }
            };
            let filled = fill(row, &threads[k]);
            assert(filled@ == fill_row(row_for(self@, k as nat), tv[k as int]));
            let ghost f = |i: int| fill_row(row_for(self@, i as nat), tv[i]);
            assert(Seq::new((k + 1) as nat, f) =~= Seq::new(k as nat, f).push(filled@));
            push_line(&mut lines, filled);
            k = k + 1;
        }
        push_line(&mut lines, chars_of(&self.footer));
        push_line(&mut lines, chars_of(&self.tail));
        assert(lines.deep_view() =~= report_lines(self@, tv, ins));
        let mut out: Vec<char> = Vec::new();
        let nl = ['\n'];
        assert(nl@ =~= "\n"@);
        push_joined(&lines, &nl, &mut out);
        string_of(&out)
    }
}

/// Rendering is a function of its inputs: rendering the same template, threads and
/// instructions twice gives the same text.
pub proof fn lemma_render_deterministic(
    t: TemplateView,
    threads: Seq<ThreadView>,
    ins: InstructionsView,
    first: Seq<char>,
    second: Seq<char>,
)
    requires
        first == rendered(t, threads, ins),
        second == rendered(t, threads, ins),
    ensures
        first == second,
{
}

proof fn lemma_gather_no_alt(lines: Seq<Seq<char>>, part: nat, acc: Seq<Seq<Seq<char>>>)
    requires
        part != 3,
        acc.len() == 6,
        acc[3].len() == 0,
        forall|i: int| 0 <= i < lines.len() ==> trim(#[trigger] lines[i]) != "<!-- ALT ROW -->"@,
    ensures
        gather(lines, part, acc).len() == 6,
        gather(lines, part, acc)[3].len() == 0,
    decreases lines.len(),
{
    if lines.len() > 0 {
        let l = trim(lines[0]);
        if l != "<!-- END -->"@ {
            assert forall|i: int| 0 <= i < lines.drop_first().len() implies trim(#[trigger] lines.drop_first()[i])
                != "<!-- ALT ROW -->"@ by {
                assert(lines.drop_first()[i] == lines[i + 1]);
            }
            match marker_part(l) {
                Some(p) => {
                    assert(p != 3);
                    lemma_gather_no_alt(lines.drop_first(), p, acc);
                },
                None => {
                    let acc2 = if part < 6 { acc.update(part as int, acc[part as int].push(lines[0])) } else { acc };
                    lemma_gather_no_alt(lines.drop_first(), part, acc2);
                },
            }
        }
    }
}

/// A template document without an `ALT ROW` marker compiles to a template without an
/// alternate row, so every rendered row uses the `ROW` fragment, whatever its position.
pub proof fn lemma_no_alt_row(text: Seq<char>)
    requires
        forall|i: int| 0 <= i < lines_of(text).len() ==> trim(#[trigger] lines_of(text)[i]) != "<!-- ALT ROW -->"@,
    ensures
        compiled(text).altrow is None,
        forall|position: nat| row_for(compiled(text), position) == compiled(text).row,
{
    lemma_gather_no_alt(lines_of(text), 6, no_lines());
}

} // verus!
