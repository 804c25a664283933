//! Character-level text operations with exact specifications.
use vstd::prelude::*;
use vstd::std_specs::iter::IteratorSpec;

verus! {

/// The character for a decimal digit `d < 10`.
pub open spec fn digit_char(d: nat) -> char {
    if d == 0 { '0' } else if d == 1 { '1' } else if d == 2 { '2' } else if d == 3 { '3' }
    else if d == 4 { '4' } else if d == 5 { '5' } else if d == 6 { '6' } else if d == 7 { '7' }
    else if d == 8 { '8' } else { '9' }
}

/// The value of a decimal digit character; `None` for any other character.
pub open spec fn digit_value(c: char) -> Option<nat> {
    if c == '0' { Some(0) } else if c == '1' { Some(1) } else if c == '2' { Some(2) }
    else if c == '3' { Some(3) } else if c == '4' { Some(4) } else if c == '5' { Some(5) }
    else if c == '6' { Some(6) } else if c == '7' { Some(7) } else if c == '8' { Some(8) }
    else if c == '9' { Some(9) } else { None }
}

/// The decimal digits of `n`, most significant first, without leading zeros.
pub open spec fn digits_of(n: nat) -> Seq<char>
    decreases n,
{
    if n < 10 {
        seq![digit_char(n)]
    } else {
        digits_of(n / 10).push(digit_char(n % 10))
    }
}

/// The value of a string of decimal digits.
pub open spec fn value_of(s: Seq<char>) -> nat
    decreases s.len(),
{
    if s.len() == 0 {
        0
    } else {
        value_of(s.drop_last()) * 10 + match digit_value(s.last()) {
            Some(d) => d,
            None => 0,
        }
    }
}

/// `n` in decimal, left-padded with zeros to at least `width` characters.
pub open spec fn padded(n: nat, width: nat) -> Seq<char> {
    let d = digits_of(n);
    if d.len() < width {
        Seq::new((width - d.len()) as nat, |i: int| '0') + d
    } else {
        d
    }
}

/// A signed integer in decimal, with a leading minus sign when negative.
pub open spec fn int_text(i: int) -> Seq<char> {
    if i < 0 {
        seq!['-'] + digits_of((-i) as nat)
    } else {
        digits_of(i as nat)
    }
}

/// True when `p` occurs in `s` at position `i`.
pub open spec fn occurs_at(s: Seq<char>, p: Seq<char>, i: int) -> bool {
    0 <= i && i + p.len() <= s.len() && s.subrange(i, i + p.len()) == p
}

/// True when `p` occurs anywhere in `s`.
pub open spec fn contains(s: Seq<char>, p: Seq<char>) -> bool {
    exists|i: int| occurs_at(s, p, i)
}

pub open spec fn starts_with(s: Seq<char>, p: Seq<char>) -> bool {
    occurs_at(s, p, 0)
}

pub open spec fn ends_with(s: Seq<char>, p: Seq<char>) -> bool {
    occurs_at(s, p, s.len() - p.len())
}

/// Every non-overlapping occurrence of `p` in `s`, scanning from the left,
/// replaced by `w`.
pub open spec fn replaced(s: Seq<char>, p: Seq<char>, w: Seq<char>) -> Seq<char>
    decreases s.len(),
{
    if p.len() == 0 || s.len() < p.len() {
        s
    } else if s.subrange(0, p.len() as int) == p {
        w + replaced(s.subrange(p.len() as int, s.len() as int), p, w)
    } else {
        seq![s[0]] + replaced(s.subrange(1, s.len() as int), p, w)
    }
}

/// Unicode `White_Space`, the set that `char::is_whitespace` tests.
pub open spec fn is_space(c: char) -> bool {
    ('\t' <= c <= '\r') || c == ' ' || c == '\u{85}' || c == '\u{a0}' || c == '\u{1680}' || (
    '\u{2000}' <= c <= '\u{200a}') || c == '\u{2028}' || c == '\u{2029}' || c == '\u{202f}'
        || c == '\u{205f}' || c == '\u{3000}'
}

pub open spec fn trim_start(s: Seq<char>) -> Seq<char>
    decreases s.len(),
{
    if s.len() > 0 && is_space(s[0]) {
        trim_start(s.drop_first())
    } else {
        s
    }
}

pub open spec fn trim_end(s: Seq<char>) -> Seq<char>
    decreases s.len(),
{
    if s.len() > 0 && is_space(s.last()) {
        trim_end(s.drop_last())
    } else {
        s
    }
}

/// `s` without leading and trailing white space.
pub open spec fn trim(s: Seq<char>) -> Seq<char> {
    trim_end(trim_start(s))
}

/// `parts` joined with `sep` between neighbours.
pub open spec fn join(parts: Seq<Seq<char>>, sep: Seq<char>) -> Seq<char>
    decreases parts.len(),
{
    if parts.len() == 0 {
        seq![]
    } else if parts.len() == 1 {
        parts[0]
    } else {
        join(parts.drop_last(), sep) + sep + parts.last()
    }
}

/// Position of the first `'\n'` in `s` at or after `i`, or `s.len()` if none.
pub open spec fn newline_from(s: Seq<char>, i: int) -> int
    decreases s.len() - i,
{
    if i < 0 || i >= s.len() {
        s.len() as int
    } else if s[i] == '\n' {
        i
    } else {
        newline_from(s, i + 1)
    }
}

/// A line that ended in `"\r\n"`, without its `'\r'`.
pub open spec fn strip_cr(line: Seq<char>) -> Seq<char> {
    if line.len() > 0 && line.last() == '\r' {
        line.drop_last()
    } else {
        line
    }
}

/// The lines of `s`, split at `'\n'` or `"\r\n"`; a final line ending adds no empty line.
pub open spec fn lines_of(s: Seq<char>) -> Seq<Seq<char>>
    decreases s.len(),
{
    if s.len() == 0 {
        seq![]
    } else {
        let k = newline_from(s, 0);
        if k < 0 || k >= s.len() {
            seq![s]
        } else {
            seq![strip_cr(s.subrange(0, k))] + lines_of(s.subrange(k + 1, s.len() as int))
        }
    }
}

/// Relies on `String`'s `FromIterator<&char>`: the string holds the characters in order.
#[verifier::external_body]
pub fn string_of(v: &[char]) -> (r: String)
    ensures
        r@ == v@,
{
    String::from_iter(v.iter())
}

/// The characters of `s`, in order.
pub fn chars_of(s: &str) -> (r: Vec<char>)
    ensures
        r@ == s@,
{
    broadcast use vstd::string::group_string_axioms;

    let mut it = s.chars();
    let mut r: Vec<char> = Vec::new();
    loop
        invariant
            r@ + it.remaining() == s@,
            it.obeys_prophetic_iter_laws(),
        ensures
            r@ == s@,
        decreases s@.len() - r@.len(),
    {
        match it.next() {
            Some(c) => {
                r.push(c);
                assert(r@ + it.remaining() =~= s@);
            },
            None => {
                assert(r@ =~= s@);
                break;
            },
        }
    }
    r
}

pub fn digit(d: u64) -> (c: char)
    requires
        d < 10,
    ensures
        c == digit_char(d as nat),
{
    if d == 0 { '0' } else if d == 1 { '1' } else if d == 2 { '2' } else if d == 3 { '3' }
    else if d == 4 { '4' } else if d == 5 { '5' } else if d == 6 { '6' } else if d == 7 { '7' }
    else if d == 8 { '8' } else { '9' }
}

/// Appends the decimal digits of `n` to `out`.
pub fn push_decimal(n: u64, out: &mut Vec<char>)
    ensures
        final(out)@ == old(out)@ + digits_of(n as nat),
    decreases n,
{
    if n >= 10 {
        push_decimal(n / 10, out);
    }
    out.push(digit(n % 10));
    proof {
        if n >= 10 {
            assert(old(out)@ + digits_of(n as nat) =~= old(out)@ + digits_of((n / 10) as nat)
                + seq![digit_char((n % 10) as nat)]);
        }
    }
    assert(out@ =~= old(out)@ + digits_of(n as nat));
}

/// Appends a signed integer in decimal to `out`.
pub fn push_int(i: i64, out: &mut Vec<char>)
    ensures
        final(out)@ == old(out)@ + int_text(i as int),
{
    if i < 0 {
        out.push('-');
        let m: u64 = (0i128 - (i as i128)) as u64;
        push_decimal(m, out);
        assert(out@ =~= old(out)@ + int_text(i as int));
    } else {
        push_decimal(i as u64, out);
    }
}

/// Appends `n` in decimal, left-padded with zeros to `width` characters.
pub fn push_padded(n: u64, width: u64, out: &mut Vec<char>)
    ensures
        final(out)@ == old(out)@ + padded(n as nat, width as nat),
{
    let mut d: Vec<char> = Vec::new();
    push_decimal(n, &mut d);
    assert(d@ =~= digits_of(n as nat));
    let len = d.len() as u64;
    if len < width {
        let mut k: u64 = 0;
        let ghost start = out@;
        while k < width - len
            invariant
                k <= width - len,
                len < width,
                out@ == start + Seq::new(k as nat, |i: int| '0'),
            decreases width - len - k,
        {
            out.push('0');
            k = k + 1;
            assert(out@ =~= start + Seq::new(k as nat, |i: int| '0'));
        }
    }
    append_chars(out, &d);
    assert(out@ =~= old(out)@ + padded(n as nat, width as nat));
}

/// A copy of the characters of `v`.
pub fn copy_chars(v: &[char]) -> (r: Vec<char>)
    ensures
        r@ == v@,
{
    let mut r: Vec<char> = Vec::new();
    append_chars(&mut r, v);
    assert(r@ =~= v@);
    r
}

/// Appends the characters of `v` to `out`.
pub fn append_chars(out: &mut Vec<char>, v: &[char])
    ensures
        final(out)@ == old(out)@ + v@,
{
    let mut i: usize = 0;
    while i < v.len()
        invariant
            i <= v@.len(),
            out@ == old(out)@ + v@.subrange(0, i as int),
        decreases v@.len() - i,
    {
        out.push(v[i]);
        i = i + 1;
        assert(out@ =~= old(out)@ + v@.subrange(0, i as int));
    }
    assert(v@.subrange(0, i as int) =~= v@);
}


/// Whether `p` occurs in `s` at position `i`.
pub fn occurs_at_exec(s: &[char], p: &[char], i: usize) -> (r: bool)
    ensures
        r == occurs_at(s@, p@, i as int),
{
    if i > s.len() || p.len() > s.len() - i {
        return false;
    }
    let sl = s.len();
    let mut k: usize = 0;
    while k < p.len()
        invariant
            sl == s@.len(),
            i + p@.len() <= s@.len(),
            k <= p@.len(),
            forall|j: int| 0 <= j < k ==> s@[i + j] == p@[j],
        decreases p@.len() - k,
    {
        if s[i + k] != p[k] {
            assert(s@.subrange(i as int, i + p@.len())[k as int] != p@[k as int]);
            return false;
        }
        k = k + 1;
    }
    assert(s@.subrange(i as int, i + p@.len()) =~= p@);
    true
}

/// Whether `p` occurs anywhere in `s`.
pub fn contains_chars(s: &[char], p: &[char]) -> (r: bool)
    ensures
        r == contains(s@, p@),
{
    if p.len() > s.len() {
        return false;
    }
    let last = s.len() - p.len();
    let mut i: usize = 0;
    loop
        invariant
            last == s@.len() - p@.len(),
            i <= last,
            forall|j: int| 0 <= j < i ==> !occurs_at(s@, p@, j),
        decreases last - i,
    {
        if occurs_at_exec(s, p, i) {
            return true;
        }
        if i == last {
            assert forall|j: int| !occurs_at(s@, p@, j) by {
                if occurs_at(s@, p@, j) {
                    assert(j <= last);
                }
            }
            return false;
        }
        i = i + 1;
    }
}

pub fn starts_with_chars(s: &[char], p: &[char]) -> (r: bool)
    ensures
        r == starts_with(s@, p@),
{
    occurs_at_exec(s, p, 0)
}

pub fn ends_with_chars(s: &[char], p: &[char]) -> (r: bool)
    ensures
        r == ends_with(s@, p@),
{
    if p.len() > s.len() {
        false
    } else {
        occurs_at_exec(s, p, s.len() - p.len())
    }
}

/// Replaces every non-overlapping occurrence of `p` in `s`, from the left, by `w`.
pub fn replace_chars(s: &[char], p: &[char], w: &[char]) -> (r: Vec<char>)
    requires
        p@.len() > 0,
    ensures
        r@ == replaced(s@, p@, w@),
{
    let n = s.len();
    let mut out: Vec<char> = Vec::new();
    let mut i: usize = 0;
    assert(s@.subrange(0, n as int) =~= s@);
    while i < n
        invariant
            n == s@.len(),
            p@.len() > 0,
            i <= n,
            out@ + replaced(s@.subrange(i as int, n as int), p@, w@) == replaced(s@, p@, w@),
        decreases n - i,
    {
        let ghost rest = s@.subrange(i as int, n as int);
        if n - i < p.len() {
            append_chars(&mut out, &s[i..n]);
            proof {
                assert(replaced(rest, p@, w@) == rest);
                assert(s@.subrange(n as int, n as int) =~= Seq::<char>::empty());
                assert(replaced(s@.subrange(n as int, n as int), p@, w@) =~= Seq::<char>::empty());
            }
            assert(out@ + replaced(s@.subrange(n as int, n as int), p@, w@) =~= replaced(s@, p@, w@));
            i = n;
        } else if occurs_at_exec(s, p, i) {
            append_chars(&mut out, w);
            proof {
                assert(rest.subrange(0, p@.len() as int) =~= s@.subrange(i as int, i + p@.len()));
                assert(rest.subrange(p@.len() as int, rest.len() as int) =~= s@.subrange(
                    i + p@.len(),
                    n as int,
                ));
            }
            i = i + p.len();
            assert(out@ + replaced(s@.subrange(i as int, n as int), p@, w@) =~= replaced(s@, p@, w@));
        } else {
            out.push(s[i]);
            proof {
                assert(rest.subrange(0, p@.len() as int) =~= s@.subrange(i as int, i + p@.len()));
                assert(rest.subrange(1, rest.len() as int) =~= s@.subrange(i + 1, n as int));
            }
            i = i + 1;
            assert(out@ + replaced(s@.subrange(i as int, n as int), p@, w@) =~= replaced(s@, p@, w@));
        }
    }
    assert(s@.subrange(n as int, n as int) =~= Seq::<char>::empty());
    assert(out@ =~= out@ + replaced(s@.subrange(n as int, n as int), p@, w@));
    out
}

pub fn is_space_exec(c: char) -> (r: bool)
    ensures
        r == is_space(c),
{
    ('\t' <= c && c <= '\r') || c == ' ' || c == '\u{85}' || c == '\u{a0}' || c == '\u{1680}' || (
    '\u{2000}' <= c && c <= '\u{200a}') || c == '\u{2028}' || c == '\u{2029}' || c == '\u{202f}'
        || c == '\u{205f}' || c == '\u{3000}'
}

/// `s` without leading and trailing white space.
pub fn trim_chars(s: &[char]) -> (r: Vec<char>)
    ensures
        r@ == trim(s@),
{
    let n = s.len();
    let mut a: usize = 0;
    assert(s@.subrange(0, n as int) =~= s@);
    while a < n && is_space_exec(s[a])
        invariant
            n == s@.len(),
            a <= n,
            trim_start(s@) == trim_start(s@.subrange(a as int, n as int)),
        decreases n - a,
    {
        assert(s@.subrange(a as int, n as int).drop_first() =~= s@.subrange(a + 1, n as int));
        a = a + 1;
    }
    let ghost t = s@.subrange(a as int, n as int);
    assert(trim_start(s@) == t);
    let mut b: usize = n;
    while b > a && is_space_exec(s[b - 1])
        invariant
            n == s@.len(),
            a <= b <= n,
            t == s@.subrange(a as int, n as int),
            trim_end(t) == trim_end(s@.subrange(a as int, b as int)),
        decreases b,
    {
        assert(s@.subrange(a as int, b as int).drop_last() =~= s@.subrange(a as int, b - 1));
        b = b - 1;
    }
    let mut r: Vec<char> = Vec::new();
    append_chars(&mut r, &s[a..b]);
    assert(r@ =~= s@.subrange(a as int, b as int));
    r
}

/// Index of the first `'\n'` in `s` at or after `start`, or `s.len()`.
pub fn newline_index(s: &[char], start: usize) -> (r: usize)
    requires
        start <= s@.len(),
    ensures
        r as int == newline_from(s@, start as int),
        start <= r <= s@.len(),
{
    let mut i = start;
    while i < s.len() && s[i] != '\n'
        invariant
            start <= i <= s@.len(),
            newline_from(s@, start as int) == newline_from(s@, i as int),
        decreases s@.len() - i,
    {
        i = i + 1;
    }
    i
}

/// Shifting the start of a search for a newline.
pub proof fn lemma_newline_shift(s: Seq<char>, start: int, i: int)
    requires
        0 <= start <= i <= s.len(),
    ensures
        newline_from(s.subrange(start, s.len() as int), i - start) == newline_from(s, i) - start,
    decreases s.len() - i,
{
    if i < s.len() && s[i] != '\n' {
        lemma_newline_shift(s, start, i + 1);
    }
}

/// Unfolding of `lines_of` at a position of `s`.
pub proof fn lemma_lines_step(s: Seq<char>, start: int)
    requires
        0 <= start < s.len(),
    ensures
        newline_from(s, start) < s.len() ==> lines_of(s.subrange(start, s.len() as int)) == seq![
            strip_cr(s.subrange(start, newline_from(s, start))),
        ] + lines_of(s.subrange(newline_from(s, start) + 1, s.len() as int)),
        newline_from(s, start) >= s.len() ==> lines_of(s.subrange(start, s.len() as int))
            == seq![s.subrange(start, s.len() as int)],
{
    let t = s.subrange(start, s.len() as int);
    lemma_newline_shift(s, start, start);
    lemma_newline_bounds(s, start);
    let k = newline_from(s, start);
    if k < s.len() {
        assert(t.subrange(0, k - start) =~= s.subrange(start, k));
        assert(t.subrange(k - start + 1, t.len() as int) =~= s.subrange(k + 1, s.len() as int));
    }
}

pub proof fn lemma_newline_bounds(s: Seq<char>, i: int)
    requires
        0 <= i <= s.len(),
    ensures
        i <= newline_from(s, i) <= s.len(),
    decreases s.len() - i,
{
    if i < s.len() && s[i] != '\n' {
        lemma_newline_bounds(s, i + 1);
    }
}


/// Appends `parts` joined by `sep` to `out`.
pub fn push_joined(parts: &Vec<Vec<char>>, sep: &[char], out: &mut Vec<char>)
    ensures
        final(out)@ == old(out)@ + join(parts.deep_view(), sep@),
{
    let mut i: usize = 0;
    while i < parts.len()
        invariant
            i <= parts@.len(),
            out@ == old(out)@ + join(parts.deep_view().subrange(0, i as int), sep@),
        decreases parts@.len() - i,
    {
        if i > 0 {
            append_chars(out, sep);
        }
        append_chars(out, &parts[i]);
        proof {
            let dv = parts.deep_view();
            assert(dv.subrange(0, i + 1).drop_last() =~= dv.subrange(0, i as int));
            assert(dv[i as int] == parts@[i as int]@);
            if i == 0 {
                assert(join(dv.subrange(0, 0), sep@) =~= Seq::<char>::empty());
            }
        }
        i = i + 1;
        assert(out@ =~= old(out)@ + join(parts.deep_view().subrange(0, i as int), sep@));
    }
    assert(parts.deep_view().subrange(0, i as int) =~= parts.deep_view());
}

/// A string of zeros adds nothing to the value of the digits after it.
pub proof fn lemma_value_leading_zeros(z: nat, d: Seq<char>)
    ensures
        value_of(Seq::new(z, |i: int| '0') + d) == value_of(d),
    decreases d.len(), z,
{
    let zs = Seq::new(z, |i: int| '0');
    if d.len() == 0 {
        assert(zs + d =~= zs);
        if z > 0 {
            assert(zs.drop_last() =~= Seq::new((z - 1) as nat, |i: int| '0'));
            lemma_value_leading_zeros((z - 1) as nat, d);
            assert(Seq::new((z - 1) as nat, |i: int| '0') + d =~= Seq::new((z - 1) as nat, |i: int| '0'));
        }
    } else {
        assert((zs + d).drop_last() =~= zs + d.drop_last());
        lemma_value_leading_zeros(z, d.drop_last());
    }
}

/// The decimal digits of `n` read back as `n`.
pub proof fn lemma_value_digits(n: nat)
    ensures
        value_of(digits_of(n)) == n,
        digits_of(n).len() >= 1,
    decreases n,
{
    if n < 10 {
        assert(seq![digit_char(n)].drop_last() =~= Seq::<char>::empty());
        assert(digit_value(digit_char(n)) == Some(n));
        assert(value_of(Seq::<char>::empty()) == 0);
        assert(value_of(seq![digit_char(n)]) == value_of(Seq::<char>::empty()) * 10 + n);
    } else {
        lemma_value_digits(n / 10);
        let d = digits_of(n);
        assert(d.drop_last() =~= digits_of(n / 10));
        assert(d.last() == digit_char(n % 10));
        assert(digit_value(digit_char(n % 10)) == Some(n % 10));
        assert(n == (n / 10) * 10 + n % 10);
        assert(value_of(d) == value_of(d.drop_last()) * 10 + n % 10);
    }
}

/// Zero padding: `n` padded under leading-zero count `leading` has
/// `max(leading + 1, digits of n)` characters, and reads back as `n`.
pub proof fn lemma_padded(n: nat, leading: nat)
    ensures
        padded(n, leading + 1).len() == if leading + 1 > digits_of(n).len() {
            leading + 1
        } else {
            digits_of(n).len()
        },
        value_of(padded(n, leading + 1)) == n,
{
    let width = leading + 1;
    lemma_value_digits(n);
    let d = digits_of(n);
    if d.len() < width {
        lemma_value_leading_zeros((width - d.len()) as nat, d);
    }
}


/// `num` in decimal, left-padded with zeros to at least `leading + 1` digits.
pub fn prefix_number(num: u32, leading: u32) -> (r: String)
    ensures
        r@ == padded(num as nat, leading as nat + 1),
{
    let mut v: Vec<char> = Vec::new();
    push_padded(num as u64, leading as u64 + 1, &mut v);
    assert(v@ =~= padded(num as nat, leading as nat + 1));
    string_of(&v)
}


/// Whether `a` and `b` hold the same characters.
pub fn same_chars(a: &[char], b: &[char]) -> (r: bool)
    ensures
        r == (a@ == b@),
{
    if a.len() != b.len() {
        return false;
    }
    let r = occurs_at_exec(a, b, 0);
    assert(a@.subrange(0, b@.len() as int) =~= a@);
    r
}


/// Like [`replaced`], but the first occurrence of `p` becomes `w` and the later ones
/// become `rest`.
pub open spec fn replaced_first(s: Seq<char>, p: Seq<char>, w: Seq<char>, rest: Seq<char>) -> Seq<char>
    decreases s.len(),
{
    if p.len() == 0 || s.len() < p.len() {
        s
    } else if s.subrange(0, p.len() as int) == p {
        w + replaced(s.subrange(p.len() as int, s.len() as int), p, rest)
    } else {
        seq![s[0]] + replaced_first(s.subrange(1, s.len() as int), p, w, rest)
    }
}

/// Replaces the first occurrence of `p` in `s` by `w` and the later ones by `rest`.
pub fn replace_first_chars(s: &[char], p: &[char], w: &[char], rest: &[char]) -> (r: Vec<char>)
    requires
        p@.len() > 0,
    ensures
        r@ == replaced_first(s@, p@, w@, rest@),
{
    let n = s.len();
    let mut i: usize = 0;
    let mut out: Vec<char> = Vec::new();
    assert(s@.subrange(0, n as int) =~= s@);
    while i < n
        invariant
            n == s@.len(),
            p@.len() > 0,
            i <= n,
            out@ + replaced_first(s@.subrange(i as int, n as int), p@, w@, rest@) == replaced_first(
                s@,
                p@,
                w@,
                rest@,
            ),
        decreases n - i,
    {
        let ghost tail = s@.subrange(i as int, n as int);
        if n - i < p.len() {
            append_chars(&mut out, &s[i..n]);
            assert(s@.subrange(n as int, n as int) =~= Seq::<char>::empty());
            assert(out@ + replaced_first(s@.subrange(n as int, n as int), p@, w@, rest@) =~= replaced_first(s@, p@, w@, rest@));
            i = n;
        } else if occurs_at_exec(s, p, i) {
            assert(tail.subrange(0, p@.len() as int) =~= s@.subrange(i as int, i + p@.len()));
            assert(tail.subrange(p@.len() as int, tail.len() as int) =~= s@.subrange(i + p@.len(), n as int));
            append_chars(&mut out, w);
            let after = replace_chars(&s[i + p.len()..n], p, rest);
            assert(s@.subrange(i + p@.len(), n as int) =~= s@.subrange((i + p.len()) as int, n as int));
            append_chars(&mut out, &after);
            assert(out@ =~= replaced_first(s@, p@, w@, rest@));
            return out;
        } else {
            assert(tail.subrange(0, p@.len() as int) =~= s@.subrange(i as int, i + p@.len()));
            assert(tail.subrange(1, tail.len() as int) =~= s@.subrange(i + 1, n as int));
            out.push(s[i]);
            i = i + 1;
            assert(out@ + replaced_first(s@.subrange(i as int, n as int), p@, w@, rest@) =~= replaced_first(s@, p@, w@, rest@));
        }
    }
    assert(s@.subrange(n as int, n as int) =~= Seq::<char>::empty());
    assert(out@ =~= out@ + replaced_first(s@.subrange(n as int, n as int), p@, w@, rest@));
    out
}

/// Position of the first occurrence of `p` in `s` at or after `i`, or `s.len()` if none.
pub open spec fn first_at(s: Seq<char>, p: Seq<char>, i: int) -> int
    decreases s.len() - i,
{
    if i < 0 || i >= s.len() || i + p.len() > s.len() {
        s.len() as int
    } else if occurs_at(s, p, i) {
        i
    } else {
        first_at(s, p, i + 1)
    }
}

/// Position of the first occurrence of `p` in `s`, or `s.len()` if none.
pub fn first_occurrence(s: &[char], p: &[char]) -> (r: usize)
    requires
        p@.len() > 0,
    ensures
        r as int == first_at(s@, p@, 0),
{
    if p.len() > s.len() {
        return s.len();
    }
    let last = s.len() - p.len();
    let mut i: usize = 0;
    loop
        invariant
            p@.len() > 0,
            last == s@.len() - p@.len(),
            i <= last,
            first_at(s@, p@, 0) == first_at(s@, p@, i as int),
        decreases last - i,
    {
        if occurs_at_exec(s, p, i) {
            return i;
        }
        if i == last {
            assert(first_at(s@, p@, i + 1) == s@.len());
            return s.len();
        }
        i = i + 1;
    }
}

} // verus!
