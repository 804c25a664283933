//! Reading the configuration invocation of an origin page into [`Instructions`].
use crate::error::IndexError;
use crate::mask::{Mask, MaskView};
use crate::text::{
    append_chars, chars_of, contains, contains_chars, digit_value, digits_of, ends_with,
    ends_with_chars, push_decimal, same_chars, string_of, value_of,
};
use vstd::prelude::*;

verus! {

/// One named parameter of an invocation.
pub struct Param {
    pub name: String,
    pub value: String,
}

/// One template invocation found on a page: its name and its parameters, in order.
pub struct Invocation {
    pub name: String,
    pub params: Vec<Param>,
}

/// The value of the first parameter called `name`.
pub open spec fn param_value(params: Seq<Param>, name: Seq<char>) -> Option<Seq<char>>
    decreases params.len(),
{
    if params.len() == 0 {
        None
    } else if params[0].name@ == name {
        Some(params[0].value@)
    } else {
        param_value(params.drop_first(), name)
    }
}

/// The value of the first parameter called `name`.
pub fn get_param(params: &Vec<Param>, name: &str) -> (r: Option<String>)
    ensures
        r matches Some(v) ==> param_value(params@, name@) == Some(v@),
        r is None ==> param_value(params@, name@) is None,
{
    let n = chars_of(name);
    let mut i: usize = 0;
    assert(params@.skip(0) =~= params@);
    while i < params.len()
        invariant
            n@ == name@,
            i <= params@.len(),
            param_value(params@, name@) == param_value(params@.skip(i as int), name@),
        decreases params@.len() - i,
    {
        assert(params@.skip(i as int).drop_first() =~= params@.skip(i + 1));
        assert(params@.skip(i as int)[0] == params@[i as int]);
        if same_chars(&chars_of(&params[i].name), &n) {
            return Some(params[i].value.clone());
        }
        i = i + 1;
    }
    None
}

/// What `str::to_lowercase` makes of a string.
pub uninterp spec fn lower_of(s: Seq<char>) -> Seq<char>;

/// Relies on `str::to_lowercase`: the lower-case form depends on the characters alone.
#[verifier::external_body]
fn lowercase(s: &str) -> (r: String)
    ensures
        r@ == lower_of(s@),
{
    s.to_lowercase()
}

/// The words that switch a flag on, once lower-cased.
pub open spec fn yes_word(s: Seq<char>) -> bool {
    s == "yes"@ || s == "<yes>"@
}

/// Whether an already lower-cased value switches a flag on.
pub fn is_yes_folded(lowered: &str) -> (r: bool)
    ensures
        r == yes_word(lowered@),
{
    let c = chars_of(lowered);
    same_chars(&c, &chars_of("yes")) || same_chars(&c, &chars_of("<yes>"))
}

/// Whether a value switches a flag on: `yes` or `<yes>`, in any case.
pub fn is_yes(text: &str) -> (r: bool)
    ensures
        r == yes_word(lower_of(text@)),
{
    is_yes_folded(&lowercase(text))
}

/// A title relative to `title` when it starts with `/`, else as it stands.
pub open spec fn prefixed(text: Seq<char>, title: Seq<char>) -> Seq<char> {
    if text.len() > 0 && text[0] == '/' {
        title + text
    } else {
        text
    }
}

/// Resolves `text` against the origin page's `title`: a value starting with `/` names a
/// subpage of it; anything else is used as it stands.
pub fn prefix(text: &str, title: &str) -> (r: String)
    ensures
        r@ == prefixed(text@, title@),
{
    let t = chars_of(text);
    if t.len() > 0 && t[0] == '/' {
        let mut v = chars_of(title);
        append_chars(&mut v, &t);
        string_of(&v)
    } else {
        string_of(&t)
    }
}

/// `s` without a leading `+`.
pub open spec fn unsigned_part(s: Seq<char>) -> Seq<char> {
    if s.len() > 0 && s[0] == '+' { s.drop_first() } else { s }
}

/// Every character of `s` is an ASCII digit.
pub open spec fn is_digits(s: Seq<char>) -> bool {
    forall|i: int| 0 <= i < s.len() ==> (#[trigger] digit_value(s[i])) is Some
}

/// A `u32` written in decimal, with an optional leading `+`.
pub open spec fn u32_of(s: Seq<char>) -> Option<nat> {
    let d = unsigned_part(s);
    if d.len() > 0 && is_digits(d) && value_of(d) <= u32::MAX {
        Some(value_of(d))
    } else {
        None
    }
}

/// The leading-zero count of a numerical mask: 0 when absent or not a number.
pub open spec fn leading_zeros_of(input: Option<Seq<char>>) -> nat {
    match input {
        Some(s) => match u32_of(s) {
            Some(n) => n,
            None => 0,
        },
        None => 0,
    }
}

/// Reads a `u32` written in decimal, with an optional leading `+`.
pub fn parse_u32(s: &[char]) -> (r: Option<u32>)
    ensures
        r matches Some(n) ==> u32_of(s@) == Some(n as nat),
        r is None ==> u32_of(s@) is None,
{
    let start: usize = if s.len() > 0 && s[0] == '+' { 1 } else { 0 };
    let ghost d = unsigned_part(s@);
    assert(d =~= s@.skip(start as int));
    if start >= s.len() {
        return None;
    }
    let cap: u64 = 4_294_967_296;
    let mut v: u64 = 0;
    let mut i: usize = start;
    while i < s.len()
        invariant
            d =~= s@.skip(start as int),
            d == unsigned_part(s@),
            start <= i <= s@.len(),
            cap == u32::MAX + 1,
            v <= cap,
            v < cap ==> v as nat == value_of(d.take(i - start)),
            v == cap ==> value_of(d.take(i - start)) >= cap,
            forall|k: int| 0 <= k < i - start ==> (#[trigger] digit_value(d[k])) is Some,
        decreases s@.len() - i,
    {
        let ghost k = i - start;
        assert(d.take(k + 1).drop_last() =~= d.take(k));
        assert(d[k] == s@[i as int]);
        match crate::thread::digit_of(s[i]) {
            None => {
                assert(digit_value(d[k]) is None);
                assert(!(forall|j: int| 0 <= j < d.len() ==> (#[trigger] digit_value(d[j])) is Some));
                assert(u32_of(s@) is None);
                return None;
            },
            Some(x) => {
                if v == cap {
                    assert(value_of(d.take(k + 1)) == value_of(d.take(k)) * 10 + x);
                } else {
                    let w = v * 10 + x as u64;
                    v = if w >= cap { cap } else { w };
                }
            },
        }
        i = i + 1;
    }
    assert(d.take(i - start) =~= d);
    if v == cap {
        None
    } else {
        Some(v as u32)
    }
}

/// The leading-zero count of a numerical mask: 0 when absent or not a number.
pub fn parse_leading_zeros(input: Option<String>) -> (r: u32)
    ensures
        r == leading_zeros_of(match input {
            Some(s) => Some(s@),
            None => None,
        }),
{
    match input {
        Some(input) => match parse_u32(&chars_of(&input)) {
            Some(n) => n,
            None => 0,
        },
        None => 0,
    }
}


/// The mask that one mask value stands for, classified by its form, first match winning.
pub open spec fn mask_of(input: Seq<char>, title: Seq<char>, params: Seq<Param>) -> Result<MaskView, IndexError> {
    let lz = leading_zeros_of(param_value(params, "leading_zeros"@));
    if contains(input, "<#>"@) {
        Ok(MaskView::Numerical { mask: prefixed(input, title), leading_zeros: lz })
    } else if ends_with(input, "<#"@) {
        Ok(MaskView::Numerical { mask: prefixed(input + ">"@, title), leading_zeros: lz })
    } else if contains(input, "<year>"@) {
        match param_value(params, "first_archive"@) {
            None => Err(IndexError::MissingFirstArchive),
            Some(f) => if contains(input, "<month>"@) {
                Ok(MaskView::Monthly { mask: prefixed(input, title), first_archive: f })
            } else {
                Ok(MaskView::Yearly { mask: prefixed(input, title), first_archive: f })
            },
        }
    } else if !contains(input, "<"@) {
        Ok(MaskView::SinglePage { title: prefixed(input, title) })
    } else {
        Err(IndexError::UnrecognizedMask)
    }
}

pub open spec fn mask_result_view(r: Result<Mask, IndexError>) -> Result<MaskView, IndexError> {
    match r {
        Ok(m) => Ok(m@),
        Err(e) => Err(e),
    }
}

/// Reads one mask value of the configuration of the page called `title`.
pub fn parse_mask(input: &str, title: &str, params: &Vec<Param>) -> (r: Result<Mask, IndexError>)
    ensures
        mask_result_view(r) == mask_of(input@, title@, params@),
{
    proof {
        reveal_strlit("<#>");
        reveal_strlit("<#");
        reveal_strlit("<year>");
        reveal_strlit("<month>");
        reveal_strlit("<");
        reveal_strlit(">");
    }
    let c = chars_of(input);
    if contains_chars(&c, &chars_of("<#>")) {
        Ok(Mask::Numerical {
            mask: prefix(input, title),
            leading_zeros: parse_leading_zeros(get_param(params, "leading_zeros")),
        })
    } else if ends_with_chars(&c, &chars_of("<#")) {
        let mut closed = c;
        closed.push('>');
        assert(closed@ =~= input@ + ">"@);
        Ok(Mask::Numerical {
            mask: prefix(&string_of(&closed), title),
            leading_zeros: parse_leading_zeros(get_param(params, "leading_zeros")),
        })
    } else if contains_chars(&c, &chars_of("<year>")) {
        let first_archive = match get_param(params, "first_archive") {
            Some(f) => f,
            None => {
                return Err(IndexError::MissingFirstArchive);
            },
        };
        let mask = prefix(input, title);
        if contains_chars(&c, &chars_of("<month>")) {
            Ok(Mask::Monthly { mask, first_archive })
        } else {
            Ok(Mask::Yearly { mask, first_archive })
        }
    } else if !contains_chars(&c, &chars_of("<")) {
        Ok(Mask::SinglePage { title: prefix(input, title) })
    } else {
        Err(IndexError::UnrecognizedMask)
    }
}

/// The name of the invocation that opts a page in.
pub const OPT_IN: &'static str = "User:HBC Archive Indexerbot/OptIn";

/// The title that stands for the built-in default template.
pub const DEFAULT_TEMPLATE: &'static str = "User:HBC Archive Indexerbot/default template";

/// One resolved configuration of an origin page.
pub struct Instructions {
    pub origin: String,
    pub target: String,
    pub masks: Vec<Mask>,
    pub template: String,
}

pub struct InstructionsView {
    pub origin: Seq<char>,
    pub target: Seq<char>,
    pub masks: Seq<MaskView>,
    pub template: Seq<char>,
}

impl View for Instructions {
    type V = InstructionsView;

    open spec fn view(&self) -> InstructionsView {
        InstructionsView {
            origin: self.origin@,
            target: self.target@,
            masks: self.masks@.map_values(|m: Mask| m@),
            template: self.template@,
        }
    }
}

pub open spec fn mask_param_name(i: nat) -> Seq<char> {
    "mask"@ + digits_of(i)
}

/// The values of `mask<i>`, `mask<i+1>`, ..., up to the first one missing (there can be
/// no more of them than parameters).
pub open spec fn numbered_mask_values(params: Seq<Param>, i: nat) -> Seq<Seq<char>>
    decreases params.len() + 1 - i,
{
    if i > params.len() {
        seq![]
    } else {
        match param_value(params, mask_param_name(i)) {
            None => seq![],
            Some(v) => seq![v] + numbered_mask_values(params, i + 1),
        }
    }
}

/// The mask values of a configuration, in declaration order: `mask`, then `mask1`,
/// `mask2`, ... up to the first one missing.
pub open spec fn mask_values(params: Seq<Param>) -> Seq<Seq<char>> {
    let head: Seq<Seq<char>> = match param_value(params, "mask"@) {
        Some(v) => seq![v],
        None => seq![],
    };
    head + numbered_mask_values(params, 1)
}

/// Each value read as a mask, in order; the first error if any fails.
pub open spec fn masks_of(values: Seq<Seq<char>>, title: Seq<char>, params: Seq<Param>) -> Result<Seq<MaskView>, IndexError>
    decreases values.len(),
{
    if values.len() == 0 {
        Ok(seq![])
    } else {
        match masks_of(values.drop_last(), title, params) {
            Err(e) => Err(e),
            Ok(ms) => match mask_of(values.last(), title, params) {
                Err(e) => Err(e),
                Ok(m) => Ok(ms.push(m)),
            },
        }
    }
}

pub open spec fn target_of(params: Seq<Param>, title: Seq<char>) -> Seq<char> {
    match param_value(params, "target"@) {
        Some(t) => prefixed(t, title),
        None => title + "/Archive index"@,
    }
}

pub open spec fn template_of(params: Seq<Param>) -> Seq<char> {
    match param_value(params, "template"@) {
        Some(t) => if t == "template location"@ || t.len() == 0 {
            DEFAULT_TEMPLATE@
        } else {
            t
        },
        None => DEFAULT_TEMPLATE@,
    }
}

pub open spec fn index_here(params: Seq<Param>) -> bool {
    match param_value(params, "indexhere"@) {
        Some(v) => yes_word(lower_of(v)),
        None => false,
    }
}

/// The declared masks, or the default numerical mask when none is declared, then the
/// origin page itself when `indexhere` is on.
pub open spec fn final_masks(ms: Seq<MaskView>, title: Seq<char>, params: Seq<Param>) -> Seq<MaskView> {
    let base = if ms.len() == 0 {
        seq![MaskView::Numerical { mask: title + "/Archive <#>"@, leading_zeros: 0 }]
    } else {
        ms
    };
    if index_here(params) {
        base.push(MaskView::SinglePage { title })
    } else {
        base
    }
}

/// The first invocation that opts the page in.
pub open spec fn first_opt_in(invs: Seq<Invocation>) -> Option<Invocation>
    decreases invs.len(),
{
    if invs.len() == 0 {
        None
    } else if invs[0].name@ == OPT_IN@ {
        Some(invs[0])
    } else {
        first_opt_in(invs.drop_first())
    }
}

/// The instructions that the invocations of the page called `title` declare.
pub open spec fn instructions_of(title: Seq<char>, invs: Seq<Invocation>) -> Result<InstructionsView, IndexError> {
    match first_opt_in(invs) {
        None => Err(IndexError::MissingConfiguration),
        Some(inv) => {
            let params = inv.params@;
            match masks_of(mask_values(params), title, params) {
                Err(e) => Err(e),
                Ok(ms) => Ok(
                    InstructionsView {
                        origin: title,
                        target: target_of(params, title),
                        masks: final_masks(ms, title, params),
                        template: template_of(params),
                    },
                ),
            }
        },
    }
}


pub open spec fn string_views(v: Seq<String>) -> Seq<Seq<char>> {
    v.map_values(|s: String| s@)
}

/// The mask values of a configuration, in declaration order.
fn collect_mask_values(params: &Vec<Param>) -> (r: Vec<String>)
    ensures
        string_views(r@) == mask_values(params@),
{
    let mut values: Vec<String> = Vec::new();
    if let Some(v) = get_param(params, "mask") {
        values.push(v);
    }
    let ghost head = string_views(values@);
    assert(head =~= match param_value(params@, "mask"@) {
        Some(v) => seq![v],
        None => Seq::<Seq<char>>::empty(),
    });
    let mut counter: usize = 1;
    let mut done = false;
    let n = params.len();
    while !done && counter <= n
        invariant
            n == params@.len(),
            1 <= counter <= n + 1,
            mask_values(params@) == string_views(values@) + if done {
                Seq::<Seq<char>>::empty()
            } else {
                numbered_mask_values(params@, counter as nat)
            },
        decreases n + 1 - counter + if done { 0int } else { 1int },
    {
        let mut name = chars_of("mask");
        push_decimal(counter as u64, &mut name);
        let name = string_of(&name);
        assert(name@ == mask_param_name(counter as nat));
        match get_param(params, &name) {
            None => {
                assert(string_views(values@) + Seq::<Seq<char>>::empty() =~= string_views(values@)
                    + numbered_mask_values(params@, counter as nat));
                done = true;
            },
            Some(v) => {
                let ghost before = string_views(values@);
                values.push(v);
                assert(string_views(values@) =~= before.push(v@));
                assert(numbered_mask_values(params@, counter as nat) == seq![v@] + numbered_mask_values(params@, counter as nat + 1));
                assert(before.push(v@) + numbered_mask_values(params@, counter as nat + 1) =~= before
                    + numbered_mask_values(params@, counter as nat));
                if counter == usize::MAX {
                    assert(numbered_mask_values(params@, counter as nat + 1) == Seq::<Seq<char>>::empty());
                    assert(string_views(values@) + Seq::<Seq<char>>::empty() =~= string_views(values@)
                        + numbered_mask_values(params@, counter as nat + 1));
                    done = true;
                } else {
                    counter = counter + 1;
                }
            },
        }
    }
    if !done {
        assert(numbered_mask_values(params@, counter as nat) == Seq::<Seq<char>>::empty());
    }
    assert(string_views(values@) + Seq::<Seq<char>>::empty() =~= string_views(values@));
    values
}

/// Once reading a prefix of the values fails, reading a longer prefix fails the same way.
proof fn lemma_masks_error_persists(vals: Seq<Seq<char>>, j: int, title: Seq<char>, params: Seq<Param>)
    requires
        0 <= j <= vals.len(),
        masks_of(vals.take(j), title, params) is Err,
    ensures
        masks_of(vals, title, params) == masks_of(vals.take(j), title, params),
    decreases vals.len() - j,
{
    if j == vals.len() {
        assert(vals.take(j) =~= vals);
    } else {
        assert(vals.take(j + 1).drop_last() =~= vals.take(j));
        lemma_masks_error_persists(vals, j + 1, title, params);
    }
}

/// Reads the instructions of the page called `title` from the invocations found on it.
pub fn parse_instructions(title: &str, invocations: &Vec<Invocation>) -> (r: Result<Instructions, IndexError>)
    ensures
        match r {
            Ok(ins) => instructions_of(title@, invocations@) == Ok::<InstructionsView, IndexError>(ins@),
            Err(e) => instructions_of(title@, invocations@) == Err::<InstructionsView, IndexError>(e),
        },
{
    let opt_in = chars_of(OPT_IN);
    let mut k: usize = 0;
    assert(invocations@.skip(0) =~= invocations@);
    let mut found = false;
    while !found && k < invocations.len()
        invariant
            opt_in@ == OPT_IN@,
            k <= invocations@.len(),
            first_opt_in(invocations@) == first_opt_in(invocations@.skip(k as int)),
            found ==> k < invocations@.len() && invocations@[k as int].name@ == OPT_IN@,
        decreases invocations@.len() - k + if found { 0int } else { 1int },
    {
        assert(invocations@.skip(k as int).drop_first() =~= invocations@.skip(k + 1));
        assert(invocations@.skip(k as int)[0] == invocations@[k as int]);
        if same_chars(&chars_of(&invocations[k].name), &opt_in) {
            found = true;
        } else {
            k = k + 1;
        }
    }
    assert(k < invocations@.len() ==> invocations@.skip(k as int)[0] == invocations@[k as int]);
    if !found {
        assert(invocations@.skip(k as int) =~= Seq::<Invocation>::empty());
        return Err(IndexError::MissingConfiguration);
    }
    assert(first_opt_in(invocations@) == Some(invocations@[k as int]));
    let params = &invocations[k].params;
    let values = collect_mask_values(params);
    let ghost vals = string_views(values@);
    let mut masks: Vec<Mask> = Vec::new();
    let mut i: usize = 0;
    assert(vals.take(0) =~= Seq::<Seq<char>>::empty());
    assert(masks@.map_values(|m: Mask| m@) =~= Seq::<MaskView>::empty());
    while i < values.len()
        invariant
            vals == string_views(values@),
            vals == mask_values(params@),
            first_opt_in(invocations@) == Some(invocations@[k as int]),
            params@ == invocations@[k as int].params@,
            i <= values@.len(),
            masks_of(vals.take(i as int), title@, params@) == Ok::<Seq<MaskView>, IndexError>(
                masks@.map_values(|m: Mask| m@),
            ),
        decreases values@.len() - i,
    {
        assert(vals.take(i + 1).drop_last() =~= vals.take(i as int));
        assert(vals.take(i + 1).last() == values@[i as int]@);
        let ghost before = masks@.map_values(|m: Mask| m@);
        match parse_mask(&values[i], title, params) {
            Err(e) => {
                proof {
                    assert(masks_of(vals.take(i + 1), title@, params@) == Err::<Seq<MaskView>, IndexError>(e));
                    lemma_masks_error_persists(vals, i + 1, title@, params@);
                    assert(vals.take(vals.len() as int) =~= vals);
                }
                return Err(e);
            },
            Ok(m) => {
                masks.push(m);
                assert(masks@.map_values(|m: Mask| m@) =~= before.push(m@));
            },
        }
        i = i + 1;
    }
    assert(vals.take(i as int) =~= vals);
    let ghost ms = masks@.map_values(|m: Mask| m@);
    let target = match get_param(params, "target") {
        Some(t) => prefix(&t, title),
        None => prefix("/Archive index", title),
    };
    proof {
        reveal_strlit("/Archive index");
        reveal_strlit("/Archive <#>");
        reveal_strlit("template location");
    }
    let template = match get_param(params, "template") {
        Some(t) => {
            let tc = chars_of(&t);
            if same_chars(&tc, &chars_of("template location")) || tc.len() == 0 {
                string_of(&chars_of(DEFAULT_TEMPLATE))
            } else {
                t
            }
        },
        None => string_of(&chars_of(DEFAULT_TEMPLATE)),
    };
    let indexhere = match get_param(params, "indexhere") {
        Some(v) => is_yes(&v),
        None => false,
    };
    if masks.len() == 0 {
        masks.push(Mask::Numerical { mask: prefix("/Archive <#>", title), leading_zeros: 0 });
    }
    let ghost base = masks@.map_values(|m: Mask| m@);
    assert(base =~= if ms.len() == 0 {
        seq![MaskView::Numerical { mask: title@ + "/Archive <#>"@, leading_zeros: 0 }]
    } else {
        ms
    });
    if indexhere {
        masks.push(Mask::SinglePage { title: string_of(&chars_of(title)) });
        assert(masks@.map_values(|m: Mask| m@) =~= base.push(MaskView::SinglePage { title: title@ }));
    }
    let ins = Instructions { origin: string_of(&chars_of(title)), target, masks, template };
    assert(ins@.masks =~= final_masks(ms, title@, params@));
    assert(first_opt_in(invocations@) == Some(invocations@[k as int]));
    assert(masks_of(mask_values(params@), title@, params@) == Ok::<Seq<MaskView>, IndexError>(ms));
    assert(ins@.target == target_of(params@, title@));
    assert(ins@.template == template_of(params@));
    assert(index_here(params@) == indexhere);
    Ok(ins)
}

} // verus!
