//! Code-observable filters ("C1C" for every constellation, "GC1C" for one) and the
//! constellation list of an analysis.
use vstd::prelude::*;
use crate::gnss::{code_text, parse_code, system_letter, system_of_letter, GnssSystem, SignalCode};
use crate::text::{
    ascii_upper, ascii_upper_seq, is_white_space, push_char, str_chars, string_of, upper_char,
    utf8_len, utf8_width,
};

verus! {

/// Whether a filter list holds an entry that, upper-cased, equals `plain` or `scoped`.
pub open spec fn list_matches(list: Seq<String>, plain: Seq<char>, scoped: Seq<char>) -> bool {
    exists|i: int|
        0 <= i < list.len() && (ascii_upper_seq((#[trigger] list[i])@) == plain || ascii_upper_seq(
            list[i]@,
        ) == scoped)
}

/// A code observable passes the filters when no excludes entry names it and, if there are
/// includes entries, one of them names it. An entry names a code by its text (`C1C`) or by
/// its text behind the constellation letter (`GC1C`), compared case-insensitively.
pub open spec fn code_passes(sys: GnssSystem, code: SignalCode, includes: Seq<String>, excludes: Seq<String>) -> bool {
    let plain = code_text(code);
    let scoped = seq![system_letter(sys)] + plain;
    !list_matches(excludes, plain, scoped) && (includes.len() == 0 || list_matches(
        includes,
        plain,
        scoped,
    ))
}

/// An excluded code never passes, whatever the include list holds; with no include
/// entries, every code that is not excluded passes.
pub proof fn law_exclude_wins(sys: GnssSystem, code: SignalCode, includes: Seq<String>, excludes: Seq<String>)
    ensures
        list_matches(excludes, code_text(code), seq![system_letter(sys)] + code_text(code)) ==> !code_passes(
            sys,
            code,
            includes,
            excludes,
        ),
        includes.len() == 0 && !list_matches(excludes, code_text(code), seq![system_letter(sys)] + code_text(code))
            ==> code_passes(sys, code, includes, excludes),
{
}

fn chars_eq(a: &Vec<char>, b: &Vec<char>) -> (r: bool)
    ensures
        r == (a@ == b@),
{
    if a.len() != b.len() {
        return false;
    }
    let mut i: usize = 0;
    while i < a.len()
        invariant
            a.len() == b.len(),
            i <= a.len(),
            forall|k: int| 0 <= k < i ==> a@[k] == b@[k],
        decreases a.len() - i,
    {
        if a[i] != b[i] {
            return false;
        }
        i = i + 1;
    }
    assert(a@ =~= b@);
    true
}

fn upper_chars(s: &String) -> (r: Vec<char>)
    ensures
        r@ == ascii_upper_seq(s@),
{
    let cs = str_chars(s.as_str());
    let mut r: Vec<char> = Vec::new();
    let mut i: usize = 0;
    while i < cs.len()
        invariant
            i <= cs.len(),
            r@ == ascii_upper_seq(cs@.subrange(0, i as int)),
        decreases cs.len() - i,
    {
        r.push(upper_char(cs[i]));
        i = i + 1;
        assert(r@ =~= ascii_upper_seq(cs@.subrange(0, i as int)));
    }
    assert(cs@.subrange(0, cs.len() as int) =~= cs@);
    r
}

fn any_matches(list: &Vec<String>, plain: &Vec<char>, scoped: &Vec<char>) -> (r: bool)
    ensures
        r == list_matches(list@, plain@, scoped@),
{
    let mut i: usize = 0;
    while i < list.len()
        invariant
            i <= list.len(),
            forall|k: int|
                0 <= k < i ==> !(ascii_upper_seq((#[trigger] list@[k])@) == plain@ || ascii_upper_seq(
                    list@[k]@,
                ) == scoped@),
        decreases list.len() - i,
    {
        let u = upper_chars(&list[i]);
        if chars_eq(&u, plain) || chars_eq(&u, scoped) {
            assert(ascii_upper_seq(list@[i as int]@) == plain@ || ascii_upper_seq(list@[i as int]@) == scoped@);
            return true;
        }
        i = i + 1;
    }
    false
}

/// Does a code observable pass the includes/excludes filters?
pub fn code_allowed(sys: GnssSystem, code: &SignalCode, includes: &Vec<String>, excludes: &Vec<String>) -> (r: bool)
    ensures
        r == code_passes(sys, *code, includes@, excludes@),
{
    let plain_s = code.to_string();
    let plain = str_chars(plain_s.as_str());
    let mut scoped: Vec<char> = Vec::new();
    scoped.push(sys.to_char());
    let mut i: usize = 0;
    while i < plain.len()
        invariant
            i <= plain.len(),
            scoped@ == seq![system_letter(sys)] + plain@.subrange(0, i as int),
        decreases plain.len() - i,
    {
        scoped.push(plain[i]);
        i = i + 1;
        assert(scoped@ =~= seq![system_letter(sys)] + plain@.subrange(0, i as int));
    }
    assert(plain@.subrange(0, plain.len() as int) =~= plain@);
    if any_matches(excludes, &plain, &scoped) {
        return false;
    }
    if includes.len() == 0 {
        return true;
    }
    any_matches(includes, &plain, &scoped)
}

/// Include filter of an analysis: the configured includes entries followed by the text of
/// the primary code of every configured signal pair.
pub fn effective_includes(include_codes: &Vec<String>, pairs: &Vec<(SignalCode, SignalCode)>) -> (r: Vec<String>)
    ensures
        r.len() == include_codes.len() + pairs.len(),
        forall|i: int| 0 <= i < include_codes.len() ==> (#[trigger] r@[i])@ == include_codes@[i]@,
        forall|k: int|
            0 <= k < pairs.len() ==> (#[trigger] r@[include_codes.len() + k])@ == code_text(pairs@[k].0),
{
    let mut r: Vec<String> = Vec::new();
    let mut i: usize = 0;
    while i < include_codes.len()
        invariant
            i <= include_codes.len(),
            r.len() == i,
            forall|k: int| 0 <= k < i ==> (#[trigger] r@[k])@ == include_codes@[k]@,
        decreases include_codes.len() - i,
    {
        r.push(include_codes[i].clone());
        i = i + 1;
    }
    let mut k: usize = 0;
    while k < pairs.len()
        invariant
            k <= pairs.len(),
            r.len() == include_codes.len() + k,
            forall|j: int| 0 <= j < include_codes.len() ==> (#[trigger] r@[j])@ == include_codes@[j]@,
            forall|j: int|
                0 <= j < k ==> (#[trigger] r@[include_codes.len() + j])@ == code_text(pairs@[j].0),
        decreases pairs.len() - k,
    {
        r.push(pairs[k].0.to_string());
        k = k + 1;
    }
    r
}

/// The constellations named by a list of strings: each string's first character taken as a
/// system letter; strings that are empty or name no constellation are skipped.
pub open spec fn systems_named(names: Seq<String>) -> Seq<GnssSystem>
    decreases names.len(),
{
    if names.len() == 0 {
        Seq::empty()
    } else {
        let rest = systems_named(names.drop_last());
        let s = names.last()@;
        if s.len() > 0 && system_of_letter(s[0]) is Some {
            rest.push(system_of_letter(s[0]).unwrap())
        } else {
            rest
        }
    }
}

/// Set systems to analyze (see `systems_named`).
pub fn systems_from_names(names: &Vec<String>) -> (r: Vec<GnssSystem>)
    ensures
        r@ == systems_named(names@),
{
    let mut r: Vec<GnssSystem> = Vec::new();
    let mut i: usize = 0;
    while i < names.len()
        invariant
            i <= names.len(),
            r@ == systems_named(names@.subrange(0, i as int)),
        decreases names.len() - i,
    {
        proof {
            assert(names@.subrange(0, i + 1).drop_last() =~= names@.subrange(0, i as int));
            assert(names@.subrange(0, i + 1).last() == names@[i as int]);
        }
        let s = names[i].as_str();
        let n = s.unicode_len();
        if n > 0 {
            let c = s.get_char(0);
            match GnssSystem::from_char(c) {
                Some(x) => {
                    r.push(x);
                },
                None => {},
            }
        }
        i = i + 1;
    }
    assert(names@.subrange(0, names.len() as int) =~= names@);
    r
}

/// Why a code filter entry was refused.
#[derive(Clone, Copy, Debug, PartialEq, Eq, Structural)]
pub enum FilterErrorKind {
    /// Neither a 3-character code ("C1C") nor system + code ("GC1C")
    BadLength,
    /// The code part is not a valid signal code
    NotACode,
    /// The system letter names no constellation
    UnknownSystem,
}

/// A refused code filter entry: its position in the list and the reason.
#[derive(Clone, Copy, Debug, PartialEq, Eq, Structural)]
pub struct FilterError {
    pub index: usize,
    pub kind: FilterErrorKind,
}

/// Text with leading `White_Space` characters removed.
pub open spec fn trim_start(s: Seq<char>) -> Seq<char>
    decreases s.len(),
{
    if s.len() > 0 && is_white_space(s[0]) {
        trim_start(s.drop_first())
    } else {
        s
    }
}

/// Text with trailing `White_Space` characters removed.
pub open spec fn trim_end(s: Seq<char>) -> Seq<char>
    decreases s.len(),
{
    if s.len() > 0 && is_white_space(s.last()) {
        trim_end(s.drop_last())
    } else {
        s
    }
}

/// An entry as the filters use it: trimmed of surrounding white space and upper-cased.
pub open spec fn normalized(s: Seq<char>) -> Seq<char> {
    ascii_upper_seq(trim_end(trim_start(s)))
}

/// A normalized entry whose UTF-8 length is 4 but whose first character is not ASCII has
/// no character boundary after its first byte; such an entry is not accepted as input.
pub open spec fn entry_unsplittable(s: Seq<char>) -> bool {
    let u = normalized(s);
    utf8_len(u) == 4 && u.len() > 0 && (u[0] as u32) >= 0x80
}

/// Every entry before position `i` is accepted.
pub open spec fn accepted_before(items: Seq<String>, i: int) -> bool {
    forall|j: int| 0 <= j < i ==> (#[trigger] check_entry(items[j]@)) is Ok
}

/// The verdict on one filter entry: the normalized entry, or why it is refused. An entry
/// of 3 UTF-8 bytes must be a signal code; one of 4 bytes must be a system letter followed
/// by a signal code; any other length is refused.
#[verifier::opaque]
pub open spec fn check_entry(s: Seq<char>) -> Result<Seq<char>, FilterErrorKind> {
    let u = normalized(s);
    let b = utf8_len(u);
    if b != 3 && b != 4 {
        Err(FilterErrorKind::BadLength)
    } else {
        let code_part = if b == 3 { u } else { u.drop_first() };
        if parse_code(code_part) is None {
            Err(FilterErrorKind::NotACode)
        } else if b == 4 && system_of_letter(u[0]) is None {
            Err(FilterErrorKind::UnknownSystem)
        } else {
            Ok(u)
        }
    }
}

proof fn lemma_utf8_len_push(s: Seq<char>, c: char)
    ensures
        utf8_len(s.push(c)) == utf8_len(s) + utf8_width(c),
{
    assert(s.push(c).drop_last() =~= s);
}

proof fn lemma_utf8_len_pos(s: Seq<char>)
    ensures
        utf8_len(s) >= s.len(),
    decreases s.len(),
{
    if s.len() > 0 {
        lemma_utf8_len_pos(s.drop_last());
    }
}

proof fn lemma_utf8_prefix_monotone(s: Seq<char>, i: int, j: int)
    requires
        0 <= i <= j <= s.len(),
    ensures
        utf8_len(s.subrange(0, i)) <= utf8_len(s.subrange(0, j)),
    decreases j - i,
{
    if i < j {
        lemma_utf8_prefix_monotone(s, i, j - 1);
        assert(s.subrange(0, j).drop_last() =~= s.subrange(0, j - 1));
    }
}

/// Normalized chars of one entry, computed.
fn normalize(s: &String) -> (r: Vec<char>)
    ensures
        r@ == normalized(s@),
{
    let cs = str_chars(s.as_str());
    let n = cs.len();
    let mut a: usize = 0;
    assert(cs@.subrange(0, n as int) =~= cs@);
    while a < n && crate::text::white_space(cs[a])
        invariant
            a <= n,
            n == cs.len(),
            trim_start(cs@) == trim_start(cs@.subrange(a as int, n as int)),
        decreases n - a,
    {
        assert(cs@.subrange(a as int, n as int).drop_first() =~= cs@.subrange(a + 1, n as int));
        a = a + 1;
    }
    let ghost st = cs@.subrange(a as int, n as int);
    assert(trim_start(cs@) == st) by {
        if a < n {
            assert(st[0] == cs@[a as int]);
        }
    }
    let mut b: usize = n;
    assert(st.subrange(0, (b - a) as int) =~= st);
    while b > a && crate::text::white_space(cs[b - 1])
        invariant
            a <= b <= n,
            n == cs.len(),
            st == cs@.subrange(a as int, n as int),
            trim_end(st) == trim_end(cs@.subrange(a as int, b as int)),
        decreases b - a,
    {
        assert(cs@.subrange(a as int, b as int).drop_last() =~= cs@.subrange(a as int, b - 1));
        b = b - 1;
    }
    let ghost t = cs@.subrange(a as int, b as int);
    assert(trim_end(st) == t) by {
        if b > a {
            assert(t.last() == cs@[b - 1]);
        }
    }
    let mut r: Vec<char> = Vec::new();
    let mut k: usize = a;
    while k < b
        invariant
            a <= k <= b,
            b <= n,
            n == cs.len(),
            t == cs@.subrange(a as int, b as int),
            r@ == ascii_upper_seq(cs@.subrange(a as int, k as int)),
        decreases b - k,
    {
        r.push(upper_char(cs[k]));
        k = k + 1;
        assert(r@ =~= ascii_upper_seq(cs@.subrange(a as int, k as int)));
    }
    r
}

/// UTF-8 length of a character vector, capped at 5.
fn utf8_len_capped(u: &Vec<char>) -> (r: usize)
    ensures
        r == if utf8_len(u@) > 4 { 5 } else { utf8_len(u@) },
{
    let mut sum: usize = 0;
    let mut i: usize = 0;
    while i < u.len()
        invariant
            i <= u.len(),
            sum == utf8_len(u@.subrange(0, i as int)),
            sum <= 4,
        decreases u.len() - i,
    {
        let c = u[i];
        let x = c as u32;
        let w: usize = if x < 0x80 {
            1
        } else if x < 0x800 {
            2
        } else if x < 0x10000 {
            3
        } else {
            4
        };
        proof {
            lemma_utf8_len_push(u@.subrange(0, i as int), c);
            assert(u@.subrange(0, i + 1) =~= u@.subrange(0, i as int).push(c));
        }
        if sum + w > 4 {
            proof {
                lemma_utf8_prefix_monotone(u@, i + 1, u@.len() as int);
                assert(u@.subrange(0, u@.len() as int) =~= u@);
            }
            return 5;
        }
        sum = sum + w;
        i = i + 1;
    }
    assert(u@.subrange(0, u@.len() as int) =~= u@);
    sum
}

/// The verdict on one entry, computed (see `check_entry`).
fn check_one(item: &String) -> (r: Result<Vec<char>, FilterErrorKind>)
    requires
        !entry_unsplittable(item@),
    ensures
        r matches Ok(u) ==> check_entry(item@) == Ok::<Seq<char>, FilterErrorKind>(u@),
        r matches Err(k) ==> check_entry(item@) == Err::<Seq<char>, FilterErrorKind>(k),
{
    reveal(check_entry);
    let u = normalize(item);
    let b = utf8_len_capped(&u);
    if b != 3 && b != 4 {
        return Err(FilterErrorKind::BadLength);
    }
    proof {
        lemma_utf8_len_pos(u@);
    }
    let code_part: Vec<char> = if b == 3 {
        u.clone()
    } else {
        let mut cp: Vec<char> = Vec::new();
        let mut k: usize = 1;
        while k < u.len()
            invariant
                1 <= k <= u.len(),
                cp@ == u@.subrange(1, k as int),
            decreases u.len() - k,
        {
            cp.push(u[k]);
            k = k + 1;
            assert(cp@ =~= u@.subrange(1, k as int));
        }
        assert(u@.subrange(1, u@.len() as int) =~= u@.drop_first());
        cp
    };
    let cps = string_of(&code_part);
    if SignalCode::parse(cps.as_str()).is_none() {
        return Err(FilterErrorKind::NotACode);
    }
    if b == 4 && GnssSystem::from_char(u[0]).is_none() {
        return Err(FilterErrorKind::UnknownSystem);
    }
    Ok(u)
}

/// Validates code filter entries: "C1C" (all systems) or "GC1C" (one system). Entries are
/// trimmed and upper-cased; the first refused entry is reported (see `check_entry`).
pub fn validate_code_filters(items: &Vec<String>) -> (r: Result<Vec<String>, FilterError>)
    requires
        forall|i: int|
            0 <= i < items@.len() && accepted_before(items@, i) ==> !entry_unsplittable(
                #[trigger] items@[i]@,
            ),
    ensures
        r matches Ok(v) ==> v.len() == items.len() && forall|i: int|
            0 <= i < items.len() ==> check_entry(items@[i]@) == Ok::<Seq<char>, FilterErrorKind>(
                (#[trigger] v@[i])@,
            ),
        r matches Err(e) ==> e.index < items.len() && check_entry(items@[e.index as int]@) == Err::<
            Seq<char>,
            FilterErrorKind,
        >(e.kind) && forall|j: int| 0 <= j < e.index ==> (#[trigger] check_entry(items@[j]@)) is Ok,
        r is Ok <==> forall|i: int| 0 <= i < items.len() ==> (#[trigger] check_entry(items@[i]@)) is Ok,
{
    let mut out: Vec<String> = Vec::new();
    let mut i: usize = 0;
    while i < items.len()
        invariant
            i <= items.len(),
            out.len() == i,
            forall|i2: int|
                0 <= i2 < items@.len() && accepted_before(items@, i2) ==> !entry_unsplittable(
                    #[trigger] items@[i2]@,
                ),
            forall|k: int|
                0 <= k < i ==> check_entry(items@[k]@) == Ok::<Seq<char>, FilterErrorKind>(
                    (#[trigger] out@[k])@,
                ),
        decreases items.len() - i,
    {
        assert(accepted_before(items@, i as int)) by {
            assert forall|j: int| 0 <= j < i implies (#[trigger] check_entry(items@[j]@)) is Ok by {
                assert(check_entry(items@[j]@) == Ok::<Seq<char>, FilterErrorKind>(out@[j]@));
            }
        }
        match check_one(&items[i]) {
            Ok(u) => {
                out.push(string_of(&u));
            },
            Err(kind) => {
                return Err(FilterError { index: i, kind });
            },
        }
        i = i + 1;
    }
    assert forall|k: int| 0 <= k < items.len() implies (#[trigger] check_entry(items@[k]@)) is Ok by {
        assert(check_entry(items@[k]@) == Ok::<Seq<char>, FilterErrorKind>(out@[k]@));
    }
    Ok(out)
}

} // verus!
