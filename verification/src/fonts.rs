//! Font choice for the terminal: the candidate families, which font a cell
//! uses, the fallback chains of font names, and how well a font name from the
//! Windows registry fits a family.

use vstd::prelude::*;

use crate::cell::Cell;
use crate::text::{str_chars, trim, trim_bounds, first_in, CharClass};

verus! {

broadcast use vstd::string::group_string_axioms;

/// The name the English terminal font is registered under.
pub const ENGLISH_FONT_NAME: &'static str = "welly-english";

/// The name the Chinese terminal font is registered under.
pub const CHINESE_FONT_NAME: &'static str = "welly-chinese";

/// A font to look for: the name to register it under, and the families that
/// provide it, in order of preference.
#[derive(Clone, Copy)]
pub struct FontCandidate {
    pub egui_name: &'static str,
    pub families: &'static [&'static str],
}

/// The English candidates, in order: Monaco, Cascadia Mono, CaskaydiaMono.
pub fn english_font_candidates() -> (v: Vec<FontCandidate>)
    ensures
        v@.len() == 3,
        forall|i: int| 0 <= i < 3 ==> (#[trigger] v@[i]).egui_name == ENGLISH_FONT_NAME
            && v@[i].families@.len() == 1,
        v@[0].families@[0] == "Monaco",
        v@[1].families@[0] == "Cascadia Mono",
        v@[2].families@[0] == "CaskaydiaMono",
{
    let mut v: Vec<FontCandidate> = Vec::new();
    v.push(FontCandidate { egui_name: ENGLISH_FONT_NAME, families: &["Monaco"] });
    v.push(FontCandidate { egui_name: ENGLISH_FONT_NAME, families: &["Cascadia Mono"] });
    v.push(FontCandidate { egui_name: ENGLISH_FONT_NAME, families: &["CaskaydiaMono"] });
    v
}

/// The Chinese candidates, in order: Heiti SC, SimHei, Noto Sans Mono CJK SC,
/// Sarasa Mono SC.
pub fn chinese_font_candidates() -> (v: Vec<FontCandidate>)
    ensures
        v@.len() == 4,
        forall|i: int| 0 <= i < 4 ==> (#[trigger] v@[i]).egui_name == CHINESE_FONT_NAME
            && v@[i].families@.len() == 1,
        v@[0].families@[0] == "Heiti SC",
        v@[1].families@[0] == "SimHei",
        v@[2].families@[0] == "Noto Sans Mono CJK SC",
        v@[3].families@[0] == "Sarasa Mono SC",
{
    let mut v: Vec<FontCandidate> = Vec::new();
    v.push(FontCandidate { egui_name: CHINESE_FONT_NAME, families: &["Heiti SC"] });
    v.push(FontCandidate { egui_name: CHINESE_FONT_NAME, families: &["SimHei"] });
    v.push(FontCandidate { egui_name: CHINESE_FONT_NAME, families: &["Noto Sans Mono CJK SC"] });
    v.push(FontCandidate { egui_name: CHINESE_FONT_NAME, families: &["Sarasa Mono SC"] });
    v
}

/// ASCII characters are drawn with the English font, all others with the
/// Chinese font.
pub fn font_name_for_cell(cell: &Cell) -> (name: &'static str)
    ensures
        name == if cell.ch <= '\u{7f}' {
            ENGLISH_FONT_NAME
        } else {
            CHINESE_FONT_NAME
        },
{
    if cell.ch <= '\u{7f}' {
        ENGLISH_FONT_NAME
    } else {
        CHINESE_FONT_NAME
    }
}

/// Whether some family of the candidate may be reported available.
pub open spec fn candidate_may_be_available<F: Fn(&str) -> bool>(
    c: FontCandidate,
    is_available: F,
) -> bool {
    exists|k: int|
        0 <= k < c.families@.len() && call_ensures(is_available, (c.families@[k],), true)
}

/// Whether every family of the candidate may be reported missing.
pub open spec fn candidate_may_be_missing<F: Fn(&str) -> bool>(
    c: FontCandidate,
    is_available: F,
) -> bool {
    forall|k: int|
        0 <= k < c.families@.len() ==> call_ensures(is_available, (c.families@[k],), false)
}

/// The first candidate with an available family: the answer is a candidate
/// some of whose families was reported available, after every earlier
/// candidate had all its families reported missing; `None` when every family
/// was reported missing.
pub fn choose_font_candidate<F: Fn(&str) -> bool>(
    candidates: &[FontCandidate],
    is_available: F,
) -> (r: Option<FontCandidate>)
    requires
        forall|i: int, k: int|
            0 <= i < candidates@.len() && 0 <= k < candidates@[i].families@.len()
                ==> call_requires(is_available, (candidates@[i].families@[k],)),
    ensures
        match r {
            Some(c) => exists|i: int|
                0 <= i < candidates@.len() && candidates@[i] == c && candidate_may_be_available(
                    c,
                    is_available,
                ) && forall|j: int|
                    0 <= j < i ==> candidate_may_be_missing(
                        #[trigger] candidates@[j],
                        is_available,
                    ),
            None => forall|j: int|
                0 <= j < candidates@.len() ==> candidate_may_be_missing(
                    #[trigger] candidates@[j],
                    is_available,
                ),
        },
{
    let mut i: usize = 0;
    while i < candidates.len()
        invariant
            i <= candidates@.len(),
            forall|i: int, k: int|
                0 <= i < candidates@.len() && 0 <= k < candidates@[i].families@.len()
                    ==> call_requires(is_available, (candidates@[i].families@[k],)),
            forall|j: int|
                0 <= j < i ==> candidate_may_be_missing(#[trigger] candidates@[j], is_available),
        decreases candidates@.len() - i,
    {
        let c = candidates[i];
        let mut k: usize = 0;
        while k < c.families.len()
            invariant
                i < candidates@.len(),
                c == candidates@[i as int],
                k <= c.families@.len(),
                forall|i: int, k: int|
                    0 <= i < candidates@.len() && 0 <= k < candidates@[i].families@.len()
                        ==> call_requires(is_available, (candidates@[i].families@[k],)),
                forall|q: int|
                    0 <= q < k ==> call_ensures(is_available, (#[trigger] c.families@[q],), false),
                forall|j: int|
                    0 <= j < i ==> candidate_may_be_missing(#[trigger] candidates@[j], is_available),
            decreases c.families@.len() - k,
        {
            let family = c.families[k];
            if is_available(family) {
                assert(candidate_may_be_available(c, is_available));
                assert(0 <= i < candidates@.len() && candidates@[i as int] == c
                    && candidate_may_be_available(c, is_available) && forall|j: int|
                    0 <= j < i ==> candidate_may_be_missing(
                        #[trigger] candidates@[j],
                        is_available,
                    ));
                return Some(c);
            }
            k += 1;
        }
        assert(candidate_may_be_missing(candidates@[i as int], is_available));
        i += 1;
    }
    None
}

/// `names` with `name` added at the end unless it is already there.
pub open spec fn with_unique(names: Seq<Seq<char>>, name: Seq<char>) -> Seq<Seq<char>> {
    if names.contains(name) {
        names
    } else {
        names.push(name)
    }
}

pub open spec fn opt_str_view(o: Option<&str>) -> Option<Seq<char>> {
    match o {
        Some(s) => Some(s@),
        None => None,
    }
}

pub open spec fn names_view(v: Seq<String>) -> Seq<Seq<char>> {
    v.map_values(|s: String| s@)
}

/// Whether `names` holds `name`.
fn holds_name(names: &Vec<String>, name: &String) -> (b: bool)
    ensures
        b == names_view(names@).contains(name@),
{
    let mut i: usize = 0;
    while i < names.len()
        invariant
            i <= names@.len(),
            forall|q: int| 0 <= q < i ==> (#[trigger] names@[q])@ != name@,
        decreases names@.len() - i,
    {
        if names[i] == *name {
            assert(names_view(names@)[i as int] == name@);
            return true;
        }
        i += 1;
    }
    assert forall|q: int| 0 <= q < names_view(names@).len() implies #[trigger] names_view(
        names@,
    )[q] != name@ by {
        assert(names_view(names@)[q] == names@[q]@);
    }
    false
}

/// Adds `font_name` at the end of `families` unless it is already there.
pub fn push_unique_font_name(families: &mut Vec<String>, font_name: Option<&str>)
    ensures
        names_view(final(families)@) == match opt_str_view(font_name) {
            Some(n) => with_unique(names_view(old(families)@), n),
            None => names_view(old(families)@),
        },
{
    match font_name {
        Some(name) => {
            let owned = name.to_owned();
            if !holds_name(families, &owned) {
                let ghost before = families@;
                families.push(owned);
                assert(names_view(families@) =~= names_view(before).push(name@));
            }
        },
        None => {},
    }
}

/// Adds `font_name` at the front of `families` unless it is already there.
pub fn prepend_font_name(families: &mut Vec<String>, font_name: Option<&str>)
    ensures
        names_view(final(families)@) == match opt_str_view(font_name) {
            Some(n) => if names_view(old(families)@).contains(n) {
                names_view(old(families)@)
            } else {
                seq![n] + names_view(old(families)@)
            },
            None => names_view(old(families)@),
        },
{
    match font_name {
        Some(name) => {
            let owned = name.to_owned();
            if !holds_name(families, &owned) {
                let ghost before = families@;
                families.insert(0, owned);
                assert(names_view(families@) =~= seq![name@] + names_view(before));
            }
        },
        None => {},
    }
}

/// Adds `font_name` at the end of `families` unless it is already there.
pub fn append_font_name(families: &mut Vec<String>, font_name: Option<&str>)
    ensures
        names_view(final(families)@) == match opt_str_view(font_name) {
            Some(n) => with_unique(names_view(old(families)@), n),
            None => names_view(old(families)@),
        },
{
    push_unique_font_name(families, font_name)
}

/// The names added in turn, each unless already there.
pub open spec fn unique_chain(start: Seq<Seq<char>>, names: Seq<Seq<char>>) -> Seq<Seq<char>>
    decreases names.len(),
{
    if names.len() == 0 {
        start
    } else {
        with_unique(unique_chain(start, names.drop_last()), names.last())
    }
}

/// The chain of font names for a family: the primary font, then the
/// secondary, then the fallbacks, each once.
pub open spec fn font_chain(
    primary: Option<Seq<char>>,
    secondary: Option<Seq<char>>,
    fallbacks: Seq<Seq<char>>,
) -> Seq<Seq<char>> {
    let first = match primary {
        Some(p) => seq![p],
        None => Seq::empty(),
    };
    let second = match secondary {
        Some(s) => with_unique(first, s),
        None => first,
    };
    unique_chain(second, fallbacks)
}

/// The font names a named family tries in order.
pub fn family_chain(primary: Option<&str>, secondary: Option<&str>, fallbacks: &[String]) -> (v:
    Vec<String>)
    ensures
        names_view(v@) == font_chain(
            opt_str_view(primary),
            opt_str_view(secondary),
            names_view(fallbacks@),
        ),
{
    let mut chain: Vec<String> = Vec::new();
    push_unique_font_name(&mut chain, primary);
    assert(names_view(chain@) =~= match opt_str_view(primary) {
        Some(p) => seq![p],
        None => Seq::<Seq<char>>::empty(),
    }) by {
        if primary is Some {
            assert(!Seq::<Seq<char>>::empty().contains(primary->0@));
        }
    }
    push_unique_font_name(&mut chain, secondary);
    let ghost second = names_view(chain@);
    let ghost fb = names_view(fallbacks@);
    let mut i: usize = 0;
    while i < fallbacks.len()
        invariant
            i <= fallbacks@.len(),
            fb == names_view(fallbacks@),
            names_view(chain@) == unique_chain(second, fb.take(i as int)),
        decreases fallbacks@.len() - i,
    {
        assert(fb.take(i + 1).drop_last() =~= fb.take(i as int));
        assert(fb.take(i + 1).last() == fallbacks@[i as int]@);
        push_unique_font_name(&mut chain, Some(fallbacks[i].as_str()));
        i += 1;
    }
    assert(fb.take(fallbacks@.len() as int) =~= fb);
    chain
}

/// A chain of names added each unless already there holds no name twice.
pub proof fn lemma_unique_chain_has_no_duplicates(start: Seq<Seq<char>>, names: Seq<Seq<char>>)
    requires
        start.no_duplicates(),
    ensures
        unique_chain(start, names).no_duplicates(),
    decreases names.len(),
{
    if names.len() > 0 {
        lemma_unique_chain_has_no_duplicates(start, names.drop_last());
        let before = unique_chain(start, names.drop_last());
        if !before.contains(names.last()) {
            assert forall|i: int, j: int|
                0 <= i < before.push(names.last()).len() && 0 <= j < before.push(
                    names.last(),
                ).len() && i != j implies before.push(names.last())[i] != before.push(
                names.last(),
            )[j] by {
                if i < before.len() && j < before.len() {
                } else if i == before.len() {
                    assert(before[j] != names.last());
                } else {
                    assert(before[i] != names.last());
                }
            }
        }
    }
}

/// The chain of a font family names each font once.
pub proof fn lemma_font_chain_has_no_duplicates(
    primary: Option<Seq<char>>,
    secondary: Option<Seq<char>>,
    fallbacks: Seq<Seq<char>>,
)
    ensures
        font_chain(primary, secondary, fallbacks).no_duplicates(),
{
    let first = match primary {
        Some(p) => seq![p],
        None => Seq::<Seq<char>>::empty(),
    };
    let second = match secondary {
        Some(s) => with_unique(first, s),
        None => first,
    };
    assert(first.no_duplicates());
    if secondary is Some && !first.contains(secondary->0) {
        assert(second.no_duplicates()) by {
            assert forall|i: int, j: int|
                0 <= i < second.len() && 0 <= j < second.len() && i != j implies second[i]
                != second[j] by {
                if i < first.len() && j < first.len() {
                } else if i == first.len() {
                    assert(first[j] != secondary->0);
                } else {
                    assert(first[i] != secondary->0);
                }
            }
        }
    }
    lemma_unique_chain_has_no_duplicates(second, fallbacks);
}

/// A font name as compared: its ASCII letters and digits, lowercased.
pub open spec fn normalized_font_name(name: Seq<char>) -> Seq<char>
    decreases name.len(),
{
    if name.len() == 0 {
        Seq::empty()
    } else {
        let before = normalized_font_name(name.drop_last());
        let c = name.last();
        if 'a' <= c && c <= 'z' || '0' <= c && c <= '9' {
            before.push(c)
        } else if 'A' <= c && c <= 'Z' {
            before.push(((c as int) + 32) as char)
        } else {
            before
        }
    }
}

/// The ASCII letters and digits of `name`, lowercased.
pub fn normalize_font_name(name: &str) -> (r: Vec<char>)
    ensures
        r@ == normalized_font_name(name@),
{
    let chars = str_chars(name);
    let mut r: Vec<char> = Vec::new();
    let mut i: usize = 0;
    while i < chars.len()
        invariant
            i <= chars@.len(),
            chars@ == name@,
            r@ == normalized_font_name(chars@.take(i as int)),
        decreases chars@.len() - i,
    {
        assert(chars@.take(i + 1).drop_last() =~= chars@.take(i as int));
        let c = chars[i];
        if 'a' <= c && c <= 'z' || '0' <= c && c <= '9' {
            r.push(c);
        } else if 'A' <= c && c <= 'Z' {
            let lower = ((c as u32) + 32) as u8 as char;
            assert(lower == ((c as int) + 32) as char);
            r.push(lower);
        }
        i += 1;
    }
    assert(chars@.take(chars@.len() as int) =~= chars@);
    r
}

/// A registry value name without its `(TrueType)`-style suffix: what
/// precedes the first `(`, trimmed.
pub open spec fn registry_font_base_name(value_name: Seq<char>) -> Seq<char> {
    trim(value_name.subrange(0, first_in(value_name, CharClass::Is('('))))
}

/// A registry value name without its suffix.
pub fn strip_registry_font_suffix(value_name: &str) -> (r: String)
    ensures
        r@ == registry_font_base_name(value_name@),
{
    let chars = str_chars(value_name);
    let n = chars.len();
    assert(chars@.subrange(0, n as int) =~= chars@);
    let open = crate::text::find_first(&chars, 0, n, CharClass::Is('('));
    let (a, b) = trim_bounds(&chars, 0, open);
    crate::text::string_from_chars(&chars, a, b)
}

/// Whether `needle` occurs in `hay`.
pub open spec fn occurs_in(hay: Seq<char>, needle: Seq<char>) -> bool {
    exists|i: int| 0 <= i <= hay.len() - needle.len() && #[trigger] hay.subrange(i, i + needle.len()) == needle
}

/// How well a registry font name fits a family, lower being better: 0 for
/// the same normalized name, 1 plus the extra length when the name starts
/// with the family, 100 plus the extra length when it holds the family
/// elsewhere, nothing otherwise.
pub open spec fn registry_score(value_name: Seq<char>, family: Seq<char>) -> Option<int> {
    let name = normalized_font_name(registry_font_base_name(value_name));
    let fam = normalized_font_name(family);
    let extra = if name.len() >= fam.len() {
        name.len() - fam.len()
    } else {
        0
    };
    if name == fam {
        Some(0)
    } else if fam.len() <= name.len() && name.subrange(0, fam.len() as int) == fam {
        Some(1 + extra)
    } else if occurs_in(name, fam) {
        Some(100 + extra)
    } else {
        None
    }
}

/// How well a registry font name fits a family, as `registry_score` rates it.
pub fn registry_font_name_score(value_name: &str, family: &str) -> (r: Option<usize>)
    requires
        value_name@.len() <= usize::MAX - 100,
    ensures
        match r {
            Some(s) => registry_score(value_name@, family@) == Some(s as int),
            None => registry_score(value_name@, family@) is None,
        },
{
    let base = strip_registry_font_suffix(value_name);
    let name = normalize_font_name(base.as_str());
    proof {
        lemma_registry_base_len(value_name@);
        lemma_normalized_len(base@);
    }
    let fam = normalize_font_name(family);
    let extra = if name.len() >= fam.len() {
        name.len() - fam.len()
    } else {
        0
    };
    if seq_equal(&name, &fam) {
        return Some(0);
    }
    let n = name.len();
    assert(name@.subrange(0, n as int) =~= name@);
    if crate::text::starts_with_at(&name, 0, n, &fam) {
        return Some(1 + extra);
    }
    if occurs(&name, &fam) {
        return Some(100 + extra);
    }
    None
}

pub proof fn lemma_normalized_len(name: Seq<char>)
    ensures
        normalized_font_name(name).len() <= name.len(),
    decreases name.len(),
{
    if name.len() > 0 {
        lemma_normalized_len(name.drop_last());
    }
}

pub proof fn lemma_registry_base_len(value_name: Seq<char>)
    ensures
        registry_font_base_name(value_name).len() <= value_name.len(),
{
    crate::text::lemma_first_in_bounds(value_name, CharClass::Is('('));
    crate::text::lemma_trim_len(value_name.subrange(0, first_in(value_name, CharClass::Is('('))));
}

fn seq_equal(a: &Vec<char>, b: &Vec<char>) -> (r: bool)
    ensures
        r == (a@ == b@),
{
    if a.len() != b.len() {
        return false;
    }
    let mut i: usize = 0;
    while i < a.len()
        invariant
            i <= a@.len(),
            a@.len() == b@.len(),
            forall|q: int| 0 <= q < i ==> a@[q] == b@[q],
        decreases a@.len() - i,
    {
        if a[i] != b[i] {
            return false;
        }
        i += 1;
    }
    assert(a@ =~= b@);
    true
}

/// Whether `needle` occurs in `hay`.
fn occurs(hay: &Vec<char>, needle: &Vec<char>) -> (r: bool)
    ensures
        r == occurs_in(hay@, needle@),
{
    let n = hay.len();
    let m = needle.len();
    if m > n {
        assert(!occurs_in(hay@, needle@));
        return false;
    }
    let last = n - m;
    let mut i: usize = 0;
    while i < last
        invariant
            m <= n,
            n == hay@.len(),
            m == needle@.len(),
            last == n - m,
            i <= last,
            forall|q: int| 0 <= q < i ==> #[trigger] hay@.subrange(q, q + m) != needle@,
        decreases last - i,
    {
        if matches_at(hay, i, needle) {
            return true;
        }
        i += 1;
    }
    matches_at(hay, last, needle)
}

/// Whether `needle` stands in `hay` at `i`.
fn matches_at(hay: &Vec<char>, i: usize, needle: &Vec<char>) -> (r: bool)
    requires
        i + needle@.len() <= hay@.len(),
    ensures
        r == (hay@.subrange(i as int, i + needle@.len()) == needle@),
{
    let n = hay.len();
    let m = needle.len();
    assert(hay@.subrange(i as int, n as int).subrange(0, m as int) =~= hay@.subrange(
        i as int,
        i + m,
    ));
    crate::text::starts_with_at(hay, i, n, needle)
}

} // verus!
