//! Priorities, tags, token extractors, word replacement, recurrences and dates.
use vstd::prelude::*;
use crate::date::{Date, date_of_num, days_in_month, month_len, weekday_of_num, MAX_YEAR};
use crate::text::{
    char_string, decimal_string, lower_of, lowercase, decimal_text, digit_char, find_char, first_index, has_prefix, join, join_words,
    parse_unsigned, pieces, split_text, split_words, unsigned_within, views, words,
};

verus! {

/// Empty priority: the task has no priority.
pub const NO_PRIORITY: u8 = 26;

pub const DUE_TAG: &'static str = "due";

pub const THR_TAG: &'static str = "t";

pub const REC_TAG: &'static str = "rec";

pub const DUE_TAG_FULL: &'static str = "due:";

pub const THR_TAG_FULL: &'static str = "t:";

pub const REC_TAG_FULL: &'static str = "rec:";

/// The unit of a recurrence.
#[derive(PartialEq, Eq, Debug, Copy, Clone, Structural)]
pub enum Period {
    Day,
    Week,
    Month,
    Year,
    /// Monday through Friday only.
    BusinessDay,
}

/// A repeat interval: `count` periods; a strict one counts from the previous
/// date, a lax one from today.
#[derive(PartialEq, Eq, Debug, Copy, Clone, Structural)]
pub struct Recurrence {
    pub period: Period,
    pub count: u8,
    pub strict: bool,
}

// ---------------------------------------------------------------- priorities

pub open spec fn is_upper(c: char) -> bool {
    'A' <= c && c <= 'Z'
}

/// The priority written as `(A)` through `(Z)`.
pub open spec fn priority_value(s: Seq<char>) -> Option<int> {
    if s.len() == 3 && s[0] == '(' && s[2] == ')' && is_upper(s[1]) {
        Some(s[1] as int - 'A' as int)
    } else {
        None
    }
}

/// The priority letter of `p`, a space for no priority.
pub open spec fn priority_letter(p: int) -> char {
    if 0 <= p < NO_PRIORITY {
        (p + 'A' as int) as char
    } else {
        ' '
    }
}

/// Reads a priority: a capital Latin letter in parentheses.
pub fn parse_priority(s: &str) -> (r: Result<u8, String>)
    ensures
        r matches Ok(p) ==> priority_value(s@) == Some(p as int),
        r is Err <==> priority_value(s@) is None,
{
    if s.unicode_len() == 3 {
        let a = s.get_char(0);
        let b = s.get_char(1);
        let c = s.get_char(2);
        if a == '(' && c == ')' && 'A' <= b && b <= 'Z' {
            return Ok((b as u32 - 'A' as u32) as u8);
        }
    }
    Err(String::from_str("invalid priority '").concat(s).concat("'"))
}

/// The priority of a one-letter text: 0 for `A` through 25 for `Z`;
/// [`NO_PRIORITY`] for anything else.
pub fn str_to_priority(s: &str) -> (r: u8)
    ensures
        r == (if s@.len() == 1 && is_upper(s@[0]) {
            s@[0] as int - 'A' as int
        } else {
            NO_PRIORITY as int
        }),
{
    if s.unicode_len() != 1 {
        return NO_PRIORITY;
    }
    char_to_priority(s.get_char(0))
}

/// 0 for `A` through 25 for `Z`; [`NO_PRIORITY`] for any other character.
pub fn char_to_priority(c: char) -> (r: u8)
    ensures
        r == (if is_upper(c) {
            c as int - 'A' as int
        } else {
            NO_PRIORITY as int
        }),
{
    if 'A' <= c && c <= 'Z' {
        (c as u32 - 'A' as u32) as u8
    } else {
        NO_PRIORITY
    }
}

/// The letter of a priority; a space for [`NO_PRIORITY`] and above.
pub fn priority_to_char(priority: u8) -> (r: char)
    ensures
        r == priority_letter(priority as int),
{
    if priority >= NO_PRIORITY {
        ' '
    } else {
        (priority + 65) as char
    }
}

/// The text form of a priority as it appears in the list.
pub open spec fn priority_text(p: int) -> Seq<char> {
    if 0 <= p < NO_PRIORITY {
        seq!['(', priority_letter(p), ')']
    } else {
        Seq::empty()
    }
}

/// `(A)` through `(Z)`; the empty text for no priority.
pub fn format_priority(priority: u8) -> (r: String)
    ensures
        r@ == priority_text(priority as int),
{
    if priority >= NO_PRIORITY {
        String::new()
    } else {
        let letter = char_string(priority_to_char(priority));
        proof {
            reveal_strlit("(");
            reveal_strlit(")");
        }
        let r = String::from_str("(").concat(letter.as_str()).concat(")");
        assert(r@ =~= priority_text(priority as int));
        r
    }
}

// ---------------------------------------------------------------------- tags

pub open spec fn is_alnum(c: char) -> bool {
    ('a' <= c && c <= 'z') || ('A' <= c && c <= 'Z') || ('0' <= c && c <= '9')
}

/// A text split at its first colon into a name and a value, both not
/// empty.
pub open spec fn split_parts(s: Seq<char>) -> Option<(Seq<char>, Seq<char>)> {
    if let Some(p) = first_index(s, ':') {
        if p > 0 && p < s.len() - 1 {
            Some((s.subrange(0, p), s.subrange(p + 1, s.len() as int)))
        } else {
            None
        }
    } else {
        None
    }
}

/// A tag `name:value`: split at the first colon (see [`split_parts`]),
/// with a name of ASCII letters and digits only.
pub open spec fn tag_parts(s: Seq<char>) -> Option<(Seq<char>, Seq<char>)> {
    match split_parts(s) {
        Some(p) => if alnum_name(p.0) {
            Some(p)
        } else {
            None
        },
        None => None,
    }
}

/// Every character of `n` is an ASCII letter or digit.
pub open spec fn alnum_name(n: Seq<char>) -> bool {
    forall|j: int| 0 <= j < n.len() ==> is_alnum(#[trigger] n[j])
}

/// Splits a text at its first colon into a name and a value (see
/// [`split_parts`]); `None` when either would be empty.
pub fn split_tag(s: &str) -> (r: Option<(String, String)>)
    ensures
        r matches Some((n, v)) ==> split_parts(s@) == Some((n@, v@)),
        r is None ==> split_parts(s@) is None,
{
    let n = s.unicode_len();
    match find_char(s, ':') {
        None => None,
        Some(pos) => {
            if pos == 0 || pos + 1 >= n {
                return None;
            }
            Some((String::from_str(s.substring_char(0, pos)), String::from_str(s.substring_char(pos + 1, n))))
        },
    }
}

/// True when every character of `s` is an ASCII letter or digit.
fn all_alnum(s: &str) -> (r: bool)
    ensures
        r == alnum_name(s@),
{
    let n = s.unicode_len();
    let mut i: usize = 0;
    while i < n
        invariant
            n == s@.len(),
            i <= n,
            forall|j: int| 0 <= j < i ==> is_alnum(#[trigger] s@[j]),
        decreases n - i,
    {
        let c = s.get_char(i);
        if !(('a' <= c && c <= 'z') || ('A' <= c && c <= 'Z') || ('0' <= c && c <= '9')) {
            assert(!is_alnum(s@[i as int]));
            return false;
        }
        i = i + 1;
    }
    true
}

/// The tag a word holds (see [`tag_parts`]).
pub fn word_tag(s: &str) -> (r: Option<(String, String)>)
    ensures
        r matches Some((n, v)) ==> tag_parts(s@) == Some((n@, v@)),
        r is None ==> tag_parts(s@) is None,
{
    match split_tag(s) {
        None => None,
        Some((n, v)) => {
            if all_alnum(n.as_str()) {
                Some((n, v))
            } else {
                None
            }
        },
    }
}

/// The tags in order of first appearance, each with its value.
pub open spec fn tag_views(v: Seq<(String, String)>) -> Seq<(Seq<char>, Seq<char>)> {
    v.map_values(|p: (String, String)| (p.0@, p.1@))
}

/// No name appears twice.
pub open spec fn unique_names(t: Seq<(Seq<char>, Seq<char>)>) -> bool {
    forall|i: int, j: int| 0 <= i < j < t.len() ==> #[trigger] t[i].0 != #[trigger] t[j].0
}

/// The value of tag `name`.
pub open spec fn tag_lookup(t: Seq<(Seq<char>, Seq<char>)>, name: Seq<char>) -> Option<Seq<char>>
    decreases t.len(),
{
    if t.len() == 0 {
        None
    } else if t.last().0 == name {
        Some(t.last().1)
    } else {
        tag_lookup(t.drop_last(), name)
    }
}

/// Sets tag `name` to `value`: in place where it is, else at the end.
pub open spec fn tag_upsert(t: Seq<(Seq<char>, Seq<char>)>, name: Seq<char>, value: Seq<char>) -> Seq<
    (Seq<char>, Seq<char>),
> {
    if exists|i: int| 0 <= i < t.len() && t[i].0 == name {
        let i = choose|i: int| 0 <= i < t.len() && t[i].0 == name;
        t.update(i, (name, value))
    } else {
        t.push((name, value))
    }
}

/// The tags of a list of words, last value winning.
pub open spec fn tags_of_words(ws: Seq<Seq<char>>) -> Seq<(Seq<char>, Seq<char>)>
    decreases ws.len(),
{
    if ws.len() == 0 {
        Seq::empty()
    } else {
        let prev = tags_of_words(ws.drop_last());
        match tag_parts(ws.last()) {
            Some((n, v)) => tag_upsert(prev, n, v),
            None => prev,
        }
    }
}

pub proof fn lemma_lookup_absent(t: Seq<(Seq<char>, Seq<char>)>, name: Seq<char>)
    requires
        forall|i: int| 0 <= i < t.len() ==> t[i].0 != name,
    ensures
        tag_lookup(t, name) is None,
    decreases t.len(),
{
    if t.len() > 0 {
        assert(t.last().0 != name);
        lemma_lookup_absent(t.drop_last(), name);
    }
}

pub proof fn lemma_lookup_at(t: Seq<(Seq<char>, Seq<char>)>, name: Seq<char>, i: int)
    requires
        unique_names(t),
        0 <= i < t.len(),
        t[i].0 == name,
    ensures
        tag_lookup(t, name) == Some(t[i].1),
    decreases t.len(),
{
    if i < t.len() - 1 {
        assert(t[t.len() - 1].0 != t[i].0);
        assert(unique_names(t.drop_last())) by {
            assert forall|a: int, b: int| 0 <= a < b < t.drop_last().len() implies
                #[trigger] t.drop_last()[a].0 != #[trigger] t.drop_last()[b].0 by {
                assert(t[a].0 != t[b].0);
            }
        }
        lemma_lookup_at(t.drop_last(), name, i);
    }
}

/// The index of tag `name` in `tags`.
pub fn tag_index(tags: &Vec<(String, String)>, name: &str) -> (r: Option<usize>)
    ensures
        r matches Some(i) ==> i < tags@.len() && tags@[i as int].0@ == name@,
        r is None ==> forall|i: int| 0 <= i < tags@.len() ==> tags@[i].0@ != name@,
{
    let mut i: usize = 0;
    while i < tags.len()
        invariant
            i <= tags@.len(),
            forall|j: int| 0 <= j < i ==> tags@[j].0@ != name@,
        decreases tags@.len() - i,
    {
        if crate::text::same_text(tags[i].0.as_str(), name) {
            return Some(i);
        }
        i = i + 1;
    }
    None
}

pub proof fn lemma_upsert_unique(t: Seq<(Seq<char>, Seq<char>)>, name: Seq<char>, value: Seq<char>)
    requires
        unique_names(t),
    ensures
        unique_names(tag_upsert(t, name, value)),
        exists|i: int| 0 <= i < tag_upsert(t, name, value).len() && tag_upsert(t, name, value)[i] == (name, value),
{
    if exists|i: int| 0 <= i < t.len() && t[i].0 == name {
        let i = choose|i: int| 0 <= i < t.len() && t[i].0 == name;
        assert(tag_upsert(t, name, value)[i] == (name, value));
    } else {
        assert(tag_upsert(t, name, value)[t.len() as int] == (name, value));
    }
}

/// Sets tag `name` to `value` in `tags`, in place where it is, else at the end.
pub fn tag_set(tags: &mut Vec<(String, String)>, name: String, value: String)
    requires
        unique_names(tag_views(old(tags)@)),
    ensures
        tag_views(final(tags)@) == tag_upsert(tag_views(old(tags)@), name@, value@),
        unique_names(tag_views(final(tags)@)),
{
    let ghost t = tag_views(tags@);
    proof {
        lemma_upsert_unique(t, name@, value@);
    }
    match tag_index(tags, name.as_str()) {
        Some(i) => {
            assert(t[i as int].0 == name@);
            let ghost found = choose|k: int| 0 <= k < t.len() && t[k].0 == name@;
            assert(found == i) by {
                if found != i {
                    assert(t[found].0 == t[i as int].0);
                }
            }
            tags.set(i, (name, value));
            assert(tag_views(tags@) =~= t.update(i as int, (name@, value@)));
        },
        None => {
            tags.push((name, value));
            assert(tag_views(tags@) =~= t.push((name@, value@)));
        },
    }
}

/// The tags of a subject: every word that is a tag (see [`tag_parts`]), the
/// last value of a name winning; names in order of first appearance.
pub fn extract_tags(s: &str) -> (r: Vec<(String, String)>)
    ensures
        tag_views(r@) == tags_of_words(words(s@)),
        unique_names(tag_views(r@)),
{
    let ws = split_words(s);
    let mut out: Vec<(String, String)> = Vec::new();
    let mut i: usize = 0;
    assert(tag_views(out@) =~= tags_of_words(views(ws@).subrange(0, 0)));
    while i < ws.len()
        invariant
            i <= ws@.len(),
            views(ws@) == words(s@),
            tag_views(out@) == tags_of_words(views(ws@).subrange(0, i as int)),
            unique_names(tag_views(out@)),
        decreases ws@.len() - i,
    {
        assert(views(ws@).subrange(0, i + 1).drop_last() =~= views(ws@).subrange(0, i as int));
        assert(views(ws@).subrange(0, i + 1).last() == ws@[i as int]@);
        match word_tag(ws[i].as_str()) {
            Some((n, v)) => {
                tag_set(&mut out, n, v);
            },
            None => {},
        }
        i = i + 1;
    }
    assert(views(ws@).subrange(0, ws@.len() as int) =~= views(ws@));
    out
}

// ------------------------------------------------------- projects, contexts

/// The items of the words that start with `sigil` and hold more than it,
/// without the sigil, each once, in order of first appearance.
pub open spec fn sigil_items(ws: Seq<Seq<char>>, sigil: char) -> Seq<Seq<char>>
    decreases ws.len(),
{
    if ws.len() == 0 {
        Seq::empty()
    } else {
        let prev = sigil_items(ws.drop_last(), sigil);
        let w = ws.last();
        if w.len() > 1 && w[0] == sigil && !prev.contains(w.drop_first()) {
            prev.push(w.drop_first())
        } else {
            prev
        }
    }
}

/// The items of the words of `s` that start with `sigil` (see [`sigil_items`]).
pub fn extract_sigil_items(s: &str, sigil: char) -> (r: Vec<String>)
    ensures
        views(r@) == sigil_items(words(s@), sigil),
{
    let ws = split_words(s);
    let mut out: Vec<String> = Vec::new();
    let mut i: usize = 0;
    assert(views(out@) =~= sigil_items(views(ws@).subrange(0, 0), sigil));
    while i < ws.len()
        invariant
            i <= ws@.len(),
            views(ws@) == words(s@),
            views(out@) == sigil_items(views(ws@).subrange(0, i as int), sigil),
        decreases ws@.len() - i,
    {
        assert(views(ws@).subrange(0, i + 1).drop_last() =~= views(ws@).subrange(0, i as int));
        assert(views(ws@).subrange(0, i + 1).last() == ws@[i as int]@);
        let w = ws[i].as_str();
        let n = w.unicode_len();
        if n > 1 && w.get_char(0) == sigil {
            let item = w.substring_char(1, n);
            assert(item@ =~= w@.drop_first());
            if !contains_string(&out, item) {
                let ghost old_out = out@;
                out.push(String::from_str(item));
                assert(views(out@) =~= views(old_out).push(item@));
            }
        }
        i = i + 1;
    }
    assert(views(ws@).subrange(0, ws@.len() as int) =~= views(ws@));
    out
}

/// `v` holds a string equal to `s`.
pub fn contains_string(v: &Vec<String>, s: &str) -> (r: bool)
    ensures
        r == views(v@).contains(s@),
{
    let mut i: usize = 0;
    while i < v.len()
        invariant
            i <= v@.len(),
            forall|j: int| 0 <= j < i ==> v@[j]@ != s@,
        decreases v@.len() - i,
    {
        if crate::text::same_text(v[i].as_str(), s) {
            assert(views(v@)[i as int] == s@);
            return true;
        }
        i = i + 1;
    }
    assert forall|j: int| 0 <= j < views(v@).len() implies views(v@)[j] != s@ by {
        assert(views(v@)[j] == v@[j]@);
    }
    false
}

/// The projects of a subject: words `+X` with `X` not empty, each once.
pub fn extract_projects(s: &str) -> (r: Vec<String>)
    ensures
        views(r@) == sigil_items(words(s@), '+'),
{
    extract_sigil_items(s, '+')
}

/// The contexts of a subject: words `@X` with `X` not empty, each once.
pub fn extract_contexts(s: &str) -> (r: Vec<String>)
    ensures
        views(r@) == sigil_items(words(s@), '@'),
{
    extract_sigil_items(s, '@')
}

/// The hashtags of a subject: words `#X` with `X` not empty, each once.
pub fn extract_hashtags(s: &str) -> (r: Vec<String>)
    ensures
        views(r@) == sigil_items(words(s@), '#'),
{
    extract_sigil_items(s, '#')
}

// ---------------------------------------------------------- replacing words

/// Each word equal to `old` replaced with `new`; with an empty `new`, each
/// such word dropped.
pub open spec fn swap_words(ws: Seq<Seq<char>>, old: Seq<char>, new: Seq<char>) -> Seq<Seq<char>>
    decreases ws.len(),
{
    if ws.len() == 0 {
        Seq::empty()
    } else {
        let prev = swap_words(ws.drop_last(), old, new);
        if ws.last() != old {
            prev.push(ws.last())
        } else if new.len() == 0 {
            prev
        } else {
            prev.push(new)
        }
    }
}

/// `s` with every word equal to `old` replaced by `new`, or removed when
/// `new` is empty; unchanged when `old` and `new` are the same.
pub open spec fn replaced_words(s: Seq<char>, old: Seq<char>, new: Seq<char>) -> Seq<char> {
    if old == new {
        s
    } else {
        join(swap_words(words(s), old, new))
    }
}

/// Replaces each word `old` of `s` with `new`; removes it (with one space)
/// when `new` is empty. A word is a run of characters between single spaces.
pub fn replace_word(s: &mut String, from: &str, to: &str)
    ensures
        final(s)@ == replaced_words(old(s)@, from@, to@),
{
    if crate::text::same_text(from, to) {
        return;
    }
    let ws = split_words(s.as_str());
    let mut out: Vec<String> = Vec::new();
    let n = to.unicode_len();
    let mut i: usize = 0;
    assert(views(out@) =~= swap_words(views(ws@).subrange(0, 0), from@, to@));
    while i < ws.len()
        invariant
            i <= ws@.len(),
            n == to@.len(),
            views(out@) == swap_words(views(ws@).subrange(0, i as int), from@, to@),
        decreases ws@.len() - i,
    {
        assert(views(ws@).subrange(0, i + 1).drop_last() =~= views(ws@).subrange(0, i as int));
        assert(views(ws@).subrange(0, i + 1).last() == ws@[i as int]@);
        let ghost old_out = out@;
        if !crate::text::same_text(ws[i].as_str(), from) {
            out.push(ws[i].clone());
            assert(views(out@) =~= views(old_out).push(ws@[i as int]@));
        } else if n > 0 {
            out.push(String::from_str(to));
            assert(views(out@) =~= views(old_out).push(to@));
        }
        i = i + 1;
    }
    assert(views(ws@).subrange(0, ws@.len() as int) =~= views(ws@));
    *s = join_words(&out);
}

// ---------------------------------------------- replacing words, any case

/// Each word whose lowercase form is that of `old` replaced with `new`;
/// with an empty `new`, each such word dropped.
pub open spec fn swap_words_folded(ws: Seq<Seq<char>>, old: Seq<char>, new: Seq<char>) -> Seq<Seq<char>>
    decreases ws.len(),
{
    if ws.len() == 0 {
        Seq::empty()
    } else {
        let prev = swap_words_folded(ws.drop_last(), old, new);
        if lower_of(ws.last()) != lower_of(old) {
            prev.push(ws.last())
        } else if new.len() == 0 {
            prev
        } else {
            prev.push(new)
        }
    }
}

/// `s` with every word that matches `old` in any case replaced by `new`,
/// or removed when `new` is empty.
pub open spec fn replaced_words_folded(s: Seq<char>, old: Seq<char>, new: Seq<char>) -> Seq<char> {
    join(swap_words_folded(words(s), old, new))
}

/// Replaces each word of `s` that matches `from` in any case with `to`;
/// removes it (with one space) when `to` is empty.
pub fn replace_word_folded(s: &mut String, from: &str, to: &str)
    ensures
        final(s)@ == replaced_words_folded(old(s)@, from@, to@),
{
    let ws = split_words(s.as_str());
    let low = lowercase(from);
    let mut out: Vec<String> = Vec::new();
    let n = to.unicode_len();
    let mut i: usize = 0;
    assert(views(out@) =~= swap_words_folded(views(ws@).subrange(0, 0), from@, to@));
    while i < ws.len()
        invariant
            i <= ws@.len(),
            n == to@.len(),
            low@ == lower_of(from@),
            views(out@) == swap_words_folded(views(ws@).subrange(0, i as int), from@, to@),
        decreases ws@.len() - i,
    {
        assert(views(ws@).subrange(0, i + 1).drop_last() =~= views(ws@).subrange(0, i as int));
        assert(views(ws@).subrange(0, i + 1).last() == ws@[i as int]@);
        let ghost old_out = out@;
        let w_low = lowercase(ws[i].as_str());
        if !crate::text::same_text(w_low.as_str(), low.as_str()) {
            out.push(ws[i].clone());
            assert(views(out@) =~= views(old_out).push(ws@[i as int]@));
        } else if n > 0 {
            out.push(String::from_str(to));
            assert(views(out@) =~= views(old_out).push(to@));
        }
        i = i + 1;
    }
    assert(views(ws@).subrange(0, ws@.len() as int) =~= views(ws@));
    *s = join_words(&out);
}

// --------------------------------------------------------------- recurrence

/// The period that a unit letter names.
pub open spec fn period_of(c: char) -> Option<Period> {
    if c == 'd' {
        Some(Period::Day)
    } else if c == 'w' {
        Some(Period::Week)
    } else if c == 'm' {
        Some(Period::Month)
    } else if c == 'y' {
        Some(Period::Year)
    } else if c == 'b' {
        Some(Period::BusinessDay)
    } else {
        None
    }
}

pub open spec fn unit_char(p: Period) -> char {
    match p {
        Period::Day => 'd',
        Period::Week => 'w',
        Period::Month => 'm',
        Period::Year => 'y',
        Period::BusinessDay => 'b',
    }
}

pub open spec fn rec_prefix() -> Seq<char> {
    seq!['r', 'e', 'c', ':']
}

/// A recurrence written `[rec:][+]N<unit>`: `N` from 1 to 255, the unit one
/// of `d`, `w`, `m`, `y`, `b`; a leading `+` makes it strict.
pub open spec fn recurrence_value(s: Seq<char>) -> Option<Recurrence> {
    let t = if s.len() >= 4 && s.subrange(0, 4) == rec_prefix() {
        s.subrange(4, s.len() as int)
    } else {
        s
    };
    if t.len() == 0 {
        None
    } else {
        match period_of(t.last()) {
            None => None,
            Some(p) => match unsigned_within(t.drop_last(), 255) {
                Some(n) => if n >= 1 {
                    Some(Recurrence { period: p, count: n as u8, strict: t[0] == '+' })
                } else {
                    None
                },
                None => None,
            },
        }
    }
}

/// The text form of a recurrence tag: `rec:`, a `+` when strict, the count
/// and the unit letter.
pub open spec fn recurrence_text(r: Recurrence) -> Seq<char> {
    rec_prefix() + (if r.strict {
        seq!['+']
    } else {
        Seq::empty()
    }) + decimal_text(r.count as nat) + seq![unit_char(r.period)]
}

/// The date `months` months after `base`: the day is kept, or clamped to
/// the last day of the target month; the last day of a month stays the last
/// day. `None` outside years 1..=9999.
pub open spec fn month_shift(base: Date, months: int) -> Option<Date> {
    let m0 = base.month - 1 + months;
    let y = base.year + m0 / 12;
    let m = m0 % 12 + 1;
    let last = base.day == month_len(base.year as int, base.month as int);
    let mx = month_len(y, m);
    let d = if (last && mx != base.day) || mx < base.day {
        mx
    } else {
        base.day as int
    };
    if 1 <= y <= MAX_YEAR {
        Some(Date { year: y as i32, month: m as u32, day: d as u32 })
    } else {
        None
    }
}

/// The workday after day number `x`: Saturday and Sunday are skipped.
pub open spec fn next_workday(x: int) -> int {
    if weekday_of_num(x + 1) == 5 {
        x + 3
    } else if weekday_of_num(x + 1) == 6 {
        x + 2
    } else {
        x + 1
    }
}

/// The day number `k` workdays after day number `x`.
pub open spec fn workdays_after(x: int, k: nat) -> int
    decreases k,
{
    if k == 0 {
        x
    } else {
        next_workday(workdays_after(x, (k - 1) as nat))
    }
}

/// The date one recurrence step after `base`; `None` past year 9999.
pub open spec fn next_date_spec(r: Recurrence, base: Date) -> Option<Date> {
    match r.period {
        Period::Day => date_of_num(base.num() + r.count),
        Period::Week => date_of_num(base.num() + 7 * r.count),
        Period::Month => month_shift(base, r.count as int),
        Period::Year => month_shift(base, 12 * r.count),
        Period::BusinessDay => date_of_num(workdays_after(base.num(), r.count as nat)),
    }
}

pub proof fn lemma_workdays_grow(x: int, k: nat)
    ensures
        x + k <= workdays_after(x, k) <= x + 3 * k,
    decreases k,
{
    if k > 0 {
        lemma_workdays_grow(x, (k - 1) as nat);
    }
}

/// One recurrence step of at least one unit gives a valid, later date.
pub proof fn lemma_next_date_later(r: Recurrence, base: Date)
    requires
        base.wf(),
        r.count >= 1,
    ensures
        next_date_spec(r, base) matches Some(d) ==> d.wf() && d.num() > base.num(),
{
    match r.period {
        Period::Month | Period::Year => {
            if let Some(d) = next_date_spec(r, base) {
                assert(d.wf());
                assert(base.lex_before(d));
                crate::date::lemma_order(base, d);
            }
        },
        Period::BusinessDay => {
            lemma_workdays_grow(base.num(), r.count as nat);
        },
        _ => {},
    }
}

/// A monthly or yearly step from the last day of a month lands on the last
/// day of the target month (so 2020-02-29 and one month give 2020-03-31).
pub proof fn law_month_end_kept(r: Recurrence, base: Date)
    requires
        base.wf(),
        r.period == Period::Month || r.period == Period::Year,
        base.day == month_len(base.year as int, base.month as int),
    ensures
        next_date_spec(r, base) matches Some(d) ==> d.day == month_len(d.year as int, d.month as int),
{
}

/// A monthly or yearly step keeps the day of the month, or, when the target
/// month is shorter, lands on its last day (so 2020-01-31 and one month give
/// 2020-02-29).
pub proof fn law_month_day_clamped(r: Recurrence, base: Date)
    requires
        base.wf(),
        r.period == Period::Month || r.period == Period::Year,
    ensures
        next_date_spec(r, base) matches Some(d) ==> d.wf() && (d.day == base.day || (d.day == month_len(
            d.year as int,
            d.month as int,
        ) && (base.day > d.day || base.day == month_len(base.year as int, base.month as int)))),
{
}

impl Default for Recurrence {
    fn default() -> (r: Recurrence)
        ensures
            r == (Recurrence { period: Period::Day, count: 0, strict: false }),
    {
        Recurrence { period: Period::Day, count: 0, strict: false }
    }
}

impl Recurrence {
    /// Reads a recurrence (see [`recurrence_value`]).
    pub fn parse(s: &str) -> (r: Result<Recurrence, String>)
        ensures
            r matches Ok(x) ==> recurrence_value(s@) == Some(x),
            r is Err <==> recurrence_value(s@) is None,
    {
        let len = s.unicode_len();
        proof {
            reveal_strlit("rec:");
        }
        let t = if has_prefix(s, "rec:") {
            assert("rec:"@ =~= rec_prefix());
            s.substring_char(4, len)
        } else {
            assert(!(s@.len() >= 4 && s@.subrange(0, 4) == rec_prefix())) by {
                if s@.len() >= 4 && s@.subrange(0, 4) == rec_prefix() {
                    assert("rec:"@ =~= rec_prefix());
                }
            }
            s
        };
        let n = t.unicode_len();
        if n == 0 {
            return Err(String::from_str("invalid recurrence '").concat(s).concat("'"));
        }
        let u = t.get_char(n - 1);
        let period = if u == 'd' {
            Period::Day
        } else if u == 'w' {
            Period::Week
        } else if u == 'm' {
            Period::Month
        } else if u == 'y' {
            Period::Year
        } else if u == 'b' {
            Period::BusinessDay
        } else {
            return Err(String::from_str("invalid recurrence '").concat(s).concat("'"));
        };
        let strict = t.get_char(0) == '+';
        let head = t.substring_char(0, n - 1);
        assert(head@ =~= t@.drop_last());
        match parse_unsigned(head, 255) {
            Some(c) => {
                if c == 0 {
                    return Err(String::from_str("invalid recurrence '").concat(s).concat("'"));
                }
                Ok(Recurrence { period, count: c as u8, strict })
            },
            None => Err(String::from_str("invalid recurrence '").concat(s).concat("'")),
        }
    }

    /// The tag form: `rec:`, a `+` when strict, the count and the unit.
    pub fn to_string(&self) -> (r: String)
        ensures
            r@ == recurrence_text(*self),
    {
        proof {
            reveal_strlit("rec:");
            reveal_strlit("+");
        }
        let mut out = String::from_str("rec:");
        if self.strict {
            out.append("+");
        }
        let count = decimal_string(self.count as u64);
        out.append(count.as_str());
        let unit = match self.period {
            Period::Day => 'd',
            Period::Week => 'w',
            Period::Month => 'm',
            Period::Year => 'y',
            Period::BusinessDay => 'b',
        };
        let u = char_string(unit);
        out.append(u.as_str());
        assert(out@ =~= recurrence_text(*self));
        out
    }

    /// The date one step after `base` (see [`next_date_spec`]).
    pub fn next_date(&self, base: Date) -> (r: Option<Date>)
        requires
            base.wf(),
        ensures
            r == next_date_spec(*self, base),
            r matches Some(d) ==> d.wf(),
    {
        match self.period {
            Period::Day => base.add_days(self.count as i64),
            Period::Week => base.add_days(7 * self.count as i64),
            Period::Month => shift_months(base, self.count as u32),
            Period::Year => shift_months(base, 12 * self.count as u32),
            Period::BusinessDay => {
                let start = base.day_number() as i64;
                proof {
                    crate::date::lemma_num_in_range(base);
                }
                let mut x: i64 = start;
                let mut k: u8 = 0;
                while k < self.count
                    invariant
                        base.wf(),
                        start == base.num(),
                        k <= self.count,
                        x == workdays_after(base.num(), k as nat),
                        1 <= start <= i32::MAX,
                        start + k <= x <= start + 3 * k,
                    decreases self.count - k,
                {
                    proof {
                        lemma_workdays_grow(base.num(), (k + 1) as nat);
                    }
                    let wd = x % 7;
                    assert(wd == weekday_of_num(x + 1));
                    if wd == 5 {
                        x = x + 3;
                    } else if wd == 6 {
                        x = x + 2;
                    } else {
                        x = x + 1;
                    }
                    k = k + 1;
                }
                base.add_days(x - start)
            },
        }
    }
}

/// The date `months` months after `base` (see [`month_shift`]).
fn shift_months(base: Date, months: u32) -> (r: Option<Date>)
    requires
        base.wf(),
        months <= 3060,
    ensures
        r == month_shift(base, months as int),
        r matches Some(d) ==> d.wf(),
{
    let m0: u32 = base.month - 1 + months;
    let y: i32 = base.year + (m0 / 12) as i32;
    let m: u32 = m0 % 12 + 1;
    if y > MAX_YEAR {
        return None;
    }
    let last = base.day == days_in_month(base.year, base.month);
    let mx = days_in_month(y, m);
    let d = if (last && mx != base.day) || mx < base.day {
        mx
    } else {
        base.day
    };
    Some(Date { year: y, month: m, day: d })
}

// -------------------------------------------------------------------- dates

pub open spec fn two_digits(n: int) -> Seq<char> {
    seq![digit_char(n / 10), digit_char(n % 10)]
}

/// A date as `YYYY-MM-DD`.
pub open spec fn date_text(d: Date) -> Seq<char> {
    let y = d.year as int;
    seq![digit_char(y / 1000), digit_char((y / 100) % 10), digit_char((y / 10) % 10), digit_char(y % 10)]
        + seq!['-'] + two_digits(d.month as int) + seq!['-'] + two_digits(d.day as int)
}

/// Relies on chrono's `NaiveDate::format` with `%Y-%m-%d`: the year with
/// four digits (years 1 through 9999), then the month and the day with two
/// digits each.
#[verifier::external_body]
pub fn format_date(date: Date) -> (r: String)
    requires
        date.wf(),
    ensures
        r@ == date_text(date),
{
    chrono::NaiveDate::from_ymd_opt(date.year, date.month, date.day).map(
        |d| d.format("%Y-%m-%d").to_string(),
    ).unwrap_or_default()
}

/// The date a text names: `YYYY-MM-DD` (three unsigned numbers; a day past
/// the end of the month is the month's last day), or, for a text without a
/// `-`, a recurrence applied to `base`.
#[verifier::opaque]
pub open spec fn date_value(s: Seq<char>, base: Date) -> Option<Date> {
    if !s.contains('-') {
        match recurrence_value(s) {
            Some(r) => next_date_spec(r, base),
            None => None,
        }
    } else {
        let ps = pieces(s, '-');
        if ps.len() != 3 {
            None
        } else {
            match (
                unsigned_within(ps[0], u32::MAX as int),
                unsigned_within(ps[1], u32::MAX as int),
                unsigned_within(ps[2], u32::MAX as int),
            ) {
                (Some(y), Some(m), Some(d)) => if 1 <= y <= MAX_YEAR && 1 <= m <= 12 && 1 <= d <= 31 {
                    let mx = month_len(y, m);
                    Some(Date { year: y as i32, month: m as u32, day: (if d > mx { mx } else { d }) as u32 })
                } else {
                    None
                },
                _ => None,
            }
        }
    }
}

/// Reads a date (see [`date_value`]).
pub fn parse_date(s: &str, base: Date) -> (r: Result<Date, String>)
    requires
        base.wf(),
    ensures
        r matches Ok(d) ==> date_value(s@, base) == Some(d) && d.wf(),
        r is Err <==> date_value(s@, base) is None,
{
    reveal(date_value);
    match find_char(s, '-') {
        None => {
            assert(!s@.contains('-'));
            match Recurrence::parse(s) {
                Err(_) => Err(String::from_str("invalid date '").concat(s).concat("'")),
                Ok(rec) => match rec.next_date(base) {
                    Some(d) => Ok(d),
                    None => Err(String::from_str("invalid date '").concat(s).concat("'")),
                },
            }
        },
        Some(i) => {
            assert(s@.contains('-')) by {
                assert(s@[i as int] == '-');
            }
            let ps = split_text(s, '-');
            if ps.len() != 3 {
                return Err(String::from_str("invalid date '").concat(s).concat("'"));
            }
            assert(views(ps@)[0] == ps@[0]@ && views(ps@)[1] == ps@[1]@ && views(ps@)[2] == ps@[2]@);
            let y = parse_unsigned(ps[0].as_str(), 0xffff_ffff);
            let m = parse_unsigned(ps[1].as_str(), 0xffff_ffff);
            let d = parse_unsigned(ps[2].as_str(), 0xffff_ffff);
            match (y, m, d) {
                (Some(y), Some(m), Some(d)) => {
                    if y < 1 || y > MAX_YEAR as u64 || m < 1 || m > 12 || d < 1 || d > 31 {
                        return Err(String::from_str("invalid date '").concat(s).concat("'"));
                    }
                    let mx = days_in_month(y as i32, m as u32);
                    let day = if d as u32 > mx {
                        mx
                    } else {
                        d as u32
                    };
                    Ok(Date { year: y as i32, month: m as u32, day })
                },
                _ => Err(String::from_str("invalid date '").concat(s).concat("'")),
            }
        },
    }
}

pub proof fn lemma_digit_char(k: int)
    requires
        0 <= k < 10,
    ensures
        crate::text::is_digit(digit_char(k)),
        digit_char(k) as int - '0' as int == k,
        digit_char(k) != '-',
        digit_char(k) != '+',
{
    if k == 0 {
    } else if k == 1 {
    } else if k == 2 {
    } else if k == 3 {
    } else if k == 4 {
    } else if k == 5 {
    } else if k == 6 {
    } else if k == 7 {
    } else if k == 8 {
    } else {
    }
}

/// The digits of a number below 10000, four of them.
proof fn lemma_four_digits(y: int)
    requires
        0 <= y < 10000,
    ensures
        unsigned_within(
            seq![digit_char(y / 1000), digit_char((y / 100) % 10), digit_char((y / 10) % 10), digit_char(y % 10)],
            u32::MAX as int,
        ) == Some(y),
{
    let a = y / 1000;
    let b = (y / 100) % 10;
    let c = (y / 10) % 10;
    let e = y % 10;
    assert(0 <= a < 10 && 0 <= b < 10 && 0 <= c < 10 && 0 <= e < 10) by (nonlinear_arith)
        requires
            0 <= y < 10000,
            a == y / 1000,
            b == (y / 100) % 10,
            c == (y / 10) % 10,
            e == y % 10,
    ;
    assert(((a * 10 + b) * 10 + c) * 10 + e == y) by (nonlinear_arith)
        requires
            0 <= y < 10000,
            a == y / 1000,
            b == (y / 100) % 10,
            c == (y / 10) % 10,
            e == y % 10,
    ;
    lemma_digit_char(a);
    lemma_digit_char(b);
    lemma_digit_char(c);
    lemma_digit_char(e);
    let s = seq![digit_char(a), digit_char(b), digit_char(c), digit_char(e)];
    assert(s[0] != '+');
    assert(crate::text::all_digits(s));
    assert(s.drop_last() =~= seq![digit_char(a), digit_char(b), digit_char(c)]);
    assert(s.drop_last().drop_last() =~= seq![digit_char(a), digit_char(b)]);
    assert(s.drop_last().drop_last().drop_last() =~= seq![digit_char(a)]);
    assert(s.drop_last().drop_last().drop_last().drop_last() =~= Seq::<char>::empty());
    reveal_with_fuel(crate::text::digits_value, 5);
}

/// The digits of a number below 100, two of them.
proof fn lemma_two_digits(m: int)
    requires
        0 <= m < 100,
    ensures
        unsigned_within(two_digits(m), u32::MAX as int) == Some(m),
{
    let a = m / 10;
    let e = m % 10;
    assert(0 <= a < 10 && 0 <= e < 10 && a * 10 + e == m) by (nonlinear_arith)
        requires
            0 <= m < 100,
            a == m / 10,
            e == m % 10,
    ;
    lemma_digit_char(a);
    lemma_digit_char(e);
    let s = two_digits(m);
    assert(s[0] != '+');
    assert(crate::text::all_digits(s));
    assert(s.drop_last() =~= seq![digit_char(a)]);
    assert(s.drop_last().drop_last() =~= Seq::<char>::empty());
    reveal_with_fuel(crate::text::digits_value, 3);
}

/// A date written as `YYYY-MM-DD` reads back as the same date, whatever
/// the base of relative dates.
pub proof fn law_date_text_round_trip(d: Date, base: Date)
    requires
        d.wf(),
    ensures
        date_value(date_text(d), base) == Some(d),
{
    reveal(date_value);
    let y = d.year as int;
    let m = d.month as int;
    let dd = d.day as int;
    let ys = seq![digit_char(y / 1000), digit_char((y / 100) % 10), digit_char((y / 10) % 10), digit_char(y % 10)];
    let ms = two_digits(m);
    let ds = two_digits(dd);
    let t = date_text(d);
    assert(t =~= ys + seq!['-'] + ms + seq!['-'] + ds);
    assert(0 <= y / 1000 < 10 && 0 <= (y / 100) % 10 < 10 && 0 <= (y / 10) % 10 < 10 && 0 <= y % 10 < 10)
        by (nonlinear_arith)
        requires
            1 <= y <= 9999,
    ;
    assert(0 <= m / 10 < 10 && 0 <= m % 10 < 10) by (nonlinear_arith)
        requires
            1 <= m <= 12,
    ;
    assert(0 <= dd / 10 < 10 && 0 <= dd % 10 < 10) by (nonlinear_arith)
        requires
            1 <= dd <= 31,
    ;
    lemma_digit_char(y / 1000);
    lemma_digit_char((y / 100) % 10);
    lemma_digit_char((y / 10) % 10);
    lemma_digit_char(y % 10);
    lemma_digit_char(m / 10);
    lemma_digit_char(m % 10);
    lemma_digit_char(dd / 10);
    lemma_digit_char(dd % 10);
    assert(t[4] == '-');
    assert(t.contains('-'));
    assert(t.len() == 10);
    assert(pieces(t, '-') =~~= seq![ys, ms, ds]) by {
        reveal_with_fuel(pieces, 11);
        assert(t.subrange(0, 1) =~= t.drop_last().drop_last().drop_last().drop_last().drop_last().drop_last().drop_last().drop_last().drop_last());
        let head1 = t.subrange(0, 1);
        let head2 = t.subrange(0, 2);
        let head3 = t.subrange(0, 3);
        let head4 = t.subrange(0, 4);
        let head5 = t.subrange(0, 5);
        let head6 = t.subrange(0, 6);
        let head7 = t.subrange(0, 7);
        let head8 = t.subrange(0, 8);
        let head9 = t.subrange(0, 9);
        assert(head2.drop_last() =~= head1);
        assert(head3.drop_last() =~= head2);
        assert(head4.drop_last() =~= head3);
        assert(head5.drop_last() =~= head4);
        assert(head6.drop_last() =~= head5);
        assert(head7.drop_last() =~= head6);
        assert(head8.drop_last() =~= head7);
        assert(head9.drop_last() =~= head8);
        assert(t.drop_last() =~= head9);
        assert(head1.drop_last() =~= Seq::<char>::empty());
        assert(pieces(head1, '-') =~= seq![seq![t[0]]]);
        assert(seq![t[0]].push(t[1]) =~= seq![t[0], t[1]]);
        assert(pieces(head2, '-') =~~= seq![seq![t[0], t[1]]]);
        assert(seq![t[0], t[1]].push(t[2]) =~= seq![t[0], t[1], t[2]]);
        assert(pieces(head3, '-') =~~= seq![seq![t[0], t[1], t[2]]]);
        assert(seq![t[0], t[1], t[2]].push(t[3]) =~= ys);
        assert(pieces(head4, '-') =~~= seq![ys]);
        assert(pieces(head5, '-') =~= seq![ys, Seq::empty()]);
        assert(pieces(head6, '-') =~= seq![ys, seq![t[5]]]);
        assert(seq![t[5]].push(t[6]) =~= ms);
        assert(pieces(head7, '-') =~~= seq![ys, ms]);
        assert(pieces(head8, '-') =~= seq![ys, ms, Seq::empty()]);
        assert(pieces(head9, '-') =~= seq![ys, ms, seq![t[8]]]);
        assert(seq![t[8]].push(t[9]) =~= ds);
    }
    lemma_four_digits(y);
    lemma_two_digits(m);
    lemma_two_digits(dd);
}

/// The weekend days from day number `a` through `b`.
pub open spec fn weekend_days(a: int, b: int) -> int
    decreases b - a + 1,
{
    if b < a {
        0
    } else {
        weekend_days(a, b - 1) + (if weekday_of_num(b) >= 5 {
            1int
        } else {
            0int
        })
    }
}

/// The days to skip for weekends between `s` and `e`: the Saturdays and
/// Sundays from `s` through `e`, and one more when `e` is a Saturday, whose
/// Sunday follows it.
pub open spec fn business_gap(s: Date, e: Date) -> int {
    weekend_days(s.num(), e.num()) + (if weekday_of_num(e.num()) == 5 {
        1int
    } else {
        0int
    })
}

/// The days to skip for weekends between `s` and `e` (see [`business_gap`]).
pub fn business_days_between(s: Date, e: Date) -> (r: i64)
    requires
        s.wf(),
        e.wf(),
    ensures
        r == business_gap(s, e),
{
    let a = s.day_number() as i64;
    let b = e.day_number() as i64;
    proof {
        crate::date::lemma_num_in_range(s);
        crate::date::lemma_num_in_range(e);
    }
    let mut count: i64 = 0;
    if a <= b {
        let mut x: i64 = a;
        while x <= b
            invariant
                a <= x <= b + 1,
                1 <= a,
                b <= i32::MAX,
                0 <= count <= x - a,
                count == weekend_days(a as int, x - 1),
            decreases b + 1 - x,
        {
            if (x - 1) % 7 >= 5 {
                count = count + 1;
            }
            x = x + 1;
        }
    }
    if (b - 1) % 7 == 5 {
        count = count + 1;
    }
    count
}

} // verus!
