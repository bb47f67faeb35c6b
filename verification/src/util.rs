//! Names derived from a mod's name.
use vstd::prelude::*;
use vstd::string::StringExecFns;
use crate::text::{
    ascii_alphanumeric, ascii_digit, ascii_white_space, chars_of, is_ascii_alphanumeric,
    is_ascii_digit, is_ascii_white_space, is_white_space, join, join_chars, lower_ascii,
    lowercase_ascii, string_of, white_space, ascii_lower,
};

verus! {

/// The characters of `name` that a safe name keeps: ASCII white space is
/// dropped, ASCII letters, digits and `_` stay, anything else becomes `_`.
pub open spec fn safe_chars(name: Seq<char>) -> Seq<char>
    decreases name.len(),
{
    if name.len() == 0 {
        Seq::empty()
    } else {
        let rest = safe_chars(name.drop_last());
        let c = name.last();
        if is_ascii_white_space(c) {
            rest
        } else if is_ascii_alphanumeric(c) || c == '_' {
            rest.push(c)
        } else {
            rest.push('_')
        }
    }
}

pub open spec fn unknown_name() -> Seq<char> {
    seq!['u', 'n', 'k', 'n', 'o', 'w', 'n']
}

/// A name usable as an identifier: `unknown` when nothing is kept, and a
/// leading `_` when it would start with a digit.
pub open spec fn safe_name(name: Seq<char>) -> Seq<char> {
    let out = safe_chars(name);
    if out.len() == 0 {
        unknown_name()
    } else if is_ascii_digit(out[0]) {
        seq!['_'] + out
    } else {
        out
    }
}

/// `str::split_whitespace`: the maximal runs of characters that are not white
/// space, in order.
pub open spec fn words(s: Seq<char>) -> Seq<Seq<char>>
    decreases s.len(),
{
    if s.len() == 0 {
        Seq::empty()
    } else {
        let ws = words(s.drop_last());
        let c = s.last();
        if is_white_space(c) {
            ws
        } else if s.len() >= 2 && !is_white_space(s[s.len() - 2]) {
            ws.drop_last().push(ws.last().push(c))
        } else {
            ws.push(seq![c])
        }
    }
}

/// The words of `name` in ASCII lower case, joined with `-`.
pub open spec fn skewer_case(name: Seq<char>) -> Seq<char> {
    join(words(name).map_values(|w: Seq<char>| lower_ascii(w)), seq!['-'])
}

proof fn lemma_words_nonempty(s: Seq<char>)
    requires
        s.len() > 0,
        !is_white_space(s.last()),
    ensures
        words(s).len() > 0,
    decreases s.len(),
{
    if s.len() >= 2 && !is_white_space(s[s.len() - 2]) {
        assert(s.drop_last().last() == s[s.len() - 2]);
        lemma_words_nonempty(s.drop_last());
    }
}

/// Turns a display name into an identifier-safe one.
pub fn to_safe_name(name: &str) -> (res: String)
    ensures
        res@ == safe_name(name@),
{
    let chars = chars_of(name);
    let mut out: Vec<char> = Vec::new();
    for i in 0..chars.len()
        invariant
            chars@ == name@,
            out@ == safe_chars(chars@.take(i as int)),
    {
        let c = chars[i];
        assert(chars@.take(i + 1).drop_last() == chars@.take(i as int));
        if ascii_white_space(c) {
        } else if ascii_alphanumeric(c) || c == '_' {
            out.push(c);
        } else {
            out.push('_');
        }
    }
    assert(chars@.take(chars@.len() as int) == chars@);
    if out.len() == 0 {
        let u: Vec<char> = vec!['u', 'n', 'k', 'n', 'o', 'w', 'n'];
        assert(u@ == unknown_name());
        return string_of(&u);
    }
    if ascii_digit(out[0]) {
        let mut prefixed: Vec<char> = Vec::new();
        prefixed.push('_');
        crate::text::append_chars(&mut prefixed, &out);
        assert(prefixed@ == seq!['_'] + out@);
        string_of(&prefixed)
    } else {
        string_of(&out)
    }
}

/// The words of `s` (`str::split_whitespace`).
pub fn split_words(s: &[char]) -> (res: Vec<Vec<char>>)
    ensures
        res@.map_values(|w: Vec<char>| w@) == words(s@),
{
    let mut res: Vec<Vec<char>> = Vec::new();
    let mut in_word = false;
    for i in 0..s.len()
        invariant
            res@.map_values(|w: Vec<char>| w@) == words(s@.take(i as int)),
            in_word == (i > 0 && !is_white_space(s@[i - 1])),
    {
        let c = s[i];
        let ghost prefix = s@.take(i + 1);
        assert(prefix.drop_last() == s@.take(i as int));
        let ghost before = res@.map_values(|w: Vec<char>| w@);
        if white_space(c) {
            in_word = false;
        } else if in_word {
            proof {
                assert(s@.take(i as int).last() == s@[i - 1]);
                lemma_words_nonempty(s@.take(i as int));
                assert(prefix[prefix.len() - 2] == s@[i - 1]);
            }
            let last = res.len() - 1;
            let mut w = res.remove(last);
            w.push(c);
            res.push(w);
            assert(res@.map_values(|w: Vec<char>| w@) == before.drop_last().push(
                before.last().push(c),
            ));
        } else {
            let mut w: Vec<char> = Vec::new();
            w.push(c);
            res.push(w);
            assert(res@.map_values(|w: Vec<char>| w@) == before.push(seq![c]));
            in_word = true;
        }
    }
    assert(s@.take(s@.len() as int) == s@);
    res
}

/// The words of a display name, lower-cased and joined with `-`.
pub fn to_skewer_case(name: &str) -> (res: String)
    ensures
        res@ == skewer_case(name@),
{
    let chars = chars_of(name);
    let ws = split_words(&chars);
    let ghost views = words(name@);
    let mut lowered: Vec<Vec<char>> = Vec::new();
    for i in 0..ws.len()
        invariant
            ws@.map_values(|w: Vec<char>| w@) == views,
            lowered@.map_values(|w: Vec<char>| w@) == views.map_values(
                |w: Seq<char>| lower_ascii(w),
            ).take(i as int),
    {
        assert(ws@[i as int]@ == views[i as int]);
        let l = lowercase_ascii(&ws[i]);
        let ghost before = lowered@.map_values(|w: Vec<char>| w@);
        lowered.push(l);
        assert(lowered@.map_values(|w: Vec<char>| w@) == before.push(l@));
        assert(views.map_values(|w: Seq<char>| lower_ascii(w)).take(i + 1) == views.map_values(
            |w: Seq<char>| lower_ascii(w),
        ).take(i as int).push(lower_ascii(views[i as int])));
    }
    assert(views.map_values(|w: Seq<char>| lower_ascii(w)).take(ws@.len() as int)
        == views.map_values(|w: Seq<char>| lower_ascii(w)));
    let joined = join_chars(&lowered, '-');
    string_of(&joined)
}


/// A character that may stand in a safe name.
pub open spec fn is_safe_char(c: char) -> bool {
    is_ascii_alphanumeric(c) || c == '_'
}

proof fn lemma_safe_chars(name: Seq<char>)
    ensures
        forall|i: int| 0 <= i < safe_chars(name).len() ==> is_safe_char(#[trigger] safe_chars(name)[i]),
    decreases name.len(),
{
    if name.len() > 0 {
        lemma_safe_chars(name.drop_last());
        let rest = safe_chars(name.drop_last());
        let out = safe_chars(name);
        assert forall|i: int| 0 <= i < out.len() implies is_safe_char(#[trigger] out[i]) by {
            if i < rest.len() {
                assert(out[i] == rest[i]);
            }
        }
    }
}

/// A safe name is a usable identifier: it is not empty, holds only ASCII
/// letters, digits and `_`, and does not start with a digit.
pub proof fn law_safe_name_is_identifier(name: Seq<char>)
    ensures
        safe_name(name).len() > 0,
        forall|i: int| 0 <= i < safe_name(name).len() ==> is_safe_char(#[trigger] safe_name(name)[i]),
        !is_ascii_digit(safe_name(name)[0]),
{
    lemma_safe_chars(name);
    let out = safe_chars(name);
    if out.len() == 0 {
        assert(safe_name(name) == unknown_name());
    } else if is_ascii_digit(out[0]) {
        let r = seq!['_'] + out;
        assert forall|i: int| 0 <= i < r.len() implies is_safe_char(#[trigger] r[i]) by {
            if i > 0 {
                assert(r[i] == out[i - 1]);
            }
        }
    }
}


/// The mod name a directory gives: its file name, unless it is missing, not
/// UTF-8, or only white space.
pub fn dir_name_from(file_name: Option<&str>) -> (res: Option<String>)
    ensures
        file_name is None ==> res is None,
        file_name matches Some(n) ==> (if crate::text::trim(n@).len() > 0 {
            res matches Some(r) && r@ == n@
        } else {
            res is None
        }),
{
    match file_name {
        Some(n) => {
            let c = chars_of(n);
            let t = crate::text::trim_chars(&c);
            if t.len() > 0 {
                Some(String::from_str(n))
            } else {
                None
            }
        },
        None => None,
    }
}

proof fn lemma_join_lacks_upper(parts: Seq<Seq<char>>)
    requires
        forall|i: int, j: int|
            0 <= i < parts.len() && 0 <= j < parts[i].len() ==> !('A' <= #[trigger] parts[i][j]
                && parts[i][j] <= 'Z'),
    ensures
        forall|j: int|
            0 <= j < join(parts, seq!['-']).len() ==> !('A' <= #[trigger] join(parts, seq!['-'])[j]
                && join(parts, seq!['-'])[j] <= 'Z'),
    decreases parts.len(),
{
    if parts.len() >= 2 {
        let d = parts.drop_last();
        assert forall|i: int, j: int| 0 <= i < d.len() && 0 <= j < d[i].len() implies !('A'
            <= #[trigger] d[i][j] && d[i][j] <= 'Z') by {
            assert(d[i] == parts[i]);
        }
        lemma_join_lacks_upper(d);
        let jd = join(d, seq!['-']);
        let l = parts.last();
        let all = join(parts, seq!['-']);
        assert(all == jd + seq!['-'] + l);
        assert forall|j: int| 0 <= j < all.len() implies !('A' <= #[trigger] all[j] && all[j] <= 'Z') by {
            if j < jd.len() {
                assert(all[j] == jd[j]);
            } else if j > jd.len() {
                assert(all[j] == l[j - jd.len() - 1]);
                assert(l == parts[parts.len() - 1]);
            }
        }
    } else if parts.len() == 1 {
        assert forall|j: int| 0 <= j < parts[0].len() implies !('A' <= #[trigger] parts[0][j]
            && parts[0][j] <= 'Z') by {}
    }
}

/// A mod id in skewer case holds no ASCII upper-case letter, whatever the
/// name it comes from.
pub proof fn law_skewer_case_is_lower(name: Seq<char>)
    ensures
        forall|j: int|
            0 <= j < skewer_case(name).len() ==> !('A' <= #[trigger] skewer_case(name)[j]
                && skewer_case(name)[j] <= 'Z'),
{
    let parts = words(name).map_values(|w: Seq<char>| lower_ascii(w));
    assert forall|i: int, j: int| 0 <= i < parts.len() && 0 <= j < parts[i].len() implies !('A'
        <= #[trigger] parts[i][j] && parts[i][j] <= 'Z') by {
        let w = words(name)[i];
        assert(parts[i] == lower_ascii(w));
        let c = w[j];
        assert(parts[i][j] == ascii_lower(c));
        if 'A' <= c && c <= 'Z' {
            assert((c as u32) + 32 >= 97);
        }
    }
    lemma_join_lacks_upper(parts);
}

} // verus!
