//! Conversion between the INI-like text the mod loader writes and TOML.
use vstd::prelude::*;
use crate::text::{
    lemma_join_of_lines, lemma_lines_lack, lemma_lines_of_join, lemma_trim_ends, is_white_space,
    find_char, is_first_index, lacks, lemma_find_char_range, lemma_find_char_some, lemma_trim_after_space,
    lemma_trim_fixed, lemma_trim_lacks,
    append_chars, chars_of, ends_with, join, join_chars, lines, split_lines, split_once,
    split_once_chars, starts_with, string_of, sub_chars, trim, trim_chars, ascii_alphanumeric,
    is_ascii_alphanumeric,
};

verus! {

/// A character that may stand in a bare TOML key.
pub open spec fn is_bare_key_char(c: char) -> bool {
    is_ascii_alphanumeric(c) || c == '_' || c == '-'
}

/// One line of INI text as TOML: a key that is neither a table header, nor
/// quoted already, nor a bare key gets quoted (after trimming it); the value is
/// left as it stands.
pub open spec fn ini_line_to_toml(line: Seq<char>) -> Seq<char> {
    match split_once(line, '=') {
        Some((k0, v)) => {
            let k = trim(k0);
            if starts_with(k, '[') || starts_with(k, '"') {
                line
            } else if forall|i: int| 0 <= i < k.len() ==> is_bare_key_char(#[trigger] k[i]) {
                line
            } else {
                seq!['"'] + k + seq!['"', ' ', '=', ' '] + v
            }
        },
        None => line,
    }
}

/// One line of TOML text as INI: a table header stays, a quoted key loses its
/// quotes, and key and value are written trimmed around ` = `.
pub open spec fn toml_line_to_ini(line: Seq<char>) -> Seq<char> {
    match split_once(line, '=') {
        Some((k0, v0)) => {
            let k = trim(k0);
            let v = trim(v0);
            if starts_with(k, '[') && ends_with(k, ']') {
                line
            } else if starts_with(k, '"') && ends_with(k, '"') && k.len() >= 2 {
                k.subrange(1, k.len() - 1) + seq![' ', '=', ' '] + v
            } else {
                k + seq![' ', '=', ' '] + v
            }
        },
        None => line,
    }
}

/// The whole INI text as TOML: each line converted, joined with `\n`.
pub open spec fn ini_text_to_toml(s: Seq<char>) -> Seq<char> {
    join(lines(s).map_values(|l: Seq<char>| ini_line_to_toml(l)), seq!['\n'])
}

/// The whole TOML text as INI: each line converted, joined with `\n`.
pub open spec fn toml_text_to_ini(s: Seq<char>) -> Seq<char> {
    join(lines(s).map_values(|l: Seq<char>| toml_line_to_ini(l)), seq!['\n'])
}

fn all_bare_key_chars(k: &[char]) -> (res: bool)
    ensures
        res == forall|i: int| 0 <= i < k@.len() ==> is_bare_key_char(#[trigger] k@[i]),
{
    for i in 0..k.len()
        invariant
            forall|j: int| 0 <= j < i ==> is_bare_key_char(#[trigger] k@[j]),
    {
        let c = k[i];
        if !(ascii_alphanumeric(c) || c == '_' || c == '-') {
            return false;
        }
    }
    true
}

fn ini_line(line: &Vec<char>) -> (res: Vec<char>)
    ensures
        res@ == ini_line_to_toml(line@),
{
    match split_once_chars(line, '=') {
        Some((k0, v)) => {
            let k = trim_chars(&k0);
            if (k.len() > 0 && k[0] == '[') || (k.len() > 0 && k[0] == '"') {
                line.clone()
            } else if all_bare_key_chars(&k) {
                line.clone()
            } else {
                let mut out: Vec<char> = Vec::new();
                out.push('"');
                append_chars(&mut out, &k);
                out.push('"');
                out.push(' ');
                out.push('=');
                out.push(' ');
                append_chars(&mut out, &v);
                assert(out@ == seq!['"'] + k@ + seq!['"', ' ', '=', ' '] + v@);
                out
            }
        },
        None => line.clone(),
    }
}

fn toml_line(line: &Vec<char>) -> (res: Vec<char>)
    ensures
        res@ == toml_line_to_ini(line@),
{
    match split_once_chars(line, '=') {
        Some((k0, v0)) => {
            let k = trim_chars(&k0);
            let v = trim_chars(&v0);
            if k.len() > 0 && k[0] == '[' && k[k.len() - 1] == ']' {
                line.clone()
            } else {
                let mut out: Vec<char> = if k.len() >= 2 && k[0] == '"' && k[k.len() - 1] == '"' {
                    sub_chars(&k, 1, k.len() - 1)
                } else {
                    sub_chars(&k, 0, k.len())
                };
                let ghost key = out@;
                out.push(' ');
                out.push('=');
                out.push(' ');
                append_chars(&mut out, &v);
                assert(out@ == key + seq![' ', '=', ' '] + v@);
                out
            }
        },
        None => line.clone(),
    }
}

/// Rewrites INI text as TOML, line by line.
pub fn ini_to_toml(ini: &str) -> (res: String)
    ensures
        res@ == ini_text_to_toml(ini@),
{
    let chars = chars_of(ini);
    let ls = split_lines(&chars);
    let ghost src = lines(ini@);
    let mut out: Vec<Vec<char>> = Vec::new();
    for i in 0..ls.len()
        invariant
            ls@.map_values(|l: Vec<char>| l@) == src,
            out@.map_values(|l: Vec<char>| l@) == src.map_values(
                |l: Seq<char>| ini_line_to_toml(l),
            ).take(i as int),
    {
        assert(ls@[i as int]@ == src[i as int]);
        let converted = ini_line(&ls[i]);
        let ghost before = out@.map_values(|l: Vec<char>| l@);
        out.push(converted);
        assert(out@.map_values(|l: Vec<char>| l@) == before.push(converted@));
        assert(src.map_values(|l: Seq<char>| ini_line_to_toml(l)).take(i + 1) == src.map_values(
            |l: Seq<char>| ini_line_to_toml(l),
        ).take(i as int).push(ini_line_to_toml(src[i as int])));
    }
    assert(src.map_values(|l: Seq<char>| ini_line_to_toml(l)).take(ls@.len() as int)
        == src.map_values(|l: Seq<char>| ini_line_to_toml(l)));
    let joined = join_chars(&out, '\n');
    string_of(&joined)
}

/// Rewrites TOML text as INI, line by line.
pub fn toml_to_ini(toml: &str) -> (res: String)
    ensures
        res@ == toml_text_to_ini(toml@),
{
    let chars = chars_of(toml);
    let ls = split_lines(&chars);
    let ghost src = lines(toml@);
    let mut out: Vec<Vec<char>> = Vec::new();
    for i in 0..ls.len()
        invariant
            ls@.map_values(|l: Vec<char>| l@) == src,
            out@.map_values(|l: Vec<char>| l@) == src.map_values(
                |l: Seq<char>| toml_line_to_ini(l),
            ).take(i as int),
    {
        assert(ls@[i as int]@ == src[i as int]);
        let converted = toml_line(&ls[i]);
        let ghost before = out@.map_values(|l: Vec<char>| l@);
        out.push(converted);
        assert(out@.map_values(|l: Vec<char>| l@) == before.push(converted@));
        assert(src.map_values(|l: Seq<char>| toml_line_to_ini(l)).take(i + 1) == src.map_values(
            |l: Seq<char>| toml_line_to_ini(l),
        ).take(i as int).push(toml_line_to_ini(src[i as int])));
    }
    assert(src.map_values(|l: Seq<char>| toml_line_to_ini(l)).take(ls@.len() as int)
        == src.map_values(|l: Seq<char>| toml_line_to_ini(l)));
    let joined = join_chars(&out, '\n');
    string_of(&joined)
}


/// Converting a line from INI to TOML and then back to INI gives the same as
/// converting the line to INI directly: the quotes `ini_to_toml` adds are the
/// ones `toml_to_ini` removes.
pub proof fn law_line_roundtrip(line: Seq<char>)
    ensures
        toml_line_to_ini(ini_line_to_toml(line)) == toml_line_to_ini(line),
{
    match split_once(line, '=') {
        Some((k0, v)) => {
            let k = trim(k0);
            if starts_with(k, '[') || starts_with(k, '"') {
            } else if forall|i: int| 0 <= i < k.len() ==> is_bare_key_char(#[trigger] k[i]) {
            } else {
                let out = seq!['"'] + k + seq!['"', ' ', '=', ' '] + v;
                assert(ini_line_to_toml(line) == out);
                lemma_find_char_range(line, '=');
                let i = find_char(line, '=')->0;
                assert(lacks(k0, '=')) by {
                    assert forall|j: int| 0 <= j < k0.len() implies #[trigger] k0[j] != '=' by {
                        assert(k0[j] == line[j]);
                    }
                }
                lemma_trim_lacks(k0, '=');
                lemma_trim_ends(k0);
                assert(k.len() > 0);
                let n = k.len() as int;
                assert(is_first_index(out, '=', n + 3)) by {
                    assert forall|j: int| 0 <= j < n + 3 implies out[j] != '=' by {
                        if 1 <= j < n + 1 {
                            assert(out[j] == k[j - 1]);
                        }
                    }
                }
                lemma_find_char_some(out, '=', n + 3);
                let q = seq!['"'] + k + seq!['"'];
                assert(out.take(n + 3) == q.push(' '));
                assert(out.skip(n + 4) == seq![' '] + v);
                assert(q[0] == '"' && q.last() == '"');
                lemma_trim_fixed(q);
                lemma_trim_after_space(v);
                assert(q.subrange(1, q.len() - 1) == k);
            }
        },
        None => {},
    }
}


proof fn lemma_converted_lacks(line: Seq<char>, c: char)
    requires
        lacks(line, c),
        c != '"',
        c != ' ',
        c != '=',
    ensures
        lacks(ini_line_to_toml(line), c),
        line.len() > 0 ==> ini_line_to_toml(line).len() > 0,
{
    match split_once(line, '=') {
        Some((k0, v)) => {
            lemma_find_char_range(line, '=');
            let i = find_char(line, '=')->0;
            assert(lacks(k0, c)) by {
                assert forall|j: int| 0 <= j < k0.len() implies #[trigger] k0[j] != c by {
                    assert(k0[j] == line[j]);
                }
            }
            assert(lacks(v, c)) by {
                assert forall|j: int| 0 <= j < v.len() implies #[trigger] v[j] != c by {
                    assert(v[j] == line[i + 1 + j]);
                }
            }
            lemma_trim_lacks(k0, c);
            let k = trim(k0);
            let out = seq!['"'] + k + seq!['"', ' ', '=', ' '] + v;
            assert(lacks(out, c)) by {
                assert forall|j: int| 0 <= j < out.len() implies #[trigger] out[j] != c by {
                    if 1 <= j < k.len() + 1 {
                        assert(out[j] == k[j - 1]);
                    } else if j >= k.len() + 5 {
                        assert(out[j] == v[j - k.len() - 5]);
                    }
                }
            }
        },
        None => {},
    }
}

/// The lines of converted text are the converted lines, for text without
/// carriage returns whose last line is not empty.
proof fn lemma_lines_of_toml(s: Seq<char>)
    requires
        lacks(s, '\r'),
        lines(s).len() > 0 ==> lines(s).last().len() > 0,
    ensures
        lines(ini_text_to_toml(s)) == lines(s).map_values(|l: Seq<char>| ini_line_to_toml(l)),
{
    let ls = lines(s);
    let m = ls.map_values(|l: Seq<char>| ini_line_to_toml(l));
    lemma_lines_lack(s, '\r');
    assert forall|i: int| 0 <= i < m.len() implies lacks(#[trigger] m[i], '\n') by {
        lemma_converted_lacks(ls[i], '\n');
    }
    assert forall|i: int| 0 <= i < m.len() - 1 implies !ends_with(#[trigger] m[i], '\r') by {
        lemma_converted_lacks(ls[i], '\r');
        lemma_converted_lacks(ls[i], '\n');
        if m[i].len() > 0 {
            assert(m[i][m[i].len() - 1] != '\r');
        }
    }
    if m.len() > 0 {
        lemma_converted_lacks(ls.last(), '\n');
        assert(m.last() == ini_line_to_toml(ls.last()));
    }
    lemma_lines_of_join(m);
    assert(ini_text_to_toml(s) == join(m, seq!['\n']));
}

/// Reading INI text as TOML and writing it back as INI gives what writing the
/// text as INI directly gives, for text without carriage returns whose last
/// line is not empty (splitting into lines drops a final empty line and the
/// carriage return before a line feed, so joining cannot restore them).
pub proof fn law_text_roundtrip(s: Seq<char>)
    requires
        lacks(s, '\r'),
        lines(s).len() > 0 ==> lines(s).last().len() > 0,
    ensures
        toml_text_to_ini(ini_text_to_toml(s)) == toml_text_to_ini(s),
{
    let ls = lines(s);
    let m = ls.map_values(|l: Seq<char>| ini_line_to_toml(l));
    lemma_lines_of_toml(s);
    assert(lines(ini_text_to_toml(s)) == m);
    assert forall|i: int| 0 <= i < ls.len() implies #[trigger] toml_line_to_ini(m[i]) == toml_line_to_ini(ls[i]) by {
        law_line_roundtrip(ls[i]);
    }
    assert(m.map_values(|l: Seq<char>| toml_line_to_ini(l)) =~= ls.map_values(
        |l: Seq<char>| toml_line_to_ini(l),
    ));
}

/// A line as `toml_to_ini` writes it: without `=`, or `key = value` with key
/// and value trimmed and the key not starting with a quote.
pub open spec fn is_plain_ini_line(l: Seq<char>) -> bool {
    match split_once(l, '=') {
        None => true,
        Some((k0, v0)) => {
            &&& k0.len() > 0 && k0.last() == ' '
            &&& v0.len() > 0 && v0[0] == ' '
            &&& trim(k0.drop_last()) == k0.drop_last()
            &&& trim(v0.drop_first()) == v0.drop_first()
            &&& !starts_with(k0.drop_last(), '"')
        },
    }
}

/// A plain line is its own INI form.
proof fn lemma_plain_line_fixed(l: Seq<char>)
    requires
        is_plain_ini_line(l),
    ensures
        toml_line_to_ini(l) == l,
{
    match split_once(l, '=') {
        None => {},
        Some((k0, v0)) => {
            let key = k0.drop_last();
            let val = v0.drop_first();
            assert(k0 =~= key.push(' '));
            assert(v0 =~= seq![' '] + val);
            lemma_trim_ends(key);
            if key.len() > 0 {
                lemma_trim_fixed(key);
            } else {
                assert(k0 =~= seq![' ']);
                assert(k0.drop_first() =~= Seq::<char>::empty());
                assert(crate::text::trim_start(k0) == crate::text::trim_start(k0.drop_first()));
                assert(trim(k0) == Seq::<char>::empty());
            }
            assert(trim(k0) == key);
            lemma_trim_after_space(val);
            assert(trim(v0) == val);
            lemma_find_char_range(l, '=');
            let i = find_char(l, '=')->0;
            assert(l =~= key + seq![' ', '=', ' '] + val) by {
                assert(l =~= l.take(i) + seq![l[i]] + l.skip(i + 1));
            }
        },
    }
}

/// INI text that `toml_to_ini` writes as it stands (no carriage returns, no
/// line feed at its end, every line plain) comes back unchanged from a round
/// trip through TOML.
pub proof fn law_plain_text_roundtrip(s: Seq<char>)
    requires
        lacks(s, '\r'),
        !ends_with(s, '\n'),
        forall|i: int| 0 <= i < lines(s).len() ==> is_plain_ini_line(#[trigger] lines(s)[i]),
    ensures
        toml_text_to_ini(ini_text_to_toml(s)) == s,
{
    lemma_join_of_lines(s);
    law_text_roundtrip(s);
    let ls = lines(s);
    assert forall|i: int| 0 <= i < ls.len() implies #[trigger] toml_line_to_ini(ls[i]) == ls[i] by {
        lemma_plain_line_fixed(ls[i]);
    }
    assert(ls.map_values(|l: Seq<char>| toml_line_to_ini(l)) =~= ls);
}

/// A converted line converts to itself.
proof fn lemma_line_toml_fixed(line: Seq<char>)
    ensures
        ini_line_to_toml(ini_line_to_toml(line)) == ini_line_to_toml(line),
{
    match split_once(line, '=') {
        Some((k0, v)) => {
            let k = trim(k0);
            if starts_with(k, '[') || starts_with(k, '"') {
            } else if forall|i: int| 0 <= i < k.len() ==> is_bare_key_char(#[trigger] k[i]) {
            } else {
                let out = seq!['"'] + k + seq!['"', ' ', '=', ' '] + v;
                assert(ini_line_to_toml(line) == out);
                lemma_find_char_range(line, '=');
                assert(lacks(k0, '=')) by {
                    assert forall|j: int| 0 <= j < k0.len() implies #[trigger] k0[j] != '=' by {
                        assert(k0[j] == line[j]);
                    }
                }
                lemma_trim_lacks(k0, '=');
                let n = k.len() as int;
                assert(is_first_index(out, '=', n + 3)) by {
                    assert forall|j: int| 0 <= j < n + 3 implies out[j] != '=' by {
                        if 1 <= j < n + 1 {
                            assert(out[j] == k[j - 1]);
                        }
                    }
                }
                lemma_find_char_some(out, '=', n + 3);
                let q = seq!['"'] + k + seq!['"'];
                assert(out.take(n + 3) == q.push(' '));
                assert(q[0] == '"' && q.last() == '"');
                lemma_trim_fixed(q);
            }
        },
        None => {},
    }
}

/// Converting INI text to TOML a second time changes nothing, for text without
/// carriage returns whose last line is not empty.
pub proof fn law_toml_idempotent(s: Seq<char>)
    requires
        lacks(s, '\r'),
        lines(s).len() > 0 ==> lines(s).last().len() > 0,
    ensures
        ini_text_to_toml(ini_text_to_toml(s)) == ini_text_to_toml(s),
{
    let ls = lines(s);
    let m = ls.map_values(|l: Seq<char>| ini_line_to_toml(l));
    lemma_lines_of_toml(s);
    assert forall|i: int| 0 <= i < m.len() implies #[trigger] ini_line_to_toml(m[i]) == m[i] by {
        lemma_line_toml_fixed(ls[i]);
    }
    assert(m.map_values(|l: Seq<char>| ini_line_to_toml(l)) =~= m);
}

/// A line TOML reads as a key/value or header line: without `=`, or with a
/// key (before the first `=`, trimmed) that opens a table header, is quoted,
/// or is bare: only ASCII letters, digits, `_` and `-`.
pub open spec fn is_toml_key_line(l: Seq<char>) -> bool {
    match split_once(l, '=') {
        None => true,
        Some((k0, _)) => {
            let k = trim(k0);
            ||| starts_with(k, '[')
            ||| starts_with(k, '"')
            ||| forall|i: int|
                0 <= i < k.len() ==> {
                    let c = #[trigger] k[i];
                    ('a' <= c && c <= 'z') || ('A' <= c && c <= 'Z') || ('0' <= c && c <= '9')
                        || c == '_' || c == '-'
                }
        },
    }
}

/// Every line `ini_to_toml` writes is one TOML reads: a key with any character
/// outside ASCII letters, digits, `_` and `-` (such as the `@` of
/// `id@version`) comes out quoted.
pub proof fn law_toml_lines_have_valid_keys(line: Seq<char>)
    ensures
        is_toml_key_line(ini_line_to_toml(line)),
{
    match split_once(line, '=') {
        Some((k0, v)) => {
            let k = trim(k0);
            if starts_with(k, '[') || starts_with(k, '"') {
            } else if forall|i: int| 0 <= i < k.len() ==> is_bare_key_char(#[trigger] k[i]) {
                assert forall|i: int| 0 <= i < k.len() implies {
                    let c = #[trigger] k[i];
                    ('a' <= c && c <= 'z') || ('A' <= c && c <= 'Z') || ('0' <= c && c <= '9')
                        || c == '_' || c == '-'
                } by {
                    assert(is_bare_key_char(k[i]));
                }
            } else {
                let out = seq!['"'] + k + seq!['"', ' ', '=', ' '] + v;
                assert(ini_line_to_toml(line) == out);
                lemma_find_char_range(line, '=');
                assert(lacks(k0, '=')) by {
                    assert forall|j: int| 0 <= j < k0.len() implies #[trigger] k0[j] != '=' by {
                        assert(k0[j] == line[j]);
                    }
                }
                lemma_trim_lacks(k0, '=');
                let n = k.len() as int;
                assert(is_first_index(out, '=', n + 3)) by {
                    assert forall|j: int| 0 <= j < n + 3 implies out[j] != '=' by {
                        if 1 <= j < n + 1 {
                            assert(out[j] == k[j - 1]);
                        }
                    }
                }
                lemma_find_char_some(out, '=', n + 3);
                let q = seq!['"'] + k + seq!['"'];
                assert(out.take(n + 3) == q.push(' '));
                assert(q[0] == '"' && q.last() == '"');
                lemma_trim_fixed(q);
            }
        },
        None => {},
    }
}

/// The same for whole text: every line of what `ini_to_toml` gives is a line
/// TOML reads (for text without carriage returns whose last line is not
/// empty).
pub proof fn law_toml_text_has_valid_keys(s: Seq<char>)
    requires
        lacks(s, '\r'),
        lines(s).len() > 0 ==> lines(s).last().len() > 0,
    ensures
        forall|i: int| 0 <= i < lines(ini_text_to_toml(s)).len() ==> is_toml_key_line(
            #[trigger] lines(ini_text_to_toml(s))[i],
        ),
{
    lemma_lines_of_toml(s);
    let ls = lines(s);
    assert forall|i: int| 0 <= i < lines(ini_text_to_toml(s)).len() implies is_toml_key_line(
        #[trigger] lines(ini_text_to_toml(s))[i],
    ) by {
        law_toml_lines_have_valid_keys(ls[i]);
    }
}

} // verus!
