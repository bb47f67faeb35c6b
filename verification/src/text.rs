//! Character classes and the text operations the rest of the crate is built on,
//! stated over `Seq<char>` and implemented over `Vec<char>`.
use vstd::prelude::*;

verus! {

// ---------------------------------------------------------------------------
// Character classes
// ---------------------------------------------------------------------------

/// Unicode `White_Space` (what `char::is_whitespace` tests).
pub open spec fn is_white_space(c: char) -> bool {
    ||| ('\u{9}' <= c && c <= '\u{d}')
    ||| c == ' '
    ||| c == '\u{85}'
    ||| c == '\u{a0}'
    ||| c == '\u{1680}'
    ||| ('\u{2000}' <= c && c <= '\u{200a}')
    ||| c == '\u{2028}'
    ||| c == '\u{2029}'
    ||| c == '\u{202f}'
    ||| c == '\u{205f}'
    ||| c == '\u{3000}'
}

/// What `char::is_ascii_whitespace` tests: space, tab, line feed, form feed, carriage return.
pub open spec fn is_ascii_white_space(c: char) -> bool {
    c == ' ' || c == '\t' || c == '\n' || c == '\u{c}' || c == '\r'
}

pub open spec fn is_ascii_digit(c: char) -> bool {
    '0' <= c && c <= '9'
}

pub open spec fn is_ascii_alphanumeric(c: char) -> bool {
    ||| is_ascii_digit(c)
    ||| ('a' <= c && c <= 'z')
    ||| ('A' <= c && c <= 'Z')
}

pub open spec fn is_ascii_upper(c: char) -> bool {
    'A' <= c && c <= 'Z'
}

/// `char::to_ascii_lowercase`.
pub open spec fn ascii_lower(c: char) -> char {
    if is_ascii_upper(c) {
        ((c as u32) + 32) as char
    } else {
        c
    }
}

pub fn white_space(c: char) -> (res: bool)
    ensures
        res == is_white_space(c),
{
    ('\u{9}' <= c && c <= '\u{d}') || c == ' ' || c == '\u{85}' || c == '\u{a0}' || c == '\u{1680}'
        || ('\u{2000}' <= c && c <= '\u{200a}') || c == '\u{2028}' || c == '\u{2029}' || c
        == '\u{202f}' || c == '\u{205f}' || c == '\u{3000}'
}

pub fn ascii_white_space(c: char) -> (res: bool)
    ensures
        res == is_ascii_white_space(c),
{
    c == ' ' || c == '\t' || c == '\n' || c == '\u{c}' || c == '\r'
}

pub fn ascii_digit(c: char) -> (res: bool)
    ensures
        res == is_ascii_digit(c),
{
    '0' <= c && c <= '9'
}

pub fn ascii_alphanumeric(c: char) -> (res: bool)
    ensures
        res == is_ascii_alphanumeric(c),
{
    ('0' <= c && c <= '9') || ('a' <= c && c <= 'z') || ('A' <= c && c <= 'Z')
}

pub fn to_ascii_lower(c: char) -> (res: char)
    ensures
        res == ascii_lower(c),
{
    if 'A' <= c && c <= 'Z' {
        let code: u32 = (c as u32) + 32;
        assert(code <= 0x5a + 32);
        assert(('a' as u32) <= code && code <= ('z' as u32));
        char_from_ascii(code)
    } else {
        c
    }
}

/// The character whose code is `code`, for a code of a lower-case ASCII letter.
fn char_from_ascii(code: u32) -> (res: char)
    requires
        ('a' as u32) <= code <= ('z' as u32),
    ensures
        res == code as char,
{
    let b: u8 = code as u8;
    b as char
}

// ---------------------------------------------------------------------------
// Sequences of characters
// ---------------------------------------------------------------------------

pub open spec fn all_chars(s: Seq<char>, p: spec_fn(char) -> bool) -> bool {
    forall|i: int| 0 <= i < s.len() ==> #[trigger] p(s[i])
}

/// `str::trim_start`: drop leading white space.
pub open spec fn trim_start(s: Seq<char>) -> Seq<char>
    decreases s.len(),
{
    if s.len() > 0 && is_white_space(s[0]) {
        trim_start(s.drop_first())
    } else {
        s
    }
}

/// `str::trim_end`: drop trailing white space.
pub open spec fn trim_end(s: Seq<char>) -> Seq<char>
    decreases s.len(),
{
    if s.len() > 0 && is_white_space(s.last()) {
        trim_end(s.drop_last())
    } else {
        s
    }
}

/// `str::trim`.
pub open spec fn trim(s: Seq<char>) -> Seq<char> {
    trim_end(trim_start(s))
}

/// The index of the first occurrence of `c` in `s`, if any.
pub open spec fn find_char(s: Seq<char>, c: char) -> Option<int> {
    if exists|i: int| is_first_index(s, c, i) {
        Some(choose|i: int| is_first_index(s, c, i))
    } else {
        None
    }
}

pub open spec fn is_first_index(s: Seq<char>, c: char, i: int) -> bool {
    &&& 0 <= i < s.len()
    &&& s[i] == c
    &&& forall|k: int| 0 <= k < i ==> s[k] != c
}

/// `str::split_once(c)`: the parts before and after the first `c`.
pub open spec fn split_once(s: Seq<char>, c: char) -> Option<(Seq<char>, Seq<char>)> {
    match find_char(s, c) {
        Some(i) => Some((s.take(i), s.skip(i + 1))),
        None => None,
    }
}

/// A line as `str::lines` yields it: the text before a line feed, without one
/// carriage return that ends it.
pub open spec fn strip_cr(line: Seq<char>) -> Seq<char> {
    if line.len() > 0 && line.last() == '\r' {
        line.drop_last()
    } else {
        line
    }
}

/// `str::lines`: split at `\n`, drop a `\r` that stands right before a `\n`; a
/// final line ending adds no empty line.
pub open spec fn lines(s: Seq<char>) -> Seq<Seq<char>>
    decreases s.len(),
{
    if s.len() == 0 {
        Seq::empty()
    } else {
        match find_char(s, '\n') {
            Some(i) => if 0 <= i < s.len() {
                seq![strip_cr(s.take(i))] + lines(s.skip(i + 1))
            } else {
                Seq::empty()
            },
            None => seq![s],
        }
    }
}

/// `parts.join(sep)`.
pub open spec fn join(parts: Seq<Seq<char>>, sep: Seq<char>) -> Seq<char>
    decreases parts.len(),
{
    if parts.len() == 0 {
        Seq::empty()
    } else if parts.len() == 1 {
        parts[0]
    } else {
        join(parts.drop_last(), sep) + sep + parts.last()
    }
}

pub open spec fn starts_with(s: Seq<char>, c: char) -> bool {
    s.len() > 0 && s[0] == c
}

pub open spec fn ends_with(s: Seq<char>, c: char) -> bool {
    s.len() > 0 && s.last() == c
}

/// `str::eq_ignore_ascii_case`.
pub open spec fn eq_ignore_ascii_case(a: Seq<char>, b: Seq<char>) -> bool {
    &&& a.len() == b.len()
    &&& forall|i: int| 0 <= i < a.len() ==> ascii_lower(#[trigger] a[i]) == ascii_lower(b[i])
}

/// `str::to_ascii_lowercase`.
pub open spec fn lower_ascii(s: Seq<char>) -> Seq<char> {
    s.map_values(|c: char| ascii_lower(c))
}

pub open spec fn digit_char(d: nat) -> char {
    if d == 0 {
        '0'
    } else if d == 1 {
        '1'
    } else if d == 2 {
        '2'
    } else if d == 3 {
        '3'
    } else if d == 4 {
        '4'
    } else if d == 5 {
        '5'
    } else if d == 6 {
        '6'
    } else if d == 7 {
        '7'
    } else if d == 8 {
        '8'
    } else {
        '9'
    }
}

/// The decimal digits of `n`, as `Display` writes an unsigned integer.
pub open spec fn decimal(n: nat) -> Seq<char>
    decreases n,
{
    if n < 10 {
        seq![digit_char(n)]
    } else {
        decimal(n / 10).push(digit_char(n % 10))
    }
}

/// A signed integer as `Display` writes it.
pub open spec fn signed_decimal(n: int) -> Seq<char> {
    if n < 0 {
        seq!['-'] + decimal((-n) as nat)
    } else {
        decimal(n as nat)
    }
}

// ---------------------------------------------------------------------------
// Lemmas
// ---------------------------------------------------------------------------

pub proof fn lemma_first_index_unique(s: Seq<char>, c: char, i: int, j: int)
    requires
        is_first_index(s, c, i),
        is_first_index(s, c, j),
    ensures
        i == j,
{
    if i < j {
        assert(s[i] != c);
    } else if j < i {
        assert(s[j] != c);
    }
}

pub proof fn lemma_find_char_some(s: Seq<char>, c: char, i: int)
    requires
        is_first_index(s, c, i),
    ensures
        find_char(s, c) == Some(i),
{
    let j = choose|j: int| is_first_index(s, c, j);
    lemma_first_index_unique(s, c, i, j);
}

pub proof fn lemma_find_char_none(s: Seq<char>, c: char)
    requires
        forall|k: int| 0 <= k < s.len() ==> s[k] != c,
    ensures
        find_char(s, c) is None,
{
}

proof fn lemma_first_exists(s: Seq<char>, c: char, j: int)
    requires
        0 <= j < s.len(),
        s[j] == c,
    ensures
        exists|i: int| is_first_index(s, c, i),
    decreases j,
{
    if exists|k: int| 0 <= k < j && s[k] == c {
        let k = choose|k: int| 0 <= k < j && s[k] == c;
        lemma_first_exists(s, c, k);
    } else {
        assert(is_first_index(s, c, j));
    }
}

/// Where there is no first occurrence there is none at all.
pub proof fn lemma_find_char_none_lacks(s: Seq<char>, c: char)
    requires
        find_char(s, c) is None,
    ensures
        forall|j: int| 0 <= j < s.len() ==> s[j] != c,
{
    assert forall|j: int| 0 <= j < s.len() implies s[j] != c by {
        if s[j] == c {
            lemma_first_exists(s, c, j);
        }
    }
}

pub proof fn lemma_find_char_range(s: Seq<char>, c: char)
    ensures
        find_char(s, c) matches Some(i) ==> is_first_index(s, c, i),
{
}

pub proof fn lemma_decimal_nonempty(n: nat)
    ensures
        decimal(n).len() > 0,
    decreases n,
{
    if n >= 10 {
        lemma_decimal_nonempty(n / 10);
    }
}

// ---------------------------------------------------------------------------
// Executable operations
// ---------------------------------------------------------------------------

/// The characters of `s`, in order.
pub fn chars_of(s: &str) -> (res: Vec<char>)
    ensures
        res@ == s@,
{
    let mut res: Vec<char> = Vec::new();
    for c in it: s.chars()
        invariant
            res@ == it.seq().take(it.index() as int),
            it.seq() == s@,
    {
        res.push(c);
    }
    res
}

/// `String::push`: appends one character.
#[verifier::external_body]
fn string_push(s: &mut String, c: char)
    ensures
        final(s)@ == old(s)@.push(c),
{
    s.push(c);
}

/// The string made of the characters of `chars`, in order.
pub fn string_of(chars: &[char]) -> (res: String)
    ensures
        res@ == chars@,
{
    let mut res = String::new();
    for i in 0..chars.len()
        invariant
            res@ == chars@.take(i as int),
    {
        string_push(&mut res, chars[i]);
        assert(chars@.take(i + 1) == chars@.take(i as int).push(chars@[i as int]));
    }
    assert(chars@.take(chars@.len() as int) == chars@);
    res
}

/// Appends all of `b` to `a`.
pub fn append_chars(a: &mut Vec<char>, b: &[char])
    ensures
        final(a)@ == old(a)@ + b@,
{
    for i in 0..b.len()
        invariant
            a@ == old(a)@ + b@.take(i as int),
    {
        a.push(b[i]);
        assert(b@.take(i + 1) == b@.take(i as int).push(b@[i as int]));
    }
    assert(b@.take(b@.len() as int) == b@);
}

/// The characters of `s` from `from` up to `to`.
pub fn sub_chars(s: &[char], from: usize, to: usize) -> (res: Vec<char>)
    requires
        from <= to <= s@.len(),
    ensures
        res@ == s@.subrange(from as int, to as int),
{
    let mut res: Vec<char> = Vec::new();
    let mut i = from;
    while i < to
        invariant
            from <= i <= to <= s@.len(),
            res@ == s@.subrange(from as int, i as int),
        decreases to - i,
    {
        res.push(s[i]);
        assert(s@.subrange(from as int, i + 1) == s@.subrange(from as int, i as int).push(s@[i as int]));
        i = i + 1;
    }
    res
}

/// The index of the first `c` in `s`.
pub fn find(s: &[char], c: char) -> (res: Option<usize>)
    ensures
        res matches Some(i) ==> find_char(s@, c) == Some(i as int),
        res is None ==> find_char(s@, c) is None,
{
    for i in 0..s.len()
        invariant
            forall|k: int| 0 <= k < i ==> s@[k] != c,
    {
        if s[i] == c {
            proof {
                lemma_find_char_some(s@, c, i as int);
            }
            return Some(i);
        }
    }
    None
}

/// `str::split_once(c)`.
pub fn split_once_chars(s: &[char], c: char) -> (res: Option<(Vec<char>, Vec<char>)>)
    ensures
        res matches Some(p) ==> split_once(s@, c) == Some((p.0@, p.1@)),
        res is None ==> split_once(s@, c) is None,
{
    match find(s, c) {
        Some(i) => {
            proof {
                lemma_find_char_range(s@, c);
                assert(is_first_index(s@, c, i as int));
                assert(i < s.len());
            }
            let before = sub_chars(s, 0, i);
            let after = sub_chars(s, i + 1, s.len());
            assert(before@ == s@.take(i as int));
            assert(after@ == s@.skip(i + 1));
            Some((before, after))
        },
        None => None,
    }
}

/// `str::trim`.
pub fn trim_chars(s: &[char]) -> (res: Vec<char>)
    ensures
        res@ == trim(s@),
{
    let mut start: usize = 0;
    assert(s@.skip(0) == s@);
    while start < s.len() && white_space(s[start])
        invariant
            start <= s@.len(),
            trim_start(s@) == trim_start(s@.skip(start as int)),
        decreases s.len() - start,
    {
        assert(s@.skip(start as int).drop_first() == s@.skip(start + 1));
        start = start + 1;
    }
    assert(trim_start(s@.skip(start as int)) == s@.skip(start as int));
    let mut end: usize = s.len();
    while end > start && white_space(s[end - 1])
        invariant
            start <= end <= s@.len(),
            trim(s@) == trim_end(s@.subrange(start as int, end as int)),
        decreases end,
    {
        assert(s@.subrange(start as int, end as int).drop_last() == s@.subrange(
            start as int,
            end - 1,
        ));
        end = end - 1;
    }
    sub_chars(s, start, end)
}

/// `str::lines`.
pub fn split_lines(s: &[char]) -> (res: Vec<Vec<char>>)
    ensures
        res@.map_values(|l: Vec<char>| l@) == lines(s@),
{
    let mut res: Vec<Vec<char>> = Vec::new();
    let mut cur: Vec<char> = Vec::new();
    let mut start: usize = 0;
    assert(s@.skip(0) == s@);
    assert(res@.map_values(|l: Vec<char>| l@) == Seq::<Seq<char>>::empty());
    for i in 0..s.len()
        invariant
            start <= i <= s@.len(),
            cur@ == s@.subrange(start as int, i as int),
            forall|k: int| start <= k < i ==> s@[k] != '\n',
            lines(s@) == res@.map_values(|l: Vec<char>| l@) + lines(s@.skip(start as int)),
    {
        if s[i] == '\n' {
            let ghost rest = s@.skip(start as int);
            proof {
                assert(is_first_index(rest, '\n', i - start));
                lemma_find_char_some(rest, '\n', i - start);
                assert(rest.take(i - start) == cur@);
                assert(rest.skip(i - start + 1) == s@.skip(i + 1));
            }
            let line = if cur.len() > 0 && cur[cur.len() - 1] == '\r' {
                sub_chars(&cur, 0, cur.len() - 1)
            } else {
                sub_chars(&cur, 0, cur.len())
            };
            assert(line@ == strip_cr(cur@));
            let ghost before = res@.map_values(|l: Vec<char>| l@);
            res.push(line);
            assert(res@.map_values(|l: Vec<char>| l@) == before.push(strip_cr(cur@)));
            cur = Vec::new();
            start = i + 1;
        } else {
            cur.push(s[i]);
            assert(cur@ == s@.subrange(start as int, i + 1));
        }
    }
    let ghost rest = s@.skip(start as int);
    assert(rest == cur@);
    if cur.len() > 0 {
        proof {
            lemma_find_char_none(rest, '\n');
        }
        let ghost before = res@.map_values(|l: Vec<char>| l@);
        res.push(cur);
        assert(res@.map_values(|l: Vec<char>| l@) == before.push(rest));
    }
    res
}

/// `parts.join(sep)`, for a separator of one character.
pub fn join_chars(parts: &Vec<Vec<char>>, sep: char) -> (res: Vec<char>)
    ensures
        res@ == join(parts@.map_values(|l: Vec<char>| l@), seq![sep]),
{
    let ghost views = parts@.map_values(|l: Vec<char>| l@);
    let mut res: Vec<char> = Vec::new();
    for i in 0..parts.len()
        invariant
            views == parts@.map_values(|l: Vec<char>| l@),
            res@ == join(views.take(i as int), seq![sep]),
    {
        assert(views.take(i + 1).drop_last() == views.take(i as int));
        if i > 0 {
            res.push(sep);
        } else {
            assert(res@ == Seq::<char>::empty());
        }
        append_chars(&mut res, &parts[i]);
    }
    assert(views.take(parts@.len() as int) == views);
    res
}

/// `str::eq_ignore_ascii_case`.
pub fn eq_ignore_case(a: &[char], b: &[char]) -> (res: bool)
    ensures
        res == eq_ignore_ascii_case(a@, b@),
{
    if a.len() != b.len() {
        return false;
    }
    for i in 0..a.len()
        invariant
            a@.len() == b@.len(),
            forall|k: int| 0 <= k < i ==> ascii_lower(#[trigger] a@[k]) == ascii_lower(b@[k]),
    {
        if to_ascii_lower(a[i]) != to_ascii_lower(b[i]) {
            return false;
        }
    }
    true
}

/// `str::to_ascii_lowercase`.
pub fn lowercase_ascii(s: &[char]) -> (res: Vec<char>)
    ensures
        res@ == lower_ascii(s@),
{
    let mut res: Vec<char> = Vec::new();
    for i in 0..s.len()
        invariant
            res@ == lower_ascii(s@.take(i as int)),
    {
        res.push(to_ascii_lower(s[i]));
        assert(lower_ascii(s@.take(i + 1)) == lower_ascii(s@.take(i as int)).push(
            ascii_lower(s@[i as int]),
        ));
    }
    assert(s@.take(s@.len() as int) == s@);
    res
}

/// Whether `s` is made of the characters of `t` exactly.
pub fn chars_eq(s: &[char], t: &[char]) -> (res: bool)
    ensures
        res == (s@ == t@),
{
    if s.len() != t.len() {
        return false;
    }
    for i in 0..s.len()
        invariant
            s@.len() == t@.len(),
            forall|k: int| 0 <= k < i ==> s@[k] == t@[k],
    {
        if s[i] != t[i] {
            return false;
        }
    }
    assert(s@ =~= t@);
    true
}

fn digit(d: u64) -> (res: char)
    requires
        d < 10,
    ensures
        res == digit_char(d as nat),
{
    if d == 0 {
        '0'
    } else if d == 1 {
        '1'
    } else if d == 2 {
        '2'
    } else if d == 3 {
        '3'
    } else if d == 4 {
        '4'
    } else if d == 5 {
        '5'
    } else if d == 6 {
        '6'
    } else if d == 7 {
        '7'
    } else if d == 8 {
        '8'
    } else {
        '9'
    }
}

/// The decimal digits of `n`.
pub fn decimal_of(n: u64) -> (res: Vec<char>)
    ensures
        res@ == decimal(n as nat),
    decreases n,
{
    if n < 10 {
        let mut v: Vec<char> = Vec::new();
        v.push(digit(n));
        v
    } else {
        let mut v = decimal_of(n / 10);
        v.push(digit(n % 10));
        v
    }
}

/// A signed integer written in decimal, with a leading `-` when negative.
pub fn signed_decimal_of(n: i64) -> (res: Vec<char>)
    ensures
        res@ == signed_decimal(n as int),
{
    if n < 0 {
        let mut v: Vec<char> = Vec::new();
        v.push('-');
        let below: i64 = -(n + 1);
        let m: u64 = below as u64 + 1;
        assert(m == -n);
        let d = decimal_of(m);
        append_chars(&mut v, &d);
        v
    } else {
        decimal_of(n as u64)
    }
}


// ---------------------------------------------------------------------------
// Order of strings
// ---------------------------------------------------------------------------

/// The order of `str`'s `Ord`: lexicographic by bytes, which for UTF-8 is
/// lexicographic by code point. -1, 0 or 1.
pub open spec fn text_order(a: Seq<char>, b: Seq<char>) -> int
    decreases a.len(),
{
    if a.len() == 0 {
        if b.len() == 0 {
            0
        } else {
            -1
        }
    } else if b.len() == 0 {
        1
    } else if a[0] < b[0] {
        -1
    } else if a[0] > b[0] {
        1
    } else {
        text_order(a.drop_first(), b.drop_first())
    }
}

pub proof fn lemma_text_order(a: Seq<char>, b: Seq<char>)
    ensures
        text_order(b, a) == -text_order(a, b),
        (text_order(a, b) == 0) == (a == b),
        -1 <= text_order(a, b) <= 1,
    decreases a.len(),
{
    if a.len() > 0 && b.len() > 0 {
        lemma_text_order(a.drop_first(), b.drop_first());
        if a[0] == b[0] && a.drop_first() == b.drop_first() {
            assert(a =~= seq![a[0]] + a.drop_first());
            assert(b =~= seq![b[0]] + b.drop_first());
        }
        if a == b {
            assert(a.drop_first() == b.drop_first());
        }
    } else if a.len() == 0 && b.len() == 0 {
        assert(a =~= b);
    }
}

proof fn lemma_text_order_skip(a: Seq<char>, b: Seq<char>, i: int)
    requires
        0 <= i < a.len(),
        i < b.len(),
        a[i] == b[i],
    ensures
        text_order(a.skip(i), b.skip(i)) == text_order(a.skip(i + 1), b.skip(i + 1)),
{
    assert(a.skip(i).drop_first() == a.skip(i + 1));
    assert(b.skip(i).drop_first() == b.skip(i + 1));
}

/// Compares two strings as `str`'s `Ord` does: -1, 0 or 1.
pub fn compare_text(a: &[char], b: &[char]) -> (res: i8)
    ensures
        res == text_order(a@, b@),
        text_order(b@, a@) == 0 - res,
        (res == 0) == (a@ == b@),
{
    proof {
        lemma_text_order(a@, b@);
        assert(a@.skip(0) == a@);
        assert(b@.skip(0) == b@);
    }
    let mut i: usize = 0;
    while i < a.len() && i < b.len()
        invariant
            i <= a@.len(),
            i <= b@.len(),
            text_order(a@, b@) == text_order(a@.skip(i as int), b@.skip(i as int)),
            text_order(b@, a@) == -text_order(a@, b@),
            (text_order(a@, b@) == 0) == (a@ == b@),
        decreases a.len() - i,
    {
        if a[i] < b[i] {
            return -1;
        }
        if a[i] > b[i] {
            return 1;
        }
        proof {
            lemma_text_order_skip(a@, b@, i as int);
        }
        i = i + 1;
    }
    if i < a.len() {
        1
    } else if i < b.len() {
        -1
    } else {
        0
    }
}

/// Compares two strings as `str`'s `Ord` does: -1, 0 or 1.
pub fn compare_strs(a: &str, b: &str) -> (res: i8)
    ensures
        res == text_order(a@, b@),
        text_order(b@, a@) == 0 - res,
        (res == 0) == (a@ == b@),
{
    let x = chars_of(a);
    let y = chars_of(b);
    compare_text(&x, &y)
}


pub open spec fn lacks(s: Seq<char>, c: char) -> bool {
    forall|j: int| 0 <= j < s.len() ==> #[trigger] s[j] != c
}

proof fn lemma_trim_start_lacks(s: Seq<char>, c: char)
    requires
        lacks(s, c),
    ensures
        lacks(trim_start(s), c),
    decreases s.len(),
{
    if s.len() > 0 && is_white_space(s[0]) {
        assert(lacks(s.drop_first(), c)) by {
            assert forall|j: int| 0 <= j < s.drop_first().len() implies #[trigger] s.drop_first()[j] != c by {
                assert(s.drop_first()[j] == s[j + 1]);
            }
        }
        lemma_trim_start_lacks(s.drop_first(), c);
    }
}

proof fn lemma_trim_end_lacks(s: Seq<char>, c: char)
    requires
        lacks(s, c),
    ensures
        lacks(trim_end(s), c),
    decreases s.len(),
{
    if s.len() > 0 && is_white_space(s.last()) {
        assert(lacks(s.drop_last(), c)) by {
            assert forall|j: int| 0 <= j < s.drop_last().len() implies #[trigger] s.drop_last()[j] != c by {
                assert(s.drop_last()[j] == s[j]);
            }
        }
        lemma_trim_end_lacks(s.drop_last(), c);
    }
}

/// Trimming adds no character.
pub proof fn lemma_trim_lacks(s: Seq<char>, c: char)
    requires
        lacks(s, c),
    ensures
        lacks(trim(s), c),
{
    lemma_trim_start_lacks(s, c);
    lemma_trim_end_lacks(trim_start(s), c);
}

proof fn lemma_trim_start_first(s: Seq<char>)
    ensures
        trim_start(s).len() > 0 ==> !is_white_space(trim_start(s)[0]),
    decreases s.len(),
{
    if s.len() > 0 && is_white_space(s[0]) {
        lemma_trim_start_first(s.drop_first());
    }
}

proof fn lemma_trim_end_prefix(s: Seq<char>)
    ensures
        trim_end(s).len() <= s.len(),
        trim_end(s) == s.take(trim_end(s).len() as int),
        trim_end(s).len() > 0 ==> !is_white_space(trim_end(s).last()),
    decreases s.len(),
{
    if s.len() > 0 && is_white_space(s.last()) {
        lemma_trim_end_prefix(s.drop_last());
        assert(s.drop_last().take(trim_end(s).len() as int) == s.take(trim_end(s).len() as int));
    } else {
        assert(s.take(s.len() as int) == s);
    }
}

/// A trimmed text neither starts nor ends with white space.
pub proof fn lemma_trim_ends(s: Seq<char>)
    ensures
        trim(s).len() > 0 ==> !is_white_space(trim(s)[0]) && !is_white_space(trim(s).last()),
{
    lemma_trim_start_first(s);
    lemma_trim_end_prefix(trim_start(s));
    if trim(s).len() > 0 {
        assert(trim(s)[0] == trim_start(s)[0]);
    }
}

/// Leading white space does not change what trimming gives.
pub proof fn lemma_trim_after_space(v: Seq<char>)
    ensures
        trim(seq![' '] + v) == trim(v),
{
    let x = seq![' '] + v;
    assert(x.drop_first() == v);
}

/// Text that neither starts nor ends with white space is its own trim; with
/// one more space at the end, too.
pub proof fn lemma_trim_fixed(s: Seq<char>)
    requires
        s.len() > 0,
        !is_white_space(s[0]),
        !is_white_space(s.last()),
    ensures
        trim(s) == s,
        trim(s.push(' ')) == s,
{
    assert(s.push(' ')[0] == s[0]);
    assert(s.push(' ').drop_last() == s);
}


/// Joining with `\n` takes the first part, a line feed, and the rest joined.
pub proof fn lemma_join_front(parts: Seq<Seq<char>>, sep: Seq<char>)
    requires
        parts.len() >= 2,
    ensures
        join(parts, sep) == parts[0] + sep + join(parts.drop_first(), sep),
    decreases parts.len(),
{
    let a = parts.drop_last();
    let b = parts.drop_first();
    if parts.len() == 2 {
        assert(a.len() == 1);
        assert(join(a, sep) == a[0]);
        assert(b.len() == 1);
        assert(join(b, sep) == b[0]);
        assert(b[0] == parts.last());
        assert(a[0] == parts[0]);
        assert(join(parts, sep) =~= parts[0] + sep + join(b, sep));
    } else {
        lemma_join_front(a, sep);
        assert(a.drop_first() == b.drop_last());
        assert(b.last() == parts.last());
        assert(a[0] == parts[0]);
        assert(join(b, sep) == join(b.drop_last(), sep) + sep + b.last());
        assert(join(parts, sep) == join(a, sep) + sep + parts.last());
        assert(join(parts, sep) =~= parts[0] + sep + join(b, sep));
    }
}

/// Splitting lines that were joined with `\n` gives them back, when none
/// holds a line feed, none but the last ends with a carriage return, and the
/// last is not empty.
pub proof fn lemma_lines_of_join(parts: Seq<Seq<char>>)
    requires
        forall|i: int| 0 <= i < parts.len() ==> lacks(#[trigger] parts[i], '\n'),
        forall|i: int| 0 <= i < parts.len() - 1 ==> !ends_with(#[trigger] parts[i], '\r'),
        parts.len() > 0 ==> parts.last().len() > 0,
    ensures
        lines(join(parts, seq!['\n'])) == parts,
    decreases parts.len(),
{
    if parts.len() == 0 {
        assert(join(parts, seq!['\n']) == Seq::<char>::empty());
    } else if parts.len() == 1 {
        let p = parts[0];
        lemma_find_char_none(p, '\n');
        assert(lines(p) == seq![p]);
        assert(parts =~= seq![p]);
    } else {
        let rest = parts.drop_first();
        assert forall|i: int| 0 <= i < rest.len() implies lacks(#[trigger] rest[i], '\n') by {
            assert(rest[i] == parts[i + 1]);
        }
        assert forall|i: int| 0 <= i < rest.len() - 1 implies !ends_with(#[trigger] rest[i], '\r') by {
            assert(rest[i] == parts[i + 1]);
        }
        assert(rest.last() == parts.last());
        lemma_lines_of_join(rest);
        lemma_join_front(parts, seq!['\n']);
        let p = parts[0];
        let j = join(parts, seq!['\n']);
        let tail = join(rest, seq!['\n']);
        assert(j == p + seq!['\n'] + tail);
        assert(lacks(p, '\n'));
        assert(is_first_index(j, '\n', p.len() as int)) by {
            assert forall|k: int| 0 <= k < p.len() implies j[k] != '\n' by {
                assert(j[k] == p[k]);
            }
        }
        lemma_find_char_some(j, '\n', p.len() as int);
        assert(j.take(p.len() as int) == p);
        assert(j.skip(p.len() as int + 1) == tail);
        assert(!ends_with(p, '\r'));
        assert(strip_cr(p) == p);
        assert(parts =~= seq![p] + rest);
    }
}

/// Text without carriage returns and without a line feed at its end is its
/// lines joined with line feeds; its last line is not empty.
pub proof fn lemma_join_of_lines(s: Seq<char>)
    requires
        lacks(s, '\r'),
        !ends_with(s, '\n'),
    ensures
        join(lines(s), seq!['\n']) == s,
        lines(s).len() > 0 ==> lines(s).last().len() > 0,
    decreases s.len(),
{
    if s.len() > 0 {
        lemma_find_char_range(s, '\n');
        match find_char(s, '\n') {
            Some(i) => {
                let p = s.take(i);
                let rest = s.skip(i + 1);
                assert(rest.len() > 0) by {
                    if rest.len() == 0 {
                        assert(i == s.len() - 1);
                    }
                }
                assert(lacks(rest, '\r')) by {
                    assert forall|j: int| 0 <= j < rest.len() implies #[trigger] rest[j] != '\r' by {
                        assert(rest[j] == s[i + 1 + j]);
                    }
                }
                assert(rest.last() == s.last());
                lemma_join_of_lines(rest);
                let lr = lines(rest);
                lemma_find_char_range(rest, '\n');
                assert(lr.len() > 0);
                assert(!ends_with(p, '\r')) by {
                    if p.len() > 0 {
                        assert(p.last() == s[i - 1]);
                    }
                }
                assert(strip_cr(p) == p);
                let ls = lines(s);
                assert(ls == seq![p] + lr);
                assert(ls.drop_first() =~= lr);
                assert(ls[0] == p);
                if lr.len() >= 1 {
                    lemma_join_front(ls, seq!['\n']);
                }
                assert(s =~= p + seq!['\n'] + rest);
                assert(ls.last() == lr.last());
            },
            None => {
                assert(lines(s) == seq![s]);
            },
        }
    }
}

/// Every line of `s` is a piece of `s` between line feeds: it holds no line
/// feed, and no character that `s` lacks.
pub proof fn lemma_lines_lack(s: Seq<char>, c: char)
    ensures
        forall|i: int| 0 <= i < lines(s).len() ==> lacks(#[trigger] lines(s)[i], '\n'),
        lacks(s, c) ==> forall|i: int| 0 <= i < lines(s).len() ==> lacks(#[trigger] lines(s)[i], c),
    decreases s.len(),
{
    if s.len() > 0 {
        lemma_find_char_range(s, '\n');
        match find_char(s, '\n') {
            Some(i) => {
                let rest = s.skip(i + 1);
                lemma_lines_lack(rest, c);
                let first = strip_cr(s.take(i));
                assert(lacks(first, '\n')) by {
                    assert forall|j: int| 0 <= j < first.len() implies #[trigger] first[j] != '\n' by {
                        assert(first[j] == s[j]);
                    }
                }
                if lacks(s, c) {
                    assert(lacks(rest, c)) by {
                        assert forall|j: int| 0 <= j < rest.len() implies #[trigger] rest[j] != c by {
                            assert(rest[j] == s[i + 1 + j]);
                        }
                    }
                    assert(lacks(first, c)) by {
                        assert forall|j: int| 0 <= j < first.len() implies #[trigger] first[j] != c by {
                            assert(first[j] == s[j]);
                        }
                    }
                }
                let ls = lines(s);
                assert(ls == seq![first] + lines(rest));
                assert forall|k: int| 0 <= k < ls.len() implies lacks(#[trigger] ls[k], '\n') by {
                    if k > 0 {
                        assert(ls[k] == lines(rest)[k - 1]);
                    }
                }
                if lacks(s, c) {
                    assert forall|k: int| 0 <= k < ls.len() implies lacks(#[trigger] ls[k], c) by {
                        if k > 0 {
                            assert(ls[k] == lines(rest)[k - 1]);
                        }
                    }
                }
            },
            None => {
                assert(lines(s) == seq![s]);
                lemma_find_char_none_lacks(s, '\n');
                assert(lacks(s, '\n'));
            },
        }
    }
}

} // verus!
