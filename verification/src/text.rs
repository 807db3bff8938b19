//! Character-level reading and writing of the text the installer handles.
//!
//! Every reader here states the `str` method it stands for as a spec function
//! over the characters, so a parser built on these says what it does in the
//! terms `lines`, `split_whitespace`, `trim` and `split` use.

use vstd::prelude::*;

verus! {

// ---------------------------------------------------------------------------
// Characters

/// The characters `char::is_whitespace` accepts, which are those Unicode
/// gives the `White_Space` property.
pub open spec fn is_ws(c: char) -> bool {
    ||| c == '\t'
    ||| c == '\n'
    ||| c == '\u{0B}'
    ||| c == '\u{0C}'
    ||| c == '\r'
    ||| c == ' '
    ||| c == '\u{85}'
    ||| c == '\u{A0}'
    ||| c == '\u{1680}'
    ||| ('\u{2000}' <= c && c <= '\u{200A}')
    ||| c == '\u{2028}'
    ||| c == '\u{2029}'
    ||| c == '\u{202F}'
    ||| c == '\u{205F}'
    ||| c == '\u{3000}'
}

/// Whether a character is whitespace, as `char::is_whitespace` says.
pub fn whitespace(c: char) -> (r: bool)
    ensures
        r == is_ws(c),
{
    c == '\t' || c == '\n' || c == '\u{0B}' || c == '\u{0C}' || c == '\r' || c == ' '
        || c == '\u{85}' || c == '\u{A0}' || c == '\u{1680}' || ('\u{2000}' <= c && c
        <= '\u{200A}') || c == '\u{2028}' || c == '\u{2029}' || c == '\u{202F}' || c
        == '\u{205F}' || c == '\u{3000}'
}

pub open spec fn is_digit(c: char) -> bool {
    '0' <= c && c <= '9'
}

pub open spec fn digit_value(c: char) -> nat {
    (c as int - '0' as int) as nat
}

/// The character `char::to_ascii_lowercase` gives.
pub open spec fn lower(c: char) -> char {
    if 'A' <= c && c <= 'Z' {
        ((c as int) + 32) as char
    } else {
        c
    }
}

pub fn lower_char(c: char) -> (r: char)
    ensures
        r == lower(c),
{
    if 'A' <= c && c <= 'Z' {
        let code: u8 = (c as u32 - 'A' as u32) as u8 + 97;
        code as char
    } else {
        c
    }
}

pub open spec fn lower_seq(s: Seq<char>) -> Seq<char> {
    s.map_values(|c: char| lower(c))
}

/// Whether two texts are equal once ASCII letters are folded to lower case,
/// which is what `eq_ignore_ascii_case` compares.
pub open spec fn same_ignoring_case(a: Seq<char>, b: Seq<char>) -> bool {
    lower_seq(a) == lower_seq(b)
}

// ---------------------------------------------------------------------------
// Reading a `str`

/// Reads a string as the sequence of characters it holds.
pub fn chars_of(s: &str) -> (out: Vec<char>)
    ensures
        out@ == s@,
{
    let mut out: Vec<char> = Vec::new();
    for c in it: s.chars()
        invariant
            it.seq() == s@,
            out@ == it.seq().take(it.index() as int),
    {
        out.push(c);
    }
    out
}

/// Appends one character. `String::push` writes the character's encoding at
/// the end, so the string's characters gain it last.
#[verifier::external_body]
fn push_char(s: &mut String, c: char)
    ensures
        final(s)@ == old(s)@.push(c),
{
    s.push(c);
}

/// Writes a run of characters as a string.
pub fn string_of(chars: &[char]) -> (s: String)
    ensures
        s@ == chars@,
{
    let mut s = String::new();
    let mut i: usize = 0;
    while i < chars.len()
        invariant
            i <= chars.len(),
            s@ == chars@.take(i as int),
        decreases chars.len() - i,
    {
        push_char(&mut s, chars[i]);
        i = i + 1;
        assert(s@ =~= chars@.take(i as int));
    }
    assert(chars@.take(i as int) =~= chars@);
    s
}

/// Copies a string.
pub fn owned(s: &str) -> (out: String)
    ensures
        out@ == s@,
{
    String::from_str(s)
}

/// Joins two texts.
pub fn cat(a: &str, b: &str) -> (out: String)
    ensures
        out@ == a@ + b@,
{
    let mut out = String::from_str(a);
    out.append(b);
    out
}

/// Joins three texts.
pub fn cat3(a: &str, b: &str, c: &str) -> (out: String)
    ensures
        out@ == a@ + b@ + c@,
{
    let mut out = String::from_str(a);
    out.append(b);
    out.append(c);
    out
}

/// Joins four texts.
pub fn cat4(a: &str, b: &str, c: &str, d: &str) -> (out: String)
    ensures
        out@ == a@ + b@ + c@ + d@,
{
    let mut out = String::from_str(a);
    out.append(b);
    out.append(c);
    out.append(d);
    out
}

/// Joins five texts.
pub fn cat5(a: &str, b: &str, c: &str, d: &str, e: &str) -> (out: String)
    ensures
        out@ == a@ + b@ + c@ + d@ + e@,
{
    let mut out = String::from_str(a);
    out.append(b);
    out.append(c);
    out.append(d);
    out.append(e);
    out
}

/// Whether two character runs are equal.
pub fn chars_eq(a: &[char], b: &[char]) -> (r: bool)
    ensures
        r == (a@ == b@),
{
    if a.len() != b.len() {
        return false;
    }
    let mut i: usize = 0;
    while i < a.len()
        invariant
            a.len() == b.len(),
            i <= a.len(),
            forall|j: int| 0 <= j < i ==> a@[j] == b@[j],
        decreases a.len() - i,
    {
        if a[i] != b[i] {
            return false;
        }
        i = i + 1;
    }
    assert(a@ =~= b@);
    true
}

/// Whether two strings are equal.
pub fn str_eq(a: &str, b: &str) -> (r: bool)
    ensures
        r == (a@ == b@),
{
    let a = chars_of(a);
    let b = chars_of(b);
    chars_eq(a.as_slice(), b.as_slice())
}

/// Whether two strings are equal once ASCII letters are folded, as
/// `eq_ignore_ascii_case` compares them.
pub fn chars_eq_ignore_case(a: &[char], b: &[char]) -> (r: bool)
    ensures
        r == same_ignoring_case(a@, b@),
{
    if a.len() != b.len() {
        assert(lower_seq(a@).len() != lower_seq(b@).len());
        return false;
    }
    let mut i: usize = 0;
    while i < a.len()
        invariant
            a.len() == b.len(),
            i <= a.len(),
            forall|j: int| 0 <= j < i ==> lower(a@[j]) == lower(b@[j]),
        decreases a.len() - i,
    {
        if lower_char(a[i]) != lower_char(b[i]) {
            assert(lower_seq(a@)[i as int] != lower_seq(b@)[i as int]);
            return false;
        }
        i = i + 1;
    }
    assert(lower_seq(a@) =~= lower_seq(b@));
    true
}

pub fn str_eq_ignore_case(a: &str, b: &str) -> (r: bool)
    ensures
        r == same_ignoring_case(a@, b@),
{
    let a = chars_of(a);
    let b = chars_of(b);
    chars_eq_ignore_case(a.as_slice(), b.as_slice())
}

/// Whether `p` begins `s`, as `starts_with` asks.
pub fn chars_start_with(s: &[char], p: &[char]) -> (r: bool)
    ensures
        r == p@.is_prefix_of(s@),
{
    if p.len() > s.len() {
        return false;
    }
    let mut i: usize = 0;
    while i < p.len()
        invariant
            p.len() <= s.len(),
            i <= p.len(),
            forall|j: int| 0 <= j < i ==> p@[j] == s@[j],
        decreases p.len() - i,
    {
        if p[i] != s[i] {
            return false;
        }
        i = i + 1;
    }
    true
}

pub fn starts_with(s: &str, p: &str) -> (r: bool)
    ensures
        r == p@.is_prefix_of(s@),
{
    let s = chars_of(s);
    let p = chars_of(p);
    chars_start_with(s.as_slice(), p.as_slice())
}

/// Whether `p` ends `s`, as `ends_with` asks.
pub fn chars_end_with(s: &[char], p: &[char]) -> (r: bool)
    ensures
        r == p@.is_suffix_of(s@),
{
    if p.len() > s.len() {
        return false;
    }
    let off = s.len() - p.len();
    let mut i: usize = 0;
    while i < p.len()
        invariant
            p.len() <= s.len(),
            off == s.len() - p.len(),
            i <= p.len(),
            forall|j: int| 0 <= j < i ==> p@[j] == s@[off + j],
        decreases p.len() - i,
    {
        if p[i] != s[off + i] {
            return false;
        }
        i = i + 1;
    }
    true
}

pub fn ends_with(s: &str, p: &str) -> (r: bool)
    ensures
        r == p@.is_suffix_of(s@),
{
    let s = chars_of(s);
    let p = chars_of(p);
    chars_end_with(s.as_slice(), p.as_slice())
}

/// The part of `s` after the prefix `p`, where `s` starts with it.
pub open spec fn strip_prefix(s: Seq<char>, p: Seq<char>) -> Option<Seq<char>> {
    if p.is_prefix_of(s) {
        Some(s.skip(p.len() as int))
    } else {
        None
    }
}

pub fn chars_strip_prefix(s: &[char], p: &[char]) -> (r: Option<Vec<char>>)
    ensures
        r.is_some() == p@.is_prefix_of(s@),
        r matches Some(rest) ==> rest@ == s@.skip(p@.len() as int),
{
    if chars_start_with(s, p) {
        Some(slice_from(s, p.len()))
    } else {
        None
    }
}

/// The characters from `at` to the end.
pub fn slice_from(s: &[char], at: usize) -> (out: Vec<char>)
    requires
        at <= s.len(),
    ensures
        out@ == s@.skip(at as int),
{
    slice_range(s, at, s.len())
}

/// The characters from `from` up to `to`.
pub fn slice_range(s: &[char], from: usize, to: usize) -> (out: Vec<char>)
    requires
        from <= to <= s.len(),
    ensures
        out@ == s@.subrange(from as int, to as int),
{
    let mut out: Vec<char> = Vec::new();
    let mut i: usize = from;
    while i < to
        invariant
            from <= i <= to <= s.len(),
            out@ == s@.subrange(from as int, i as int),
        decreases to - i,
    {
        out.push(s[i]);
        i = i + 1;
        assert(out@ =~= s@.subrange(from as int, i as int));
    }
    out
}

/// Whether `c` occurs in `s`.
pub fn chars_contain(s: &[char], c: char) -> (r: bool)
    ensures
        r == s@.contains(c),
{
    let mut i: usize = 0;
    while i < s.len()
        invariant
            i <= s.len(),
            forall|j: int| 0 <= j < i ==> s@[j] != c,
        decreases s.len() - i,
    {
        if s[i] == c {
            assert(s@[i as int] == c);
            return true;
        }
        i = i + 1;
    }
    false
}

// ---------------------------------------------------------------------------
// Trimming

pub open spec fn trim_start(s: Seq<char>) -> Seq<char>
    decreases s.len(),
{
    if s.len() > 0 && is_ws(s[0]) {
        trim_start(s.drop_first())
    } else {
        s
    }
}

pub open spec fn trim_end(s: Seq<char>) -> Seq<char>
    decreases s.len(),
{
    if s.len() > 0 && is_ws(s.last()) {
        trim_end(s.drop_last())
    } else {
        s
    }
}

/// What `str::trim` leaves.
pub open spec fn trim(s: Seq<char>) -> Seq<char> {
    trim_end(trim_start(s))
}

proof fn lemma_trim_start_skip(s: Seq<char>, i: int)
    requires
        0 <= i <= s.len(),
        forall|j: int| 0 <= j < i ==> is_ws(#[trigger] s[j]),
    ensures
        trim_start(s) == trim_start(s.skip(i)),
    decreases i,
{
    if i > 0 {
        assert(s.drop_first() =~= s.skip(1));
        lemma_trim_start_skip(s.drop_first(), i - 1);
        assert(s.drop_first().skip(i - 1) =~= s.skip(i));
    } else {
        assert(s.skip(0) =~= s);
    }
}

proof fn lemma_trim_end_take(s: Seq<char>, i: int)
    requires
        0 <= i <= s.len(),
        forall|j: int| i <= j < s.len() ==> is_ws(#[trigger] s[j]),
    ensures
        trim_end(s) == trim_end(s.take(i)),
    decreases s.len() - i,
{
    if i < s.len() {
        lemma_trim_end_take(s.drop_last(), i);
        assert(s.drop_last().take(i) =~= s.take(i));
    } else {
        assert(s.take(i) =~= s);
    }
}

/// The characters `str::trim` leaves.
pub fn chars_trim(s: &[char]) -> (out: Vec<char>)
    ensures
        out@ == trim(s@),
{
    let mut a: usize = 0;
    while a < s.len() && whitespace(s[a])
        invariant
            a <= s.len(),
            forall|j: int| 0 <= j < a ==> is_ws(#[trigger] s@[j]),
        decreases s.len() - a,
    {
        a = a + 1;
    }
    proof {
        lemma_trim_start_skip(s@, a as int);
    }
    assert(trim_start(s@.skip(a as int)) == s@.skip(a as int));
    let mut b: usize = s.len();
    while b > a && whitespace(s[b - 1])
        invariant
            a <= b <= s.len(),
            forall|j: int| b <= j < s.len() ==> is_ws(#[trigger] s@[j]),
        decreases b - a,
    {
        b = b - 1;
    }
    let ghost t = s@.skip(a as int);
    proof {
        assert forall|j: int| (b - a) <= j < t.len() implies is_ws(#[trigger] t[j]) by {
            assert(t[j] == s@[a + j]);
        }
        lemma_trim_end_take(t, (b - a) as int);
        assert(t.take((b - a) as int) =~= s@.subrange(a as int, b as int));
        let u = s@.subrange(a as int, b as int);
        if u.len() > 0 {
            assert(u.last() == s@[b - 1]);
        }
    }
    slice_range(s, a, b)
}

pub fn trim_str(s: &str) -> (out: String)
    ensures
        out@ == trim(s@),
{
    let c = chars_of(s);
    let t = chars_trim(c.as_slice());
    string_of(t.as_slice())
}

// ---------------------------------------------------------------------------
// Lines

/// The texts a list of character runs holds.
pub open spec fn views(v: Seq<Vec<char>>) -> Seq<Seq<char>> {
    v.map_values(|x: Vec<char>| x@)
}

/// Drops one carriage return that ends a line.
pub open spec fn strip_cr(l: Seq<char>) -> Seq<char> {
    if l.len() > 0 && l.last() == '\r' {
        l.drop_last()
    } else {
        l
    }
}

/// The finished lines and the line still open, read left to right.
pub open spec fn line_scan(s: Seq<char>) -> (Seq<Seq<char>>, Seq<char>)
    decreases s.len(),
{
    if s.len() == 0 {
        (seq![], seq![])
    } else {
        let (done, cur) = line_scan(s.drop_last());
        if s.last() == '\n' {
            (done.push(strip_cr(cur)), seq![])
        } else {
            (done, cur.push(s.last()))
        }
    }
}

/// What `str::lines` yields: the text split at each `\n`, a `\r` before
/// that `\n` dropped, and no line after a final `\n`.
pub open spec fn lines(s: Seq<char>) -> Seq<Seq<char>> {
    let (done, cur) = line_scan(s);
    if cur.len() == 0 {
        done
    } else {
        done.push(cur)
    }
}

/// Reads `s` as `str::lines` reads it.
pub fn chars_lines(s: &[char]) -> (out: Vec<Vec<char>>)
    ensures
        views(out@) == lines(s@),
{
    let mut done: Vec<Vec<char>> = Vec::new();
    let mut cur: Vec<char> = Vec::new();
    let mut i: usize = 0;
    while i < s.len()
        invariant
            i <= s.len(),
            (views(done@), cur@) == line_scan(s@.take(i as int)),
        decreases s.len() - i,
    {
        let ghost before = s@.take(i as int);
        assert(s@.take(i + 1).drop_last() =~= before);
        if s[i] == '\n' {
            let mut line = cur;
            if line.len() > 0 && line[line.len() - 1] == '\r' {
                line.pop();
            }
            assert(line@ == strip_cr(line_scan(before).1));
            let ghost d = views(done@);
            done.push(line);
            assert(views(done@) =~= d.push(line@));
            cur = Vec::new();
        } else {
            cur.push(s[i]);
        }
        i = i + 1;
    }
    assert(s@.take(i as int) =~= s@);
    if cur.len() > 0 {
        let ghost d = views(done@);
        done.push(cur);
        assert(views(done@) =~= d.push(line_scan(s@).1));
    }
    done
}

// ---------------------------------------------------------------------------
// Words

/// The finished words and the word still open, read left to right.
pub open spec fn word_scan(s: Seq<char>) -> (Seq<Seq<char>>, Seq<char>)
    decreases s.len(),
{
    if s.len() == 0 {
        (seq![], seq![])
    } else {
        let (done, cur) = word_scan(s.drop_last());
        if is_ws(s.last()) {
            if cur.len() > 0 {
                (done.push(cur), seq![])
            } else {
                (done, cur)
            }
        } else {
            (done, cur.push(s.last()))
        }
    }
}

/// What `str::split_whitespace` yields: the maximal runs of characters that
/// are not whitespace, in order.
pub open spec fn words(s: Seq<char>) -> Seq<Seq<char>> {
    let (done, cur) = word_scan(s);
    if cur.len() == 0 {
        done
    } else {
        done.push(cur)
    }
}

/// Reads `s` as `str::split_whitespace` reads it.
pub fn chars_words(s: &[char]) -> (out: Vec<Vec<char>>)
    ensures
        views(out@) == words(s@),
{
    let mut done: Vec<Vec<char>> = Vec::new();
    let mut cur: Vec<char> = Vec::new();
    let mut i: usize = 0;
    while i < s.len()
        invariant
            i <= s.len(),
            (views(done@), cur@) == word_scan(s@.take(i as int)),
        decreases s.len() - i,
    {
        let ghost before = s@.take(i as int);
        assert(s@.take(i + 1).drop_last() =~= before);
        if whitespace(s[i]) {
            if cur.len() > 0 {
                let ghost d = views(done@);
                let word = cur;
                done.push(word);
                assert(views(done@) =~= d.push(word@));
                cur = Vec::new();
            }
        } else {
            cur.push(s[i]);
        }
        i = i + 1;
    }
    assert(s@.take(i as int) =~= s@);
    if cur.len() > 0 {
        let ghost d = views(done@);
        done.push(cur);
        assert(views(done@) =~= d.push(word_scan(s@).1));
    }
    done
}

// ---------------------------------------------------------------------------
// Splitting at one character

/// The pieces before and the piece still open, read left to right.
pub open spec fn split_scan(s: Seq<char>, sep: char) -> (Seq<Seq<char>>, Seq<char>)
    decreases s.len(),
{
    if s.len() == 0 {
        (seq![], seq![])
    } else {
        let (done, cur) = split_scan(s.drop_last(), sep);
        if s.last() == sep {
            (done.push(cur), seq![])
        } else {
            (done, cur.push(s.last()))
        }
    }
}

/// What `str::split` at one character yields, the empty pieces included.
pub open spec fn split(s: Seq<char>, sep: char) -> Seq<Seq<char>> {
    let (done, cur) = split_scan(s, sep);
    done.push(cur)
}

pub fn chars_split(s: &[char], sep: char) -> (out: Vec<Vec<char>>)
    ensures
        views(out@) == split(s@, sep),
{
    let mut done: Vec<Vec<char>> = Vec::new();
    let mut cur: Vec<char> = Vec::new();
    let mut i: usize = 0;
    while i < s.len()
        invariant
            i <= s.len(),
            (views(done@), cur@) == split_scan(s@.take(i as int), sep),
        decreases s.len() - i,
    {
        let ghost before = s@.take(i as int);
        assert(s@.take(i + 1).drop_last() =~= before);
        if s[i] == sep {
            let ghost d = views(done@);
            let piece = cur;
            done.push(piece);
            assert(views(done@) =~= d.push(piece@));
            cur = Vec::new();
        } else {
            cur.push(s[i]);
        }
        i = i + 1;
    }
    assert(s@.take(i as int) =~= s@);
    let ghost d = views(done@);
    done.push(cur);
    assert(views(done@) =~= d.push(split_scan(s@, sep).1));
    done
}

/// The index of the first `c` in `s`.
pub open spec fn first_of(s: Seq<char>, c: char) -> Option<int>
    decreases s.len(),
{
    if s.len() == 0 {
        None
    } else if s[0] == c {
        Some(0)
    } else {
        match first_of(s.drop_first(), c) {
            Some(i) => Some(i + 1),
            None => None,
        }
    }
}

proof fn lemma_first_of(s: Seq<char>, c: char, i: int)
    requires
        0 <= i <= s.len(),
        forall|j: int| 0 <= j < i ==> s[j] != c,
    ensures
        i < s.len() && s[i] == c ==> first_of(s, c) == Some(i),
        i == s.len() ==> first_of(s, c) is None,
    decreases i,
{
    if i > 0 {
        lemma_first_of(s.drop_first(), c, i - 1);
    }
}

/// What `str::split_once` at one character gives.
pub open spec fn split_once(s: Seq<char>, c: char) -> Option<(Seq<char>, Seq<char>)> {
    match first_of(s, c) {
        Some(i) => Some((s.take(i), s.skip(i + 1))),
        None => None,
    }
}

pub fn chars_split_once(s: &[char], c: char) -> (out: Option<(Vec<char>, Vec<char>)>)
    ensures
        match split_once(s@, c) {
            Some((a, b)) => out matches Some(p) && p.0@ == a && p.1@ == b,
            None => out is None,
        },
{
    let mut i: usize = 0;
    while i < s.len()
        invariant
            i <= s.len(),
            forall|j: int| 0 <= j < i ==> s@[j] != c,
        decreases s.len() - i,
    {
        if s[i] == c {
            proof {
                lemma_first_of(s@, c, i as int);
            }
            return Some((slice_range(s, 0, i), slice_from(s, i + 1)));
        }
        i = i + 1;
    }
    proof {
        lemma_first_of(s@, c, i as int);
    }
    None
}

// ---------------------------------------------------------------------------
// Joining

/// The pieces joined with `sep` between each two, as `join` writes them.
pub open spec fn join(parts: Seq<Seq<char>>, sep: Seq<char>) -> Seq<char>
    decreases parts.len(),
{
    if parts.len() == 0 {
        seq![]
    } else if parts.len() == 1 {
        parts[0]
    } else {
        join(parts.drop_last(), sep) + sep + parts.last()
    }
}

pub fn join_strings(parts: &Vec<String>, sep: &str) -> (out: String)
    ensures
        out@ == join(parts.deep_view(), sep@),
{
    let mut out = String::new();
    let mut i: usize = 0;
    while i < parts.len()
        invariant
            i <= parts.len(),
            out@ == join(parts.deep_view().take(i as int), sep@),
        decreases parts.len() - i,
    {
        let ghost before = parts.deep_view().take(i as int);
        assert(parts.deep_view().take(i + 1).drop_last() =~= before);
        if i > 0 {
            out.append(sep);
        } else {
            assert(before.len() == 0);
        }
        out.append(parts[i].as_str());
        i = i + 1;
    }
    assert(parts.deep_view().take(i as int) =~= parts.deep_view());
    out
}

// ---------------------------------------------------------------------------
// Numbers

pub open spec fn digit_char(d: nat) -> char {
    if d == 0 {
        '0'
    } else if d == 1 {
        '1'
    } else if d == 2 {
        '2'
    } else if d == 3 {
        '3'
    } else if d == 4 {
        '4'
    } else if d == 5 {
        '5'
    } else if d == 6 {
        '6'
    } else if d == 7 {
        '7'
    } else if d == 8 {
        '8'
    } else {
        '9'
    }
}

/// A number written in decimal, as `Display` writes an unsigned integer.
pub open spec fn decimal(n: nat) -> Seq<char>
    decreases n,
{
    if n < 10 {
        seq![digit_char(n)]
    } else {
        decimal(n / 10).push(digit_char(n % 10))
    }
}

fn digit_of(d: u64) -> (c: char)
    requires
        d < 10,
    ensures
        c == digit_char(d as nat),
{
    if d == 0 {
        '0'
    } else if d == 1 {
        '1'
    } else if d == 2 {
        '2'
    } else if d == 3 {
        '3'
    } else if d == 4 {
        '4'
    } else if d == 5 {
        '5'
    } else if d == 6 {
        '6'
    } else if d == 7 {
        '7'
    } else if d == 8 {
        '8'
    } else {
        '9'
    }
}

/// Writes a number in decimal.
pub fn decimal_u64(n: u64) -> (s: String)
    ensures
        s@ == decimal(n as nat),
    decreases n,
{
    if n < 10 {
        let mut s = String::new();
        push_char(&mut s, digit_of(n));
        assert(s@ =~= seq![digit_char(n as nat)]);
        s
    } else {
        let mut s = decimal_u64(n / 10);
        push_char(&mut s, digit_of(n % 10));
        s
    }
}

pub fn decimal_usize(n: usize) -> (s: String)
    ensures
        s@ == decimal(n as nat),
{
    decimal_u64(n as u64)
}

pub fn decimal_u32(n: u32) -> (s: String)
    ensures
        s@ == decimal(n as nat),
{
    decimal_u64(n as u64)
}


/// The value of a run of decimal digits, most significant first.
pub open spec fn digits_value(s: Seq<char>) -> nat
    decreases s.len(),
{
    if s.len() == 0 {
        0
    } else {
        digits_value(s.drop_last()) * 10 + digit_value(s.last())
    }
}

pub open spec fn all_digits(s: Seq<char>) -> bool {
    forall|i: int| 0 <= i < s.len() ==> is_digit(#[trigger] s[i])
}

/// The value `u64::from_str` reads from a string: an optional `+`, then at
/// least one decimal digit and nothing else. `None` where it refuses the text
/// or the value does not fit in a `u64`.
pub open spec fn u64_text(s: Seq<char>) -> Option<u64> {
    let body = if s.len() > 0 && s[0] == '+' { s.drop_first() } else { s };
    if body.len() > 0 && all_digits(body) && digits_value(body) <= u64::MAX {
        Some(digits_value(body) as u64)
    } else {
        None
    }
}

/// The decimal digits a text ends in, which is empty where its last
/// character is not a digit.
pub open spec fn trailing_digits(s: Seq<char>) -> Seq<char>
    decreases s.len(),
{
    if s.len() == 0 || !is_digit(s.last()) {
        Seq::empty()
    } else {
        trailing_digits(s.drop_last()).push(s.last())
    }
}

pub proof fn lemma_digits_value_grows(s: Seq<char>, c: char)
    requires
        is_digit(c),
    ensures
        digits_value(s.push(c)) == digits_value(s) * 10 + digit_value(c),
        digits_value(s.push(c)) >= digits_value(s),
{
    assert(s.push(c).drop_last() =~= s);
}

/// A text's trailing digits are the text from some point on.
pub proof fn lemma_trailing_digits(s: Seq<char>)
    ensures
        trailing_digits(s).len() <= s.len(),
        trailing_digits(s) =~= s.subrange(s.len() - trailing_digits(s).len(), s.len() as int),
        all_digits(trailing_digits(s)),
        trailing_digits(s).len() < s.len() ==> !is_digit(s[s.len() - trailing_digits(s).len() - 1]),
    decreases s.len(),
{
    if s.len() > 0 && is_digit(s.last()) {
        lemma_trailing_digits(s.drop_last());
    }
}

/// The digits of `s` from `k` on are its trailing digits when every one of
/// them is a digit and the character before `k`, where there is one, is not.
proof fn lemma_trailing_from(s: Seq<char>, k: int)
    requires
        0 <= k <= s.len(),
        forall|i: int| k <= i < s.len() ==> is_digit(#[trigger] s[i]),
        k > 0 ==> !is_digit(s[k - 1]),
    ensures
        trailing_digits(s) =~= s.subrange(k, s.len() as int),
    decreases s.len(),
{
    if s.len() > k {
        lemma_trailing_from(s.drop_last(), k);
        assert(s.subrange(k, s.len() as int) =~= s.drop_last().subrange(k, s.len() - 1).push(s.last()));
    }
}

/// Reads the decimal digits a text ends in as a number. `None` where it ends
/// in no digit, or in more digits than a `usize` holds.
pub fn trailing_number(s: &[char]) -> (out: Option<usize>)
    ensures
        out == (if trailing_digits(s@).len() > 0 && digits_value(trailing_digits(s@)) <= usize::MAX {
            Some(digits_value(trailing_digits(s@)) as usize)
        } else {
            None
        }),
{
    let mut k: usize = s.len();
    while k > 0 && '0' <= s[k - 1] && s[k - 1] <= '9'
        invariant
            k <= s.len(),
            forall|i: int| k <= i < s.len() ==> is_digit(#[trigger] s@[i]),
        decreases k,
    {
        k = k - 1;
    }
    proof {
        lemma_trailing_from(s@, k as int);
    }
    if k == s.len() {
        return None;
    }
    let ghost digits = s@.subrange(k as int, s@.len() as int);
    let mut value: usize = 0;
    let mut j: usize = k;
    while j < s.len()
        invariant
            k <= j <= s.len(),
            digits == s@.subrange(k as int, s@.len() as int),
            forall|i: int| k <= i < s.len() ==> is_digit(#[trigger] s@[i]),
            value == digits_value(s@.subrange(k as int, j as int)),
            trailing_digits(s@) =~= digits,
        decreases s.len() - j,
    {
        let c = s[j];
        let d = (c as u32 - '0' as u32) as usize;
        proof {
            assert(s@.subrange(k as int, j + 1) =~= s@.subrange(k as int, j as int).push(c));
            lemma_digits_value_grows(s@.subrange(k as int, j as int), c);
            lemma_rest_at_least(s@, k as int, j + 1);
        }
        if value > (usize::MAX - d) / 10 {
            assert(value * 10 + d > usize::MAX) by (nonlinear_arith)
                requires
                    value > (usize::MAX - d) / 10,
                    d <= 9,
            {
            }
            return None;
        }
        value = value * 10 + d;
        j = j + 1;
    }
    assert(s@.subrange(k as int, j as int) =~= digits);
    Some(value)
}

/// Reading further digits never makes the number smaller.
proof fn lemma_rest_at_least(s: Seq<char>, k: int, j: int)
    requires
        0 <= k <= j <= s.len(),
        forall|i: int| k <= i < s.len() ==> is_digit(#[trigger] s[i]),
    ensures
        digits_value(s.subrange(k, s.len() as int)) >= digits_value(s.subrange(k, j)),
    decreases s.len() - j,
{
    if j < s.len() {
        assert(s.subrange(k, j + 1) =~= s.subrange(k, j).push(s[j]));
        lemma_digits_value_grows(s.subrange(k, j), s[j]);
        lemma_rest_at_least(s, k, j + 1);
    }
}

/// Reads a number as `u64::from_str` does.
pub fn parse_u64(s: &[char]) -> (out: Option<u64>)
    ensures
        out == u64_text(s@),
{
    let start: usize = if s.len() > 0 && s[0] == '+' { 1 } else { 0 };
    let ghost body = s@.subrange(start as int, s@.len() as int);
    assert(body =~= (if s@.len() > 0 && s@[0] == '+' { s@.drop_first() } else { s@ }));
    if start == s.len() {
        return None;
    }
    let mut value: u64 = 0;
    let mut j: usize = start;
    while j < s.len()
        invariant
            start <= j <= s.len(),
            start < s.len(),
            body == s@.subrange(start as int, s@.len() as int),
            forall|i: int| start <= i < j ==> is_digit(#[trigger] s@[i]),
            value == digits_value(s@.subrange(start as int, j as int)),
            body =~= (if s@.len() > 0 && s@[0] == '+' { s@.drop_first() } else { s@ }),
        decreases s.len() - j,
    {
        let c = s[j];
        if c < '0' || c > '9' {
            assert(body[j - start] == c);
            assert(!is_digit(body[j - start]));
            assert(!all_digits(body));
            return None;
        }
        let d = (c as u32 - '0' as u32) as u64;
        proof {
            assert(s@.subrange(start as int, j + 1) =~= s@.subrange(start as int, j as int).push(c));
            lemma_digits_value_grows(s@.subrange(start as int, j as int), c);
        }
        if value > (u64::MAX - d) / 10 {
            assert(value * 10 + d > u64::MAX) by (nonlinear_arith)
                requires
                    value > (u64::MAX - d) / 10,
                    d <= 9,
            {
            }
            proof {
                if all_digits(body) {
                    assert forall|i: int| start <= i < s.len() implies is_digit(#[trigger] s@[i]) by {
                        assert(s@[i] == body[i - start]);
                    };
                    lemma_rest_at_least(s@, start as int, j + 1);
                }
            }
            return None;
        }
        value = value * 10 + d;
        j = j + 1;
    }
    assert(s@.subrange(start as int, j as int) =~= body);
    Some(value)
}


// ---------------------------------------------------------------------------
// Order

/// Whether `a` sorts at or before `b`, as `String`'s `Ord` compares: by
/// characters from the front, a prefix first.
pub open spec fn text_le(a: Seq<char>, b: Seq<char>) -> bool
    decreases a.len(),
{
    if a.len() == 0 {
        true
    } else if b.len() == 0 {
        false
    } else if a[0] != b[0] {
        a[0] < b[0]
    } else {
        text_le(a.drop_first(), b.drop_first())
    }
}

pub proof fn lemma_text_le_total(a: Seq<char>, b: Seq<char>)
    ensures
        text_le(a, b) || text_le(b, a),
    decreases a.len(),
{
    if a.len() > 0 && b.len() > 0 && a[0] == b[0] {
        lemma_text_le_total(a.drop_first(), b.drop_first());
    }
}

pub proof fn lemma_text_le_trans(a: Seq<char>, b: Seq<char>, c: Seq<char>)
    requires
        text_le(a, b),
        text_le(b, c),
    ensures
        text_le(a, c),
    decreases a.len(),
{
    if a.len() > 0 && b.len() > 0 && c.len() > 0 && a[0] == b[0] && b[0] == c[0] {
        lemma_text_le_trans(a.drop_first(), b.drop_first(), c.drop_first());
    }
}

/// Whether `a` sorts at or before `b`.
pub fn chars_le(a: &[char], b: &[char]) -> (r: bool)
    ensures
        r == text_le(a@, b@),
{
    let mut i: usize = 0;
    assert(a@.subrange(0, a@.len() as int) =~= a@);
    assert(b@.subrange(0, b@.len() as int) =~= b@);
    while i < a.len() && i < b.len() && a[i] == b[i]
        invariant
            i <= a@.len(),
            i <= b@.len(),
            text_le(a@, b@) == text_le(a@.subrange(i as int, a@.len() as int), b@.subrange(i as int, b@.len() as int)),
        decreases a.len() - i,
    {
        let ghost x = a@.subrange(i as int, a@.len() as int);
        let ghost y = b@.subrange(i as int, b@.len() as int);
        assert(x.drop_first() =~= a@.subrange(i + 1, a@.len() as int));
        assert(y.drop_first() =~= b@.subrange(i + 1, b@.len() as int));
        i = i + 1;
    }
    if i == a.len() {
        true
    } else if i == b.len() {
        false
    } else {
        assert(a@.subrange(i as int, a@.len() as int)[0] == a@[i as int]);
        assert(b@.subrange(i as int, b@.len() as int)[0] == b@[i as int]);
        a[i] < b[i]
    }
}

/// Whether `a` sorts at or before `b`.
pub fn str_le(a: &str, b: &str) -> (r: bool)
    ensures
        r == text_le(a@, b@),
{
    let x = chars_of(a);
    let y = chars_of(b);
    chars_le(x.as_slice(), y.as_slice())
}

/// Where a stable sort places `x` among `sorted`: after every text that sorts
/// at or before it.
pub open spec fn text_slot(sorted: Seq<Seq<char>>, x: Seq<char>) -> int
    decreases sorted.len(),
{
    if sorted.len() == 0 {
        0
    } else if !text_le(sorted[0], x) {
        0
    } else {
        1 + text_slot(sorted.drop_first(), x)
    }
}

/// Texts in the order `sort` leaves them.
pub open spec fn sort_texts(s: Seq<Seq<char>>) -> Seq<Seq<char>>
    decreases s.len(),
{
    if s.len() == 0 {
        s
    } else {
        let sorted = sort_texts(s.drop_last());
        sorted.insert(text_slot(sorted, s.last()), s.last())
    }
}

proof fn lemma_text_slot(sorted: Seq<Seq<char>>, x: Seq<char>, j: int)
    requires
        0 <= j <= sorted.len(),
        forall|k: int| 0 <= k < j ==> text_le(#[trigger] sorted[k], x),
        j == sorted.len() || !text_le(sorted[j], x),
    ensures
        text_slot(sorted, x) == j,
    decreases j,
{
    if j > 0 {
        let t = sorted.drop_first();
        assert forall|k: int| 0 <= k < j - 1 implies text_le(#[trigger] t[k], x) by {
            assert(t[k] == sorted[k + 1]);
        }
        if j - 1 < t.len() {
            assert(t[j - 1] == sorted[j]);
        }
        lemma_text_slot(t, x, j - 1);
    }
}

/// Sorts texts as `sort` does.
pub fn sorted_texts(v: Vec<String>) -> (out: Vec<String>)
    ensures
        out.deep_view() == sort_texts(v.deep_view()),
{
    let mut out: Vec<String> = Vec::new();
    let mut rest = v;
    let ghost all = rest.deep_view();
    let n = rest.len();
    assert(all.len() == n);
    let mut i: usize = 0;
    while rest.len() > 0
        invariant
            i + rest@.len() == all.len(),
            all.len() <= usize::MAX,
            rest.deep_view() == all.subrange(i as int, all.len() as int),
            out.deep_view() == sort_texts(all.take(i as int)),
        decreases rest.len(),
    {
        let ghost old_rest = rest@;
        let ghost old_dv = rest.deep_view();
        assert(rest.deep_view()[0] == old_rest[0]@);
        let x = rest.remove(0);
        let ghost before = out.deep_view();
        assert(all[i as int] == x@);
        assert forall|k: int| 0 <= k < rest@.len() implies rest.deep_view()[k] == all.subrange(i + 1, all.len() as int)[k] by {
            assert(rest@[k] == old_rest[k + 1]);
            assert(old_dv[k + 1] == old_rest[k + 1]@);
            assert(old_dv[k + 1] == all[i + 1 + k]);
        }
        assert(rest.deep_view() =~= all.subrange(i + 1, all.len() as int));
        let mut j: usize = 0;
        while j < out.len() && str_le(out[j].as_str(), x.as_str())
            invariant
                j <= out@.len(),
                before == out.deep_view(),
                forall|k: int| 0 <= k < j ==> text_le(#[trigger] before[k], x@),
            decreases out.len() - j,
        {
            j = j + 1;
        }
        proof {
            lemma_text_slot(before, x@, j as int);
            assert(all.take(i + 1).drop_last() =~= all.take(i as int));
            assert(all.take(i + 1).last() == x@);
        }
        out.insert(j, x);
        assert(out.deep_view() =~= before.insert(j as int, x@));
        i = i + 1;
    }
    assert(all.take(i as int) =~= all);
    out
}

// ---------------------------------------------------------------------------
// Quoting

/// The text `Debug` writes for a string, which is the string in double quotes
/// with its quotes, backslashes and unprintable characters escaped.
pub uninterp spec fn debug_str(s: Seq<char>) -> Seq<char>;

/// Writes a string as `Debug` writes it, through `<str as Debug>::fmt`.
#[verifier::external_body]
pub(crate) fn quoted(s: &str) -> (out: String)
    ensures
        out@ == debug_str(s@),
{
    format!("{s:?}")
}

/// The runs from `at` to the end, each held a second time.
pub fn slice_from_vecs(v: &[Vec<char>], at: usize) -> (out: Vec<Vec<char>>)
    requires
        at <= v.len(),
    ensures
        views(out@) == views(v@).skip(at as int),
{
    let mut out: Vec<Vec<char>> = Vec::new();
    let mut i: usize = at;
    while i < v.len()
        invariant
            at <= i <= v.len(),
            views(out@) == views(v@).subrange(at as int, i as int),
        decreases v.len() - i,
    {
        let copy = slice_from(v[i].as_slice(), 0);
        assert(v@[i as int]@.skip(0) =~= v@[i as int]@);
        let ghost before = out@;
        out.push(copy);
        assert(views(out@) =~= views(before).push(v@[i as int]@));
        assert(views(v@).subrange(at as int, i + 1) =~= views(v@).subrange(at as int, i as int).push(v@[i as int]@));
        i = i + 1;
    }
    assert(views(v@).subrange(at as int, i as int) =~= views(v@).skip(at as int));
    out
}

} // verus!
