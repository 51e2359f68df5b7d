//! The annotation extractor: finds a `file:` directive in a fenced code
//! block's info string and returns the destination path it names.
//!
//! The directive grammar is the library's own: the literal `file:` followed
//! either by a double-quoted span (whitespace allowed inside, the first
//! closing quote ends it, a line break forbids the quoted form) or by a run
//! of non-whitespace characters. The leftmost position where the literal is
//! followed by a viable payload wins.

use vstd::prelude::*;

verus! {

/// Unicode white space, the set the directive grammar treats as a delimiter.
pub open spec fn is_ws_char(c: char) -> bool {
    let u = c as u32;
    ||| u == 0x09
    ||| u == 0x0a
    ||| u == 0x0b
    ||| u == 0x0c
    ||| u == 0x0d
    ||| u == 0x20
    ||| u == 0x85
    ||| u == 0xa0
    ||| u == 0x1680
    ||| (0x2000 <= u && u <= 0x200a)
    ||| u == 0x2028
    ||| u == 0x2029
    ||| u == 0x202f
    ||| u == 0x205f
    ||| u == 0x3000
}

/// Executable test for [`is_ws_char`].
pub fn ws_char(c: char) -> (r: bool)
    ensures
        r == is_ws_char(c),
{
    let u = c as u32;
    u == 0x09 || u == 0x0a || u == 0x0b || u == 0x0c || u == 0x0d || u == 0x20 || u == 0x85
        || u == 0xa0 || u == 0x1680 || (0x2000 <= u && u <= 0x200a) || u == 0x2028 || u == 0x2029
        || u == 0x202f || u == 0x205f || u == 0x3000
}

/// The literal `file:` occurs at position `i` of `s`.
pub open spec fn token_at(s: Seq<char>, i: int) -> bool {
    &&& 0 <= i
    &&& i + 4 < s.len()
    &&& s[i] == 'f'
    &&& s[i + 1] == 'i'
    &&& s[i + 2] == 'l'
    &&& s[i + 3] == 'e'
    &&& s[i + 4] == ':'
}

/// A directive matches at position `i`: the literal `file:` stands there and
/// a payload begins right after it (at least one non-whitespace character).
pub open spec fn directive_at(s: Seq<char>, i: int) -> bool {
    &&& token_at(s, i)
    &&& i + 5 < s.len()
    &&& !is_ws_char(s[i + 5])
}

/// First index `k <= j < s.len()` holding a closing quote, provided no line
/// break comes first; `None` when the quoted form cannot close.
pub open spec fn close_quote(s: Seq<char>, k: int) -> Option<int>
    decreases s.len() - k,
{
    if k < 0 || k >= s.len() {
        None
    } else if s[k] == '"' {
        Some(k)
    } else if s[k] == '\n' {
        None
    } else {
        close_quote(s, k + 1)
    }
}

/// First index `>= j` that is past the end of `s` or holds whitespace: the
/// exclusive end of the non-whitespace run starting at `j`.
pub open spec fn nonws_end(s: Seq<char>, j: int) -> int
    decreases s.len() - j,
{
    if j < 0 || j >= s.len() {
        j
    } else if is_ws_char(s[j]) {
        j
    } else {
        nonws_end(s, j + 1)
    }
}

/// The payload of a directive whose literal ends just before position `j`.
/// A quoted span is preferred; if no closing quote is reachable the payload
/// falls back to the plain non-whitespace run (which then starts with the
/// opening quote itself).
pub open spec fn payload_at(s: Seq<char>, j: int) -> Seq<char> {
    if 0 <= j < s.len() && s[j] == '"' {
        match close_quote(s, j + 1) {
            Some(k) => s.subrange(j + 1, k),
            None => s.subrange(j, nonws_end(s, j)),
        }
    } else {
        s.subrange(j, nonws_end(s, j))
    }
}

/// Leftmost-match extraction, scanning from position `i`.
pub open spec fn extract_from(s: Seq<char>, i: int) -> Option<Seq<char>>
    decreases s.len() - i,
{
    if i < 0 || i + 5 >= s.len() {
        None
    } else if directive_at(s, i) {
        Some(payload_at(s, i + 5))
    } else {
        extract_from(s, i + 1)
    }
}

/// What the extractor returns on a whole info string.
pub open spec fn spec_extract(s: Seq<char>) -> Option<Seq<char>> {
    extract_from(s, 0)
}

/// The view of an optional owned path, for contracts.
pub open spec fn opt_view(r: Option<String>) -> Option<Seq<char>> {
    match r {
        Some(s) => Some(s@),
        None => None,
    }
}

proof fn lemma_extract_step(s: Seq<char>, i: int)
    requires
        0 <= i,
        !directive_at(s, i),
    ensures
        extract_from(s, i) == extract_from(s, i + 1),
{
}

proof fn lemma_close_quote_step(s: Seq<char>, k: int)
    requires
        0 <= k < s.len(),
        s[k] != '"',
        s[k] != '\n',
    ensures
        close_quote(s, k) == close_quote(s, k + 1),
{
}

proof fn lemma_nonws_step(s: Seq<char>, m: int)
    requires
        0 <= m < s.len(),
        !is_ws_char(s[m]),
    ensures
        nonws_end(s, m) == nonws_end(s, m + 1),
{
}

proof fn lemma_extract_run(s: Seq<char>, a: int, b: int)
    requires
        0 <= a <= b,
        forall|j: int| a <= j < b ==> !directive_at(s, j),
    ensures
        extract_from(s, a) == extract_from(s, b),
    decreases b - a,
{
    if a < b {
        lemma_extract_step(s, a);
        lemma_extract_run(s, a + 1, b);
    }
}

proof fn lemma_close_quote_run(s: Seq<char>, a: int, b: int)
    requires
        0 <= a <= b <= s.len(),
        forall|m: int| a <= m < b ==> s[m] != '"' && s[m] != '\n',
    ensures
        close_quote(s, a) == close_quote(s, b),
    decreases b - a,
{
    if a < b {
        lemma_close_quote_step(s, a);
        lemma_close_quote_run(s, a + 1, b);
    }
}

proof fn lemma_nonws_run(s: Seq<char>, a: int, b: int)
    requires
        0 <= a <= b <= s.len(),
        forall|m: int| a <= m < b ==> !is_ws_char(s[m]),
    ensures
        nonws_end(s, a) == nonws_end(s, b),
    decreases b - a,
{
    if a < b {
        lemma_nonws_step(s, a);
        lemma_nonws_run(s, a + 1, b);
    }
}

/// The string `file:"content"` followed by `suffix` and preceded by
/// `prefix`: the quoted form of a directive.
pub open spec fn quoted_form(prefix: Seq<char>, content: Seq<char>, suffix: Seq<char>) -> Seq<
    char,
> {
    prefix + seq!['f', 'i', 'l', 'e', ':', '"'] + content + seq!['"'] + suffix
}

/// The string `file:content` followed by `suffix` and preceded by `prefix`:
/// the unquoted form of a directive.
pub open spec fn unquoted_form(prefix: Seq<char>, content: Seq<char>, suffix: Seq<char>) -> Seq<
    char,
> {
    prefix + seq!['f', 'i', 'l', 'e', ':'] + content + suffix
}

/// A quoted directive preserves its content exactly, internal whitespace
/// included: on any info string `prefix + file:"content" + suffix` where no
/// directive matches earlier and the content holds neither a quote nor a
/// line break, extraction returns precisely `content`.
pub proof fn lemma_extract_quoted(prefix: Seq<char>, content: Seq<char>, suffix: Seq<char>)
    requires
        forall|j: int| 0 <= j < prefix.len() ==> !directive_at(
            quoted_form(prefix, content, suffix),
            j,
        ),
        forall|i: int| 0 <= i < content.len() ==> content[i] != '"' && content[i] != '\n',
    ensures
        spec_extract(quoted_form(prefix, content, suffix)) == Some(content),
{
    let s = quoted_form(prefix, content, suffix);
    let p = prefix.len() as int;
    let c = content.len() as int;
    assert(s.len() == p + 7 + c + suffix.len());
    assert(s[p] == 'f' && s[p + 1] == 'i' && s[p + 2] == 'l' && s[p + 3] == 'e' && s[p + 4]
        == ':');
    assert(s[p + 5] == '"');
    assert(forall|i: int| 0 <= i < c ==> s[p + 6 + i] == content[i]);
    assert(s[p + 6 + c] == '"');
    assert(!is_ws_char('"')) by {
        assert(('"' as u32) == 0x22);
    }
    assert(directive_at(s, p));
    lemma_close_quote_run(s, p + 6, p + 6 + c);
    assert(close_quote(s, p + 6 + c) == Some(p + 6 + c));
    assert(payload_at(s, p + 5) == s.subrange(p + 6, p + 6 + c));
    assert(s.subrange(p + 6, p + 6 + c) =~= content);
    lemma_extract_run(s, 0, p);
    assert(extract_from(s, p) == Some(payload_at(s, p + 5)));
}

/// An unquoted directive yields the whole whitespace-delimited run after
/// `file:`: on any info string `prefix + file:content + suffix` where no
/// directive matches earlier, the content is a non-empty run of
/// non-whitespace characters not starting with a quote, and the suffix is
/// empty or starts with whitespace, extraction returns precisely `content`.
pub proof fn lemma_extract_unquoted(prefix: Seq<char>, content: Seq<char>, suffix: Seq<char>)
    requires
        forall|j: int| 0 <= j < prefix.len() ==> !directive_at(
            unquoted_form(prefix, content, suffix),
            j,
        ),
        content.len() > 0,
        forall|i: int| 0 <= i < content.len() ==> !is_ws_char(content[i]),
        content[0] != '"',
        suffix.len() == 0 || is_ws_char(suffix[0]),
    ensures
        spec_extract(unquoted_form(prefix, content, suffix)) == Some(content),
{
    let s = unquoted_form(prefix, content, suffix);
    let p = prefix.len() as int;
    let c = content.len() as int;
    assert(s.len() == p + 5 + c + suffix.len());
    assert(s[p] == 'f' && s[p + 1] == 'i' && s[p + 2] == 'l' && s[p + 3] == 'e' && s[p + 4]
        == ':');
    assert(forall|i: int| 0 <= i < c ==> s[p + 5 + i] == content[i]);
    assert(directive_at(s, p));
    lemma_nonws_run(s, p + 5, p + 5 + c);
    if suffix.len() == 0 {
        assert(nonws_end(s, p + 5 + c) == p + 5 + c);
    } else {
        assert(s[p + 5 + c] == suffix[0]);
        assert(nonws_end(s, p + 5 + c) == p + 5 + c);
    }
    assert(payload_at(s, p + 5) == s.subrange(p + 5, p + 5 + c));
    assert(s.subrange(p + 5, p + 5 + c) =~= content);
    lemma_extract_run(s, 0, p);
    assert(extract_from(s, p) == Some(payload_at(s, p + 5)));
}

/// An info string without the `file:` token anywhere yields no destination
/// path at all.
pub proof fn lemma_no_token_no_result(s: Seq<char>)
    requires
        forall|i: int| !token_at(s, i),
    ensures
        spec_extract(s) is None,
{
    assert(forall|j: int| 0 <= j < s.len() ==> !directive_at(s, j));
    lemma_extract_run(s, 0, s.len() as int);
    assert(extract_from(s, s.len() as int) is None);
}

/// The non-whitespace run starting at `j`, as an owned string.
fn unquoted_run(input: &str, j: usize, n: usize) -> (r: String)
    requires
        n == input@.len(),
        j < n,
        !is_ws_char(input@[j as int]),
    ensures
        r@ == input@.subrange(j as int, nonws_end(input@, j as int)),
{
    let mut m: usize = j + 1;
    proof {
        lemma_nonws_step(input@, j as int);
    }
    while m < n && !ws_char(input.get_char(m))
        invariant
            n == input@.len(),
            j + 1 <= m <= n,
            nonws_end(input@, j as int) == nonws_end(input@, m as int),
        decreases n - m,
    {
        proof {
            lemma_nonws_step(input@, m as int);
        }
        m = m + 1;
    }
    assert(nonws_end(input@, m as int) == m as int);
    let sub = input.substring_char(j, m);
    sub.to_owned()
}

/// The payload of a directive whose `file:` literal ends just before `j`.
fn extract_payload(input: &str, j: usize, n: usize) -> (r: String)
    requires
        n == input@.len(),
        j < n,
        !is_ws_char(input@[j as int]),
    ensures
        r@ == payload_at(input@, j as int),
{
    let c = input.get_char(j);
    if c == '"' {
        let mut k: usize = j + 1;
        while k < n
            invariant
                n == input@.len(),
                j + 1 <= k <= n,
                j < n,
                input@[j as int] == '"',
                close_quote(input@, j as int + 1) == close_quote(input@, k as int),
            decreases n - k,
        {
            let ck = input.get_char(k);
            if ck == '"' {
                assert(close_quote(input@, k as int) == Some(k as int));
                let sub = input.substring_char(j + 1, k);
                return sub.to_owned();
            }
            if ck == '\n' {
                assert(close_quote(input@, k as int) is None);
                return unquoted_run(input, j, n);
            }
            proof {
                lemma_close_quote_step(input@, k as int);
            }
            k = k + 1;
        }
        assert(close_quote(input@, k as int) is None);
        unquoted_run(input, j, n)
    } else {
        unquoted_run(input, j, n)
    }
}

/// Finds the leftmost `file:` directive in an info string and returns the
/// destination path it names: a double-quoted span (quotes stripped,
/// whitespace kept) or a plain run of non-whitespace characters. Returns
/// `None` when no directive matches anywhere in the string.
pub fn extract_file_path(input: &str) -> (r: Option<String>)
    ensures
        opt_view(r) == spec_extract(input@),
{
    let n = input.unicode_len();
    if n < 6 {
        assert(extract_from(input@, 0) is None);
        return None;
    }
    let mut i: usize = 0;
    while i < n - 5
        invariant
            n == input@.len(),
            6 <= n,
            i <= n,
            extract_from(input@, 0) == extract_from(input@, i as int),
        decreases n - i,
    {
        if input.get_char(i) == 'f' && input.get_char(i + 1) == 'i' && input.get_char(i + 2) == 'l'
            && input.get_char(i + 3) == 'e' && input.get_char(i + 4) == ':'
            && !ws_char(input.get_char(i + 5)) {
            assert(directive_at(input@, i as int));
            let payload = extract_payload(input, i + 5, n);
            return Some(payload);
        }
        proof {
            lemma_extract_step(input@, i as int);
        }
        i = i + 1;
    }
    assert(extract_from(input@, i as int) is None);
    None
}

} // verus!
