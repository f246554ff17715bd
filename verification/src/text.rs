//! Character-level text scanning: whitespace classification, prefix tests,
//! and locating the last occurrence of a pattern in a string.

use vstd::prelude::*;

verus! {

/// The characters that separate whitespace-delimited tokens, following the
/// Unicode white-space class that `str::split_whitespace` uses.
pub open spec fn is_ws(c: char) -> bool {
    ||| c == ' '
    ||| c == '\t'
    ||| c == '\n'
    ||| c == '\r'
    ||| c == '\u{000B}'
    ||| c == '\u{000C}'
    ||| c == '\u{0085}'
    ||| c == '\u{00A0}'
    ||| c == '\u{1680}'
    ||| c == '\u{2000}'
    ||| c == '\u{2001}'
    ||| c == '\u{2002}'
    ||| c == '\u{2003}'
    ||| c == '\u{2004}'
    ||| c == '\u{2005}'
    ||| c == '\u{2006}'
    ||| c == '\u{2007}'
    ||| c == '\u{2008}'
    ||| c == '\u{2009}'
    ||| c == '\u{200A}'
    ||| c == '\u{2028}'
    ||| c == '\u{2029}'
    ||| c == '\u{202F}'
    ||| c == '\u{205F}'
    ||| c == '\u{3000}'
}

/// Executable whitespace test, equal to `is_ws`.
pub fn is_ws_char(c: char) -> (r: bool)
    ensures
        r == is_ws(c),
{
    c == ' ' || c == '\t' || c == '\n' || c == '\r' || c == '\u{000B}' || c == '\u{000C}'
        || c == '\u{0085}' || c == '\u{00A0}' || c == '\u{1680}' || c == '\u{2000}'
        || c == '\u{2001}' || c == '\u{2002}' || c == '\u{2003}' || c == '\u{2004}'
        || c == '\u{2005}' || c == '\u{2006}' || c == '\u{2007}' || c == '\u{2008}'
        || c == '\u{2009}' || c == '\u{200A}' || c == '\u{2028}' || c == '\u{2029}'
        || c == '\u{202F}' || c == '\u{205F}' || c == '\u{3000}'
}

/// `pat` occurs in `text` starting at position `i`.
pub open spec fn occurs_at(text: Seq<char>, pat: Seq<char>, i: int) -> bool {
    &&& 0 <= i
    &&& i + pat.len() <= text.len()
    &&& text.subrange(i, i + pat.len() as int) == pat
}

/// The greatest position `<= i` at which `pat` occurs in `text`, if any.
pub open spec fn rfind_from(text: Seq<char>, pat: Seq<char>, i: int) -> Option<int>
    decreases i + 1,
{
    if i < 0 {
        None
    } else if occurs_at(text, pat, i) {
        Some(i)
    } else {
        rfind_from(text, pat, i - 1)
    }
}

/// The position of the last occurrence of `pat` in `text`, if any.
pub open spec fn rfind(text: Seq<char>, pat: Seq<char>) -> Option<int> {
    rfind_from(text, pat, text.len() - pat.len())
}

proof fn lemma_rfind_from_characterized(text: Seq<char>, pat: Seq<char>, i: int)
    ensures
        match rfind_from(text, pat, i) {
            Some(k) => {
                &&& 0 <= k <= i
                &&& occurs_at(text, pat, k)
                &&& forall|j: int| k < j <= i ==> !occurs_at(text, pat, j)
            },
            None => forall|j: int| j <= i ==> !occurs_at(text, pat, j),
        },
    decreases i + 1,
{
    if i >= 0 && !occurs_at(text, pat, i) {
        lemma_rfind_from_characterized(text, pat, i - 1);
    }
}

/// The result of `rfind` is an occurrence of the pattern, and no occurrence
/// lies to its right; a `None` result means the pattern does not occur at all.
pub proof fn lemma_rfind_is_last(text: Seq<char>, pat: Seq<char>)
    ensures
        match rfind(text, pat) {
            Some(k) => {
                &&& occurs_at(text, pat, k)
                &&& forall|j: int| j > k ==> !occurs_at(text, pat, j)
            },
            None => forall|j: int| !occurs_at(text, pat, j),
        },
{
    lemma_rfind_from_characterized(text, pat, text.len() - pat.len());
    assert(forall|j: int| j > text.len() - pat.len() ==> !occurs_at(text, pat, j));
}

/// Tests whether `pat` occurs in `text` at position `i`, character by character.
fn occurs_here(text: &str, pat: &str, i: usize) -> (r: bool)
    requires
        i + pat@.len() <= text@.len(),
    ensures
        r == occurs_at(text@, pat@, i as int),
{
    let text_len: usize = text.unicode_len();
    let pat_len: usize = pat.unicode_len();
    let mut k: usize = 0;
    while k < pat_len
        invariant
            i + pat_len <= text_len,
            text_len == text@.len(),
            pat_len == pat@.len(),
            k <= pat_len,
            forall|m: int| 0 <= m < k ==> text@[i + m] == pat@[m],
        decreases pat_len - k,
    {
        if text.get_char(i + k) != pat.get_char(k) {
            assert(!occurs_at(text@, pat@, i as int)) by {
                assert(text@.subrange(i as int, i + pat@.len() as int)[k as int] == text@[i + k]);
            }
            return false;
        }
        k += 1;
    }
    assert(text@.subrange(i as int, i + pat@.len() as int) =~= pat@);
    true
}

/// Finds the last occurrence of `pat` in `text`, as `rfind` describes.
pub fn rfind_str(text: &str, pat: &str) -> (r: Option<usize>)
    ensures
        match r {
            Some(k) => rfind(text@, pat@) == Some(k as int),
            None => rfind(text@, pat@) is None,
        },
{
    let text_len: usize = text.unicode_len();
    let pat_len: usize = pat.unicode_len();
    if pat_len > text_len {
        return None;
    }
    let mut i: usize = text_len - pat_len;
    loop
        invariant
            pat_len <= text_len,
            text_len == text@.len(),
            pat_len == pat@.len(),
            i <= text_len - pat_len,
            rfind(text@, pat@) == rfind_from(text@, pat@, i as int),
        decreases i + 1,
    {
        if occurs_here(text, pat, i) {
            return Some(i);
        }
        if i == 0 {
            proof {
                assert(rfind_from(text@, pat@, -1) is None);
            }
            return None;
        }
        i -= 1;
    }
}

/// `p` is an initial segment of `s`.
pub open spec fn is_prefix_of(p: Seq<char>, s: Seq<char>) -> bool {
    &&& p.len() <= s.len()
    &&& s.take(p.len() as int) == p
}

/// Tests whether `s` starts with `p`, character by character.
pub fn has_prefix(s: &str, p: &str) -> (r: bool)
    ensures
        r == is_prefix_of(p@, s@),
{
    let s_len: usize = s.unicode_len();
    let p_len: usize = p.unicode_len();
    if p_len > s_len {
        return false;
    }
    let mut k: usize = 0;
    while k < p_len
        invariant
            p_len <= s_len,
            s_len == s@.len(),
            p_len == p@.len(),
            k <= p_len,
            forall|m: int| 0 <= m < k ==> s@[m] == p@[m],
        decreases p_len - k,
    {
        if s.get_char(k) != p.get_char(k) {
            assert(!is_prefix_of(p@, s@)) by {
                assert(s@.take(p@.len() as int)[k as int] == s@[k as int]);
            }
            return false;
        }
        k += 1;
    }
    assert(s@.take(p@.len() as int) =~= p@);
    true
}

/// The position of the first line feed in `s`, or `s.len()` if there is none.
pub open spec fn first_nl(s: Seq<char>) -> int
    decreases s.len(),
{
    if s.len() == 0 {
        0
    } else if s[0] == '\n' {
        0
    } else {
        1 + first_nl(s.skip(1))
    }
}

/// If position `m` holds the first line feed of `s` (or `m == s.len()` and
/// there is none), then `first_nl(s) == m`.
pub proof fn lemma_first_nl_at(s: Seq<char>, m: int)
    requires
        0 <= m <= s.len(),
        m < s.len() ==> s[m] == '\n',
        forall|j: int| 0 <= j < m ==> s[j] != '\n',
    ensures
        first_nl(s) == m,
    decreases m + 1,
{
    if s.len() == 0 {
    } else if m == 0 {
    } else {
        assert(s[0] != '\n');
        lemma_first_nl_at(s.skip(1), m - 1);
    }
}

/// A line as `str::lines` yields it: the terminating line feed removed, and a
/// carriage return immediately before it removed as well.
pub open spec fn strip_cr(line: Seq<char>) -> Seq<char> {
    if line.len() > 0 && line[line.len() - 1] == '\r' {
        line.take(line.len() - 1)
    } else {
        line
    }
}

/// The lines of `s`, as `str::lines` yields them: segments separated by line
/// feeds, a carriage return stripped before each separator, and no empty
/// final segment after a terminating line feed.
pub open spec fn lines_of(s: Seq<char>) -> Seq<Seq<char>>
    decreases s.len(),
{
    if s.len() == 0 {
        Seq::empty()
    } else {
        let i = first_nl(s);
        if 0 <= i < s.len() {
            seq![strip_cr(s.take(i))] + lines_of(s.skip(i + 1))
        } else {
            seq![s]
        }
    }
}

/// The length of the leading run of non-whitespace characters of `s`.
pub open spec fn token_end(s: Seq<char>) -> int
    decreases s.len(),
{
    if s.len() == 0 {
        0
    } else if is_ws(s[0]) {
        0
    } else {
        1 + token_end(s.skip(1))
    }
}

/// If the characters before position `m` are non-whitespace and `m` is the
/// end of `s` or holds a whitespace character, then `token_end(s) == m`.
pub proof fn lemma_token_end_at(s: Seq<char>, m: int)
    requires
        0 <= m <= s.len(),
        m < s.len() ==> is_ws(s[m]),
        forall|j: int| 0 <= j < m ==> !is_ws(s[j]),
    ensures
        token_end(s) == m,
    decreases m + 1,
{
    if s.len() == 0 {
    } else if m == 0 {
    } else {
        assert(!is_ws(s[0]));
        lemma_token_end_at(s.skip(1), m - 1);
    }
}

/// The whitespace-separated tokens of `s`, in order: the maximal runs of
/// non-whitespace characters, as `str::split_whitespace` yields them.
pub open spec fn tokens_of(s: Seq<char>) -> Seq<Seq<char>>
    decreases s.len(),
{
    if s.len() == 0 {
        Seq::empty()
    } else if is_ws(s[0]) {
        tokens_of(s.skip(1))
    } else {
        let k = token_end(s);
        if 1 <= k <= s.len() {
            seq![s.take(k)] + tokens_of(s.skip(k))
        } else {
            seq![s]
        }
    }
}

/// Splits `s` into lines, as `lines_of` describes.
pub fn split_lines(s: &str) -> (r: Vec<String>)
    ensures
        r@.map_values(|t: String| t@) == lines_of(s@),
{
    let len: usize = s.unicode_len();
    let mut r: Vec<String> = Vec::new();
    let mut seg_start: usize = 0;
    let mut i: usize = 0;
    proof {
        assert(s@.skip(0) =~= s@);
        assert(r@.map_values(|t: String| t@) + lines_of(s@) =~= lines_of(s@));
    }
    while i < len
        invariant
            len == s@.len(),
            seg_start <= i <= len,
            forall|j: int| seg_start <= j < i ==> s@[j] != '\n',
            lines_of(s@) == r@.map_values(|t: String| t@) + lines_of(s@.skip(seg_start as int)),
        decreases len - i,
    {
        if s.get_char(i) == '\n' {
            let end: usize = if i > seg_start && s.get_char(i - 1) == '\r' {
                i - 1
            } else {
                i
            };
            let seg = String::from_str(s.substring_char(seg_start, end));
            let ghost pre = r@.map_values(|t: String| t@);
            proof {
                let tail = s@.skip(seg_start as int);
                lemma_first_nl_at(tail, i - seg_start);
                assert(tail.take(i - seg_start) =~= s@.subrange(seg_start as int, i as int));
                assert(strip_cr(s@.subrange(seg_start as int, i as int)) =~= s@.subrange(
                    seg_start as int,
                    end as int,
                ));
                assert(tail.skip(i - seg_start + 1) =~= s@.skip(i + 1));
                assert(lines_of(tail) == seq![seg@] + lines_of(s@.skip(i + 1)));
            }
            r.push(seg);
            proof {
                assert(r@.map_values(|t: String| t@) =~= pre.push(seg@));
                assert(pre.push(seg@) + lines_of(s@.skip(i + 1)) =~= pre + (seq![seg@] + lines_of(
                    s@.skip(i + 1),
                )));
            }
            seg_start = i + 1;
        }
        i += 1;
    }
    if seg_start < len {
        let seg = String::from_str(s.substring_char(seg_start, len));
        let ghost pre = r@.map_values(|t: String| t@);
        proof {
            let tail = s@.skip(seg_start as int);
            lemma_first_nl_at(tail, len - seg_start);
            assert(tail =~= s@.subrange(seg_start as int, len as int));
            assert(lines_of(tail) == seq![seg@]);
        }
        r.push(seg);
        proof {
            assert(r@.map_values(|t: String| t@) =~= pre.push(seg@));
            assert(pre.push(seg@) =~= pre + seq![seg@]);
        }
    } else {
        proof {
            assert(s@.skip(seg_start as int).len() == 0);
            assert(r@.map_values(|t: String| t@) + lines_of(s@.skip(seg_start as int))
                =~= r@.map_values(|t: String| t@));
        }
    }
    r
}

/// Splits `s` into whitespace-separated tokens, as `tokens_of` describes.
pub fn split_tokens(s: &str) -> (r: Vec<String>)
    ensures
        r@.map_values(|t: String| t@) == tokens_of(s@),
{
    let len: usize = s.unicode_len();
    let mut r: Vec<String> = Vec::new();
    let mut i: usize = 0;
    proof {
        assert(s@.skip(0) =~= s@);
        assert(r@.map_values(|t: String| t@) + tokens_of(s@) =~= tokens_of(s@));
    }
    while i < len
        invariant
            len == s@.len(),
            i <= len,
            tokens_of(s@) == r@.map_values(|t: String| t@) + tokens_of(s@.skip(i as int)),
        decreases len - i,
    {
        if is_ws_char(s.get_char(i)) {
            proof {
                assert(s@.skip(i as int).skip(1) =~= s@.skip(i + 1));
            }
            i += 1;
        } else {
            let mut j: usize = i + 1;
            while j < len && !is_ws_char(s.get_char(j))
                invariant
                    len == s@.len(),
                    i < j <= len,
                    forall|m: int| i <= m < j ==> !is_ws(s@[m]),
                decreases len - j,
            {
                j += 1;
            }
            let tok = String::from_str(s.substring_char(i, j));
            let ghost pre = r@.map_values(|t: String| t@);
            proof {
                let tail = s@.skip(i as int);
                lemma_token_end_at(tail, j - i);
                assert(tail.take(j - i) =~= s@.subrange(i as int, j as int));
                assert(tail.skip(j - i) =~= s@.skip(j as int));
                assert(tokens_of(tail) == seq![tok@] + tokens_of(s@.skip(j as int)));
            }
            r.push(tok);
            proof {
                assert(r@.map_values(|t: String| t@) =~= pre.push(tok@));
                assert(pre.push(tok@) + tokens_of(s@.skip(j as int)) =~= pre + (seq![tok@]
                    + tokens_of(s@.skip(j as int))));
            }
            i = j;
        }
    }
    proof {
        assert(s@.skip(i as int).len() == 0);
        assert(r@.map_values(|t: String| t@) + tokens_of(s@.skip(i as int)) =~= r@.map_values(
            |t: String| t@,
        ));
    }
    r
}

} // verus!
