//! Small verified helpers over strings: locating separators, taking the
//! suffix after the last occurrence of a character, byte lengths and
//! path-component counts, and ASCII-case-blind comparison.  Paths and
//! extensions are handled with these.

use vstd::prelude::*;
use vstd::utf8::encode_utf8;

verus! {

/// Length of `s` in UTF-8 bytes.
pub fn byte_len(s: &str) -> (r: usize)
    ensures
        r == encode_utf8(s@).len(),
{
    let b = s.as_bytes();
    proof {
        vstd::slice::axiom_spec_len(b);
    }
    b.len()
}

/// The characters of `s` after the last occurrence of `c`; all of `s` when
/// `c` does not occur.
pub open spec fn suffix_after_last(s: Seq<char>, c: char) -> Seq<char>
    decreases s.len(),
{
    if s.len() == 0 {
        s
    } else if s.last() == c {
        Seq::empty()
    } else {
        suffix_after_last(s.drop_last(), c).push(s.last())
    }
}

/// When `c` occurs nowhere in `s`, the suffix after it is `s` itself.
pub proof fn lemma_suffix_absent(s: Seq<char>, c: char)
    requires
        forall|k: int| 0 <= k < s.len() ==> s[k] != c,
    ensures
        suffix_after_last(s, c) =~= s,
    decreases s.len(),
{
    if s.len() > 0 {
        lemma_suffix_absent(s.drop_last(), c);
    }
}

/// When the last occurrence of `c` is at `i`, the suffix after it is
/// everything past `i`.
pub proof fn lemma_suffix_at(s: Seq<char>, c: char, i: int)
    requires
        0 <= i < s.len(),
        s[i] == c,
        forall|k: int| i < k < s.len() ==> s[k] != c,
    ensures
        suffix_after_last(s, c) =~= s.subrange(i + 1, s.len() as int),
    decreases s.len(),
{
    if i == s.len() - 1 {
    } else {
        lemma_suffix_at(s.drop_last(), c, i);
        assert(s.drop_last().subrange(i + 1, s.len() - 1) =~= s.subrange(i + 1, s.len() - 1));
    }
}

/// Index of the last occurrence of `c` in `s`, if any.
pub fn rfind_char(s: &str, c: char) -> (r: Option<usize>)
    ensures
        match r {
            Some(i) => {
                &&& i < s@.len()
                &&& s@[i as int] == c
                &&& forall|k: int| i < k < s@.len() ==> s@[k] != c
            },
            None => forall|k: int| 0 <= k < s@.len() ==> s@[k] != c,
        },
{
    let n = s.unicode_len();
    let mut i = n;
    while i > 0
        invariant
            i <= n,
            n == s@.len(),
            forall|k: int| i <= k < s@.len() ==> s@[k] != c,
        decreases i,
    {
        i = i - 1;
        if s.get_char(i) == c {
            return Some(i);
        }
    }
    None
}

/// The slice of `s` past its last `c`; all of `s` when `c` does not occur.
pub fn suffix_after_last_char<'a>(s: &'a str, c: char) -> (r: &'a str)
    ensures
        r@ == suffix_after_last(s@, c),
{
    let n = s.unicode_len();
    match rfind_char(s, c) {
        Some(i) => {
            proof {
                lemma_suffix_at(s@, c, i as int);
            }
            s.substring_char(i + 1, n)
        },
        None => {
            proof {
                lemma_suffix_absent(s@, c);
            }
            s.substring_char(0, n)
        },
    }
}

/// Path components of `s` not yet seen before position `i`, read the way
/// the platform's path parser does: a component starts at every
/// non-separator that follows a separator (or starts the text), a leading
/// separator is itself a root component, and a lone-dot component is
/// dropped unless it leads the path.
pub open spec fn segs_from(s: Seq<char>, i: int, prev_sep: bool) -> int
    decreases s.len() - i,
    when 0 <= i <= s.len()
{
    if i >= s.len() {
        0
    } else {
        (if s[i] == '/' {
            if i == 0 {
                1int
            } else {
                0int
            }
        } else {
            if prev_sep && (i == 0 || !(s[i] == '.' && (i + 1 == s.len() || s[i + 1] == '/'))) {
                1int
            } else {
                0int
            }
        }) + segs_from(s, i + 1, s[i] == '/')
    }
}

/// Number of path components of `s`, the root counted as one and lone-dot
/// components dropped unless leading.
pub open spec fn spec_segments(s: Seq<char>) -> int {
    segs_from(s, 0, true)
}

/// Counts the path components of `s`.
pub fn count_segments(s: &str) -> (r: usize)
    ensures
        r == spec_segments(s@),
{
    let n = s.unicode_len();
    let mut count: usize = 0;
    let mut prev_sep = true;
    for i in 0..n
        invariant
            n == s@.len(),
            count <= i,
            count + segs_from(s@, i as int, prev_sep) == spec_segments(s@),
    {
        let c = s.get_char(i);
        if c == '/' {
            if i == 0 {
                count = count + 1;
            }
        } else {
            if prev_sep {
                let dot_seg = c == '.' && (i + 1 == n || s.get_char(i + 1) == '/');
                if i == 0 || !dot_seg {
                    count = count + 1;
                }
            }
        }
        prev_sep = c == '/';
    }
    count
}

/// ASCII lower case of a single character; everything else is unchanged.
pub open spec fn lower_char(c: char) -> char {
    match c {
        'A' => 'a',
        'B' => 'b',
        'C' => 'c',
        'D' => 'd',
        'E' => 'e',
        'F' => 'f',
        'G' => 'g',
        'H' => 'h',
        'I' => 'i',
        'J' => 'j',
        'K' => 'k',
        'L' => 'l',
        'M' => 'm',
        'N' => 'n',
        'O' => 'o',
        'P' => 'p',
        'Q' => 'q',
        'R' => 'r',
        'S' => 's',
        'T' => 't',
        'U' => 'u',
        'V' => 'v',
        'W' => 'w',
        'X' => 'x',
        'Y' => 'y',
        'Z' => 'z',
        _ => c,
    }
}

/// `s` with every ASCII upper-case letter lowered.
pub open spec fn lower_seq(s: Seq<char>) -> Seq<char> {
    s.map_values(|c: char| lower_char(c))
}

/// ASCII lower case of a single character, as executable code.
pub fn lower_char_exec(c: char) -> (r: char)
    ensures
        r == lower_char(c),
{
    match c {
        'A' => 'a',
        'B' => 'b',
        'C' => 'c',
        'D' => 'd',
        'E' => 'e',
        'F' => 'f',
        'G' => 'g',
        'H' => 'h',
        'I' => 'i',
        'J' => 'j',
        'K' => 'k',
        'L' => 'l',
        'M' => 'm',
        'N' => 'n',
        'O' => 'o',
        'P' => 'p',
        'Q' => 'q',
        'R' => 'r',
        'S' => 's',
        'T' => 't',
        'U' => 'u',
        'V' => 'v',
        'W' => 'w',
        'X' => 'x',
        'Y' => 'y',
        'Z' => 'z',
        _ => c,
    }
}

/// Whether `a`, lowered to ASCII lower case, reads exactly as `b`.
pub fn eq_lowered(a: &str, b: &str) -> (r: bool)
    ensures
        r == (lower_seq(a@) == b@),
{
    let n = a.unicode_len();
    if n != b.unicode_len() {
        assert(lower_seq(a@).len() == a@.len());
        return false;
    }
    for i in 0..n
        invariant
            n == a@.len(),
            n == b@.len(),
            forall|k: int| 0 <= k < i ==> lower_char(a@[k]) == b@[k],
    {
        if lower_char_exec(a.get_char(i)) != b.get_char(i) {
            assert(lower_seq(a@)[i as int] != b@[i as int]);
            return false;
        }
    }
    proof {
        assert(lower_seq(a@) =~= b@);
    }
    true
}

} // verus!
