//! Character-level helpers shared by the parsers: whitespace, trimming,
//! splitting and conversions between `String` and `Vec<char>`.

use vstd::prelude::*;

verus! {

/// `String::push` appends one character.
pub assume_specification[ std::string::String::push ](s: &mut std::string::String, ch: char)
    ensures
        final(s)@ == old(s)@.push(ch),
;

/// The Unicode `White_Space` property, which `char::is_whitespace` tests.
pub open spec fn is_white_space(c: char) -> bool {
    ||| c == ' '
    ||| ('\t' <= c && c <= '\r')
    ||| c == '\u{85}'
    ||| c == '\u{a0}'
    ||| c == '\u{1680}'
    ||| ('\u{2000}' <= c && c <= '\u{200a}')
    ||| c == '\u{2028}'
    ||| c == '\u{2029}'
    ||| c == '\u{202f}'
    ||| c == '\u{205f}'
    ||| c == '\u{3000}'
}

/// Whether `c` is whitespace in the sense of `char::is_whitespace`.
pub fn is_whitespace(c: char) -> (b: bool)
    ensures
        b == is_white_space(c),
{
    c == ' ' || ('\t' <= c && c <= '\r') || c == '\u{85}' || c == '\u{a0}' || c == '\u{1680}'
        || ('\u{2000}' <= c && c <= '\u{200a}') || c == '\u{2028}' || c == '\u{2029}'
        || c == '\u{202f}' || c == '\u{205f}' || c == '\u{3000}'
}

/// `s` without its leading whitespace.
pub open spec fn trim_start(s: Seq<char>) -> Seq<char>
    decreases s.len(),
{
    if s.len() > 0 && is_white_space(s[0]) {
        trim_start(s.drop_first())
    } else {
        s
    }
}

/// `s` without its trailing whitespace.
pub open spec fn trim_end(s: Seq<char>) -> Seq<char>
    decreases s.len(),
{
    if s.len() > 0 && is_white_space(s.last()) {
        trim_end(s.drop_last())
    } else {
        s
    }
}

/// `s` without leading and trailing whitespace, as `str::trim` gives it.
pub open spec fn trim(s: Seq<char>) -> Seq<char> {
    trim_end(trim_start(s))
}

/// The position of the first occurrence of `d` in `s`.
pub open spec fn index_of(s: Seq<char>, d: char) -> Option<int>
    decreases s.len(),
{
    if s.len() == 0 {
        None
    } else if s[0] == d {
        Some(0)
    } else {
        match index_of(s.drop_first(), d) {
            Some(i) => Some(i + 1),
            None => None,
        }
    }
}

/// The pieces of `s` between occurrences of `d`, as `str::split` gives them.
pub open spec fn split_on(s: Seq<char>, d: char) -> Seq<Seq<char>>
    decreases s.len(),
{
    match index_of(s, d) {
        None => seq![s],
        Some(i) => if 0 <= i < s.len() {
            seq![s.take(i)] + split_on(s.skip(i + 1), d)
        } else {
            seq![s]
        },
    }
}

/// The views of a sequence of strings.
pub open spec fn views(s: Seq<String>) -> Seq<Seq<char>> {
    s.map_values(|x: String| x@)
}

/// The views of a sequence of character vectors.
pub open spec fn char_views(s: Seq<Vec<char>>) -> Seq<Seq<char>> {
    s.map_values(|x: Vec<char>| x@)
}

proof fn lemma_trim_start_skip(s: Seq<char>, i: int)
    requires
        0 <= i <= s.len(),
        forall|j: int| 0 <= j < i ==> is_white_space(#[trigger] s[j]),
    ensures
        trim_start(s) == trim_start(s.skip(i)),
    decreases i,
{
    if i > 0 {
        assert(s.drop_first().skip(i - 1) =~= s.skip(i));
        lemma_trim_start_skip(s.drop_first(), i - 1);
    } else {
        assert(s.skip(0) =~= s);
    }
}

proof fn lemma_trim_end_take(s: Seq<char>, k: int)
    requires
        0 <= k <= s.len(),
        forall|j: int| k <= j < s.len() ==> is_white_space(#[trigger] s[j]),
    ensures
        trim_end(s) == trim_end(s.take(k)),
    decreases s.len() - k,
{
    if k < s.len() {
        assert(s.drop_last().take(k) =~= s.take(k));
        lemma_trim_end_take(s.drop_last(), k);
    } else {
        assert(s.take(k) =~= s);
    }
}

/// The characters of `s`.
pub fn chars_of(s: &str) -> (v: Vec<char>)
    ensures
        v@ == s@,
{
    let n = s.unicode_len();
    let mut v: Vec<char> = Vec::new();
    let mut i: usize = 0;
    while i < n
        invariant
            n == s@.len(),
            i <= n,
            v@ == s@.take(i as int),
        decreases n - i,
    {
        v.push(s.get_char(i));
        i = i + 1;
        assert(v@ =~= s@.take(i as int));
    }
    assert(s@.take(n as int) =~= s@);
    v
}

/// A string made of the characters `cs[lo..hi]`.
pub fn string_of_range(cs: &Vec<char>, lo: usize, hi: usize) -> (s: String)
    requires
        lo <= hi <= cs@.len(),
    ensures
        s@ == cs@.subrange(lo as int, hi as int),
{
    let mut s = String::new();
    let mut i = lo;
    while i < hi
        invariant
            lo <= i <= hi,
            hi <= cs@.len(),
            s@ == cs@.subrange(lo as int, i as int),
        decreases hi - i,
    {
        s.push(cs[i]);
        i = i + 1;
        assert(s@ =~= cs@.subrange(lo as int, i as int));
    }
    s
}

/// A string made of the characters `cs`.
pub fn string_of(cs: &Vec<char>) -> (s: String)
    ensures
        s@ == cs@,
{
    let s = string_of_range(cs, 0, cs.len());
    assert(cs@.subrange(0, cs@.len() as int) =~= cs@);
    s
}

/// The bounds of `trim(cs[lo..hi])` inside `cs`.
pub fn trim_bounds(cs: &Vec<char>, lo: usize, hi: usize) -> (r: (usize, usize))
    requires
        lo <= hi <= cs@.len(),
    ensures
        lo <= r.0 <= r.1 <= hi,
        cs@.subrange(r.0 as int, r.1 as int) == trim(cs@.subrange(lo as int, hi as int)),
{
    let ghost s = cs@.subrange(lo as int, hi as int);
    let mut a = lo;
    while a < hi && is_whitespace(cs[a])
        invariant
            lo <= a <= hi,
            hi <= cs@.len(),
            s == cs@.subrange(lo as int, hi as int),
            forall|j: int| lo <= j < a ==> is_white_space(#[trigger] cs@[j]),
        decreases hi - a,
    {
        a = a + 1;
    }
    let ghost t = cs@.subrange(a as int, hi as int);
    proof {
        assert forall|j: int| 0 <= j < a - lo implies is_white_space(#[trigger] s[j]) by {
            assert(s[j] == cs@[lo + j]);
        }
        lemma_trim_start_skip(s, a - lo);
        assert(s.skip(a - lo) =~= t);
        if a < hi {
            assert(t[0] == cs@[a as int]);
        }
        assert(trim_start(t) == t);
    }
    let mut b = hi;
    while b > a && is_whitespace(cs[b - 1])
        invariant
            lo <= a <= b <= hi,
            hi <= cs@.len(),
            forall|j: int| b <= j < hi ==> is_white_space(#[trigger] cs@[j]),
        decreases b,
    {
        b = b - 1;
    }
    proof {
        let u = cs@.subrange(a as int, b as int);
        assert forall|j: int| b - a <= j < t.len() implies is_white_space(#[trigger] t[j]) by {
            assert(t[j] == cs@[a + j]);
        }
        lemma_trim_end_take(t, b - a);
        assert(t.take(b - a) =~= u);
        if b > a {
            assert(u.last() == cs@[b - 1]);
        }
        assert(trim_end(u) == u);
    }
    (a, b)
}

/// `trim(cs[lo..hi])` as a string.
pub fn trimmed_string(cs: &Vec<char>, lo: usize, hi: usize) -> (s: String)
    requires
        lo <= hi <= cs@.len(),
    ensures
        s@ == trim(cs@.subrange(lo as int, hi as int)),
{
    let (a, b) = trim_bounds(cs, lo, hi);
    string_of_range(cs, a, b)
}

/// `trim(cs[lo..hi])` as characters.
pub fn trimmed_chars(cs: &Vec<char>, lo: usize, hi: usize) -> (v: Vec<char>)
    requires
        lo <= hi <= cs@.len(),
    ensures
        v@ == trim(cs@.subrange(lo as int, hi as int)),
{
    let (a, b) = trim_bounds(cs, lo, hi);
    let mut v: Vec<char> = Vec::new();
    let mut i = a;
    while i < b
        invariant
            a <= i <= b,
            b <= cs@.len(),
            v@ == cs@.subrange(a as int, i as int),
        decreases b - i,
    {
        v.push(cs[i]);
        i = i + 1;
        assert(v@ =~= cs@.subrange(a as int, i as int));
    }
    v
}

/// `trim(s)` for a whole string.
pub fn trim_string(s: &str) -> (t: String)
    ensures
        t@ == trim(s@),
{
    let cs = chars_of(s);
    assert(cs@.subrange(0, cs@.len() as int) =~= cs@);
    trimmed_string(&cs, 0, cs.len())
}

/// Whether the characters `cs` spell `lit`.
pub fn chars_eq(cs: &Vec<char>, lit: &str) -> (b: bool)
    ensures
        b == (cs@ == lit@),
{
    let n = lit.unicode_len();
    if cs.len() != n {
        return false;
    }
    let mut i: usize = 0;
    while i < n
        invariant
            n == lit@.len(),
            n == cs@.len(),
            i <= n,
            forall|j: int| 0 <= j < i ==> cs@[j] == lit@[j],
        decreases n - i,
    {
        if cs[i] != lit.get_char(i) {
            return false;
        }
        i = i + 1;
    }
    assert(cs@ =~= lit@);
    true
}

/// Whether the string `s` spells `lit`.
pub fn str_eq(s: &str, lit: &str) -> (b: bool)
    ensures
        b == (s@ == lit@),
{
    let cs = chars_of(s);
    chars_eq(&cs, lit)
}

/// `index_of` finds the first occurrence.
pub proof fn lemma_index_of(s: Seq<char>, d: char)
    ensures
        match index_of(s, d) {
            Some(i) => 0 <= i < s.len() && s[i] == d && forall|j: int| 0 <= j < i ==> s[j] != d,
            None => forall|j: int| 0 <= j < s.len() ==> s[j] != d,
        },
    decreases s.len(),
{
    if s.len() > 0 {
        lemma_index_of(s.drop_first(), d);
        if s[0] != d {
            match index_of(s.drop_first(), d) {
                Some(i) => {
                    assert forall|j: int| 0 <= j < i + 1 implies s[j] != d by {
                        if j > 0 {
                            assert(s[j] == s.drop_first()[j - 1]);
                        }
                    }
                },
                None => {
                    assert forall|j: int| 0 <= j < s.len() implies s[j] != d by {
                        if j > 0 {
                            assert(s[j] == s.drop_first()[j - 1]);
                        }
                    }
                },
            }
        }
    }
}

/// The first occurrence determines `index_of`.
pub proof fn lemma_index_of_at(s: Seq<char>, d: char, k: int)
    requires
        0 <= k <= s.len(),
        k < s.len() ==> s[k] == d,
        forall|j: int| 0 <= j < k ==> s[j] != d,
    ensures
        index_of(s, d) == (if k < s.len() { Some(k) } else { None::<int> }),
{
    lemma_index_of(s, d);
    match index_of(s, d) {
        Some(i) => {
            if i < k {
                assert(s[i] != d);
            }
            if k < i {
                assert(s[k] != d);
            }
        },
        None => {
            if k < s.len() {
                assert(s[k] != d);
            }
        },
    }
}

/// Splitting gives at least one piece.
pub proof fn lemma_split_nonempty(s: Seq<char>, d: char)
    ensures
        split_on(s, d).len() >= 1,
    decreases s.len(),
{
    match index_of(s, d) {
        Some(i) => if 0 <= i < s.len() {
            lemma_split_nonempty(s.skip(i + 1), d);
        },
        None => {},
    }
}

/// The pieces of `cs[lo..hi]` between occurrences of `d`.
pub fn split_chars(cs: &Vec<char>, lo: usize, hi: usize, d: char) -> (pieces: Vec<Vec<char>>)
    requires
        lo <= hi <= cs@.len(),
    ensures
        char_views(pieces@) == split_on(cs@.subrange(lo as int, hi as int), d),
{
    let mut pieces: Vec<Vec<char>> = Vec::new();
    let mut cur: Vec<char> = Vec::new();
    let mut start = lo;
    let mut i = lo;
    while i < hi
        invariant
            lo <= start <= i <= hi,
            hi <= cs@.len(),
            cur@ == cs@.subrange(start as int, i as int),
            forall|j: int| start <= j < i ==> cs@[j] != d,
            char_views(pieces@) + split_on(cs@.subrange(start as int, hi as int), d) == split_on(
                cs@.subrange(lo as int, hi as int),
                d,
            ),
        decreases hi - i,
    {
        if cs[i] == d {
            proof {
                let t = cs@.subrange(start as int, hi as int);
                assert forall|j: int| 0 <= j < i - start implies t[j] != d by {
                    assert(t[j] == cs@[start + j]);
                }
                lemma_index_of_at(t, d, i - start);
                assert(t.take(i - start) =~= cur@);
                assert(t.skip(i - start + 1) =~= cs@.subrange(i + 1, hi as int));
                assert(char_views(pieces@.push(cur)) =~= char_views(pieces@).push(cur@));
                assert(char_views(pieces@).push(cur@) + split_on(cs@.subrange(i + 1, hi as int), d)
                    =~= char_views(pieces@) + (seq![cur@] + split_on(cs@.subrange(i + 1, hi as int), d)));
            }
            pieces.push(cur);
            cur = Vec::new();
            start = i + 1;
            i = i + 1;
            assert(cur@ =~= cs@.subrange(start as int, i as int));
        } else {
            cur.push(cs[i]);
            i = i + 1;
            assert(cur@ =~= cs@.subrange(start as int, i as int));
        }
    }
    proof {
        let t = cs@.subrange(start as int, hi as int);
        assert forall|j: int| 0 <= j < t.len() implies t[j] != d by {
            assert(t[j] == cs@[start + j]);
        }
        lemma_index_of_at(t, d, t.len() as int);
        assert(t =~= cur@);
        assert(char_views(pieces@.push(cur)) =~= char_views(pieces@) + seq![cur@]);
    }
    pieces.push(cur);
    pieces
}

/// The position of the first occurrence of `d` in `cs[lo..hi]`, counted from `lo`.
pub fn find_char(cs: &Vec<char>, lo: usize, hi: usize, d: char) -> (r: Option<usize>)
    requires
        lo <= hi <= cs@.len(),
    ensures
        match index_of(cs@.subrange(lo as int, hi as int), d) {
            Some(i) => r == Some((lo + i) as usize),
            None => r is None,
        },
{
    let mut i = lo;
    while i < hi
        invariant
            lo <= i <= hi,
            hi <= cs@.len(),
            forall|j: int| lo <= j < i ==> cs@[j] != d,
        decreases hi - i,
    {
        if cs[i] == d {
            proof {
                let t = cs@.subrange(lo as int, hi as int);
                assert forall|j: int| 0 <= j < i - lo implies t[j] != d by {
                    assert(t[j] == cs@[lo + j]);
                }
                lemma_index_of_at(t, d, i - lo);
            }
            return Some(i);
        }
        i = i + 1;
    }
    proof {
        let t = cs@.subrange(lo as int, hi as int);
        assert forall|j: int| 0 <= j < t.len() implies t[j] != d by {
            assert(t[j] == cs@[lo + j]);
        }
        lemma_index_of_at(t, d, t.len() as int);
    }
    None
}

} // verus!
