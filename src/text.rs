//! Character-level scanning over a line: first occurrences, splitting and
//! trimming, each stated as a spec function over `Seq<char>` and carried out
//! by index on a vector of the line's characters.
use vstd::prelude::*;
use vstd::std_specs::iter::IteratorSpec;

verus! {

broadcast use vstd::string::group_string_axioms;

/// Index of the first `c` in `s`, if any.
pub open spec fn find_char(s: Seq<char>, c: char) -> Option<int>
    decreases s.len(),
{
    if s.len() == 0 {
        None
    } else if s[0] == c {
        Some(0)
    } else {
        match find_char(s.drop_first(), c) {
            Some(i) => Some(i + 1),
            None => None,
        }
    }
}

/// Whether the two-character marker `" :"` starts at index `i` of `s`.
pub open spec fn marker_at(s: Seq<char>, i: int) -> bool {
    0 <= i && i + 1 < s.len() && s[i] == ' ' && s[i + 1] == ':'
}

/// Index of the first `" :"` in `s`, if any.
pub open spec fn find_marker(s: Seq<char>) -> Option<int>
    decreases s.len(),
{
    if s.len() < 2 {
        None
    } else if marker_at(s, 0) {
        Some(0)
    } else {
        match find_marker(s.drop_first()) {
            Some(i) => Some(i + 1),
            None => None,
        }
    }
}

/// `s` without its leading spaces.
pub open spec fn skip_spaces(s: Seq<char>) -> Seq<char>
    decreases s.len(),
{
    if s.len() > 0 && s[0] == ' ' {
        skip_spaces(s.drop_first())
    } else {
        s
    }
}

/// `s` with a trailing `"\r\n"` removed, if it has one.
pub open spec fn strip_crlf(s: Seq<char>) -> Seq<char> {
    if s.len() >= 2 && s[s.len() - 2] == '\r' && s[s.len() - 1] == '\n' {
        s.subrange(0, s.len() - 2)
    } else {
        s
    }
}

/// `p` followed by `rest`, unless `p` is empty.
pub open spec fn cons_nonempty(p: Seq<char>, rest: Seq<Seq<char>>) -> Seq<Seq<char>> {
    if p.len() == 0 {
        rest
    } else {
        seq![p] + rest
    }
}

/// The pieces of `s` between occurrences of `sep`, taking at most `n` pieces
/// (no limit when `n` is 0): the last piece taken keeps the rest of `s`,
/// separators included. Empty pieces are dropped after the split, so they
/// still count towards `n`.
pub open spec fn pieces(s: Seq<char>, sep: char, n: nat) -> Seq<Seq<char>>
    decreases s.len(),
{
    match find_char(s, sep) {
        Some(i) if n != 1 && 0 <= i < s.len() => cons_nonempty(
            s.subrange(0, i),
            pieces(s.subrange(i + 1, s.len() as int), sep, if n == 0 { 0 } else { (n - 1) as nat }),
        ),
        _ => cons_nonempty(s, seq![]),
    }
}

/// A marker found by `find_marker` stands where it says.
pub proof fn lemma_find_marker_bounds(s: Seq<char>)
    ensures
        find_marker(s) matches Some(i) ==> marker_at(s, i),
    decreases s.len(),
{
    if s.len() >= 2 && !marker_at(s, 0) {
        lemma_find_marker_bounds(s.drop_first());
    }
}

/// The first `c` in `s` is at `i` when none stands before it.
pub proof fn lemma_find_char_at(s: Seq<char>, c: char, i: int)
    requires
        0 <= i <= s.len(),
        forall|j: int| 0 <= j < i ==> s[j] != c,
        i < s.len() ==> s[i] == c,
    ensures
        find_char(s, c) == (if i < s.len() { Some(i) } else { None::<int> }),
    decreases s.len(),
{
    if s.len() > 0 && i > 0 {
        let t = s.drop_first();
        assert forall|j: int| 0 <= j < i - 1 implies t[j] != c by {
            assert(t[j] == s[j + 1]);
        }
        lemma_find_char_at(t, c, i - 1);
    }
}

/// The first `" :"` in `s` is at `i` when none starts before it.
pub proof fn lemma_find_marker_at(s: Seq<char>, i: int)
    requires
        0 <= i <= s.len(),
        forall|j: int| 0 <= j < i ==> !marker_at(s, j),
        i < s.len() ==> marker_at(s, i),
        i == s.len() ==> !marker_at(s, s.len() - 1),
    ensures
        find_marker(s) == (if i < s.len() { Some(i) } else { None::<int> }),
    decreases s.len(),
{
    if s.len() >= 2 && i > 0 {
        let t = s.drop_first();
        assert forall|j: int| 0 <= j < i - 1 implies !marker_at(t, j) by {
            assert(!marker_at(s, j + 1));
        }
        if i == s.len() {
            assert(!marker_at(s, s.len() - 1));
        }
        lemma_find_marker_at(t, i - 1);
    }
}

/// `skip_spaces` drops exactly the leading run of `i` spaces.
pub proof fn lemma_skip_spaces_at(s: Seq<char>, i: int)
    requires
        0 <= i <= s.len(),
        forall|j: int| 0 <= j < i ==> s[j] == ' ',
        i < s.len() ==> s[i] != ' ',
    ensures
        skip_spaces(s) == s.subrange(i, s.len() as int),
    decreases s.len(),
{
    if i > 0 {
        let t = s.drop_first();
        assert forall|j: int| 0 <= j < i - 1 implies t[j] == ' ' by {
            assert(t[j] == s[j + 1]);
        }
        lemma_skip_spaces_at(t, i - 1);
        assert(t.subrange(i - 1, t.len() as int) =~= s.subrange(i, s.len() as int));
    } else {
        assert(s.subrange(0, s.len() as int) =~= s);
    }
}

/// The characters of `s`, one entry each.
pub fn chars_of(s: &str) -> (r: Vec<char>)
    ensures
        r@ == s@,
{
    let mut r: Vec<char> = Vec::new();
    let mut it = s.chars();
    loop
        invariant
            r@ + it.remaining() == s@,
            it.obeys_prophetic_iter_laws(),
            it.decrease() is Some,
        decreases it.decrease()->0,
    {
        match it.next() {
            Some(c) => {
                r.push(c);
            },
            None => {
                assert(r@ =~= s@);
                return r;
            },
        }
    }
}

/// The first index in `lo..hi` holding `c`, or `hi` when none does.
pub fn scan_for(cs: &Vec<char>, lo: usize, hi: usize, c: char) -> (k: usize)
    requires
        lo <= hi <= cs@.len(),
    ensures
        lo <= k <= hi,
        k < hi ==> cs@[k as int] == c,
        forall|j: int| lo <= j < k ==> cs@[j] != c,
        find_char(cs@.subrange(lo as int, hi as int), c) == (if k < hi {
            Some(k - lo)
        } else {
            None::<int>
        }),
{
    let mut k = lo;
    while k < hi && cs[k] != c
        invariant
            lo <= k <= hi <= cs@.len(),
            forall|j: int| lo <= j < k ==> cs@[j] != c,
        decreases hi - k,
    {
        k = k + 1;
    }
    let ghost s = cs@.subrange(lo as int, hi as int);
    assert forall|j: int| 0 <= j < k - lo implies s[j] != c by {
        assert(s[j] == cs@[lo + j]);
    }
    proof { lemma_find_char_at(s, c, k - lo); }
    k
}

/// The first index in `lo..hi` where `" :"` starts within `lo..hi`, or `hi`.
pub fn scan_for_marker(cs: &Vec<char>, lo: usize, hi: usize) -> (k: usize)
    requires
        lo <= hi <= cs@.len(),
    ensures
        lo <= k <= hi,
        find_marker(cs@.subrange(lo as int, hi as int)) == (if k < hi {
            Some(k - lo)
        } else {
            None::<int>
        }),
{
    let ghost s = cs@.subrange(lo as int, hi as int);
    let mut k = lo;
    while hi - k >= 2 && !(cs[k] == ' ' && cs[k + 1] == ':')
        invariant
            lo <= k <= hi <= cs@.len(),
            s == cs@.subrange(lo as int, hi as int),
            forall|j: int| 0 <= j < k - lo ==> !marker_at(s, j),
        decreases hi - k,
    {
        k = k + 1;
    }
    if hi - k >= 2 {
        assert(marker_at(s, k - lo));
        proof { lemma_find_marker_at(s, k - lo); }
        k
    } else {
        assert forall|j: int| 0 <= j < s.len() implies !marker_at(s, j) by {
            if j >= k - lo {
                assert(j + 1 >= s.len());
            }
        }
        proof { lemma_find_marker_at(s, s.len() as int); }
        hi
    }
}

/// The first index in `lo..hi` that is not a space, or `hi`.
pub fn scan_past_spaces(cs: &Vec<char>, lo: usize, hi: usize) -> (k: usize)
    requires
        lo <= hi <= cs@.len(),
    ensures
        lo <= k <= hi,
        k < hi ==> cs@[k as int] != ' ',
        skip_spaces(cs@.subrange(lo as int, hi as int)) == cs@.subrange(k as int, hi as int),
{
    let mut k = lo;
    while k < hi && cs[k] == ' '
        invariant
            lo <= k <= hi <= cs@.len(),
            forall|j: int| lo <= j < k ==> cs@[j] == ' ',
        decreases hi - k,
    {
        k = k + 1;
    }
    let ghost s = cs@.subrange(lo as int, hi as int);
    assert forall|j: int| 0 <= j < k - lo implies s[j] == ' ' by {
        assert(s[j] == cs@[lo + j]);
    }
    proof { lemma_skip_spaces_at(s, k - lo); }
    assert(s.subrange(k - lo, s.len() as int) =~= cs@.subrange(k as int, hi as int));
    k
}

/// An owned copy of the characters `lo..hi` of `line`.
pub fn slice_owned(line: &str, lo: usize, hi: usize) -> (r: String)
    requires
        lo <= hi <= line@.len(),
    ensures
        r@ == line@.subrange(lo as int, hi as int),
{
    line.substring_char(lo, hi).to_owned()
}

/// Splits the characters `lo..hi` of `line` as `pieces` does.
pub fn split_pieces(line: &str, cs: &Vec<char>, lo: usize, hi: usize, sep: char, n: usize) -> (r: Vec<String>)
    requires
        cs@ == line@,
        lo <= hi <= cs@.len(),
    ensures
        r@.map_values(|p: String| p@) == pieces(cs@.subrange(lo as int, hi as int), sep, n as nat),
{
    let ghost whole = cs@.subrange(lo as int, hi as int);
    let mut r: Vec<String> = Vec::new();
    let mut start = lo;
    let mut m = n;
    loop
        invariant
            cs@ == line@,
            lo <= start <= hi <= cs@.len(),
            whole == cs@.subrange(lo as int, hi as int),
            r@.map_values(|p: String| p@) + pieces(cs@.subrange(start as int, hi as int), sep, m as nat) == pieces(whole, sep, n as nat),
        decreases hi - start,
    {
        let ghost rest = cs@.subrange(start as int, hi as int);
        let ghost before = r@.map_values(|p: String| p@);
        let k = if m == 1 { hi } else { scan_for(cs, start, hi, sep) };
        if k == hi {
            if start < hi {
                let p = slice_owned(line, start, hi);
                r.push(p);
                assert(r@.map_values(|p: String| p@) =~= before + seq![rest]);
            }
            assert(r@.map_values(|p: String| p@) =~= before + pieces(rest, sep, m as nat));
            return r;
        }
        let ghost m2: nat = if m == 0 { 0 } else { (m - 1) as nat };
        assert(rest.subrange(0, k - start) =~= cs@.subrange(start as int, k as int));
        assert(rest.subrange(k - start + 1, rest.len() as int) =~= cs@.subrange(k + 1, hi as int));
        if start < k {
            let p = slice_owned(line, start, k);
            r.push(p);
            assert(r@.map_values(|p: String| p@) =~= before + seq![cs@.subrange(start as int, k as int)]);
        } else {
            assert(r@.map_values(|p: String| p@) =~= before);
        }
        assert(pieces(rest, sep, m as nat) == cons_nonempty(cs@.subrange(start as int, k as int), pieces(cs@.subrange(k + 1, hi as int), sep, m2)));
        start = k + 1;
        if m != 0 {
            m = m - 1;
        }
        assert(r@.map_values(|p: String| p@) + pieces(cs@.subrange(start as int, hi as int), sep, m as nat) =~= pieces(whole, sep, n as nat));
    }
}

} // verus!
