use vstd::prelude::*;

verus! {

/// The pieces of `s[start..]` cut at each `sep`, where the piece under way
/// began at `start` and the scan has reached `i`.
pub open spec fn split_from(s: Seq<char>, sep: char, start: int, i: int) -> Seq<Seq<char>>
    decreases s.len() - i,
    when 0 <= start <= i <= s.len()
{
    if i >= s.len() {
        seq![s.subrange(start, s.len() as int)]
    } else if s[i] == sep {
        seq![s.subrange(start, i)] + split_from(s, sep, i + 1, i + 1)
    } else {
        split_from(s, sep, start, i + 1)
    }
}

/// The pieces of `s` between occurrences of `sep` (always at least one).
pub open spec fn split(s: Seq<char>, sep: char) -> Seq<Seq<char>> {
    split_from(s, sep, 0, 0)
}

/// Unicode white space (the `White_Space` property), as trimmed from the
/// ends of a rule line or of a file's contents.
pub open spec fn is_blank(c: char) -> bool {
    ('\u{9}' <= c && c <= '\u{d}') || c == ' ' || c == '\u{85}' || c == '\u{a0}' || c == '\u{1680}'
        || ('\u{2000}' <= c && c <= '\u{200a}') || c == '\u{2028}' || c == '\u{2029}'
        || c == '\u{202f}' || c == '\u{205f}' || c == '\u{3000}'
}

/// First index at or after `i` that does not hold white space.
pub open spec fn skip_blank(s: Seq<char>, i: int) -> int
    decreases s.len() - i,
    when 0 <= i <= s.len()
{
    if i < s.len() && is_blank(s[i]) {
        skip_blank(s, i + 1)
    } else {
        i
    }
}

/// End of `s[lo..j]` once trailing white space is dropped.
pub open spec fn drop_blank_end(s: Seq<char>, lo: int, j: int) -> int
    decreases j - lo,
    when 0 <= lo <= j <= s.len()
{
    if j > lo && is_blank(s[j - 1]) {
        drop_blank_end(s, lo, j - 1)
    } else {
        j
    }
}

/// `s` without white space at either end.
pub open spec fn trim(s: Seq<char>) -> Seq<char> {
    let lo = skip_blank(s, 0);
    s.subrange(lo, drop_blank_end(s, lo, s.len() as int))
}

/// Whether `c` is white space that is trimmed from rule lines.
pub fn is_blank_char(c: char) -> (r: bool)
    ensures
        r == is_blank(c),
{
    ('\u{9}' <= c && c <= '\u{d}') || c == ' ' || c == '\u{85}' || c == '\u{a0}' || c == '\u{1680}'
        || ('\u{2000}' <= c && c <= '\u{200a}') || c == '\u{2028}' || c == '\u{2029}'
        || c == '\u{202f}' || c == '\u{205f}' || c == '\u{3000}'
}

/// The characters `s[lo..hi]` as a vector of their own.
pub fn copy_range(s: &Vec<char>, lo: usize, hi: usize) -> (r: Vec<char>)
    requires
        lo <= hi <= s.len(),
    ensures
        r@ == s@.subrange(lo as int, hi as int),
{
    let mut out: Vec<char> = Vec::new();
    let mut k: usize = lo;
    while k < hi
        invariant
            lo <= k <= hi,
            hi <= s.len(),
            out@ == s@.subrange(lo as int, k as int),
        decreases hi - k,
    {
        out.push(s[k]);
        k = k + 1;
        assert(out@ =~= s@.subrange(lo as int, k as int));
    }
    out
}

/// `s` without white space at either end.
pub fn trim_chars(s: &Vec<char>) -> (r: Vec<char>)
    ensures
        r@ == trim(s@),
{
    let mut lo: usize = 0;
    while lo < s.len() && is_blank_char(s[lo])
        invariant
            lo <= s.len(),
            skip_blank(s@, lo as int) == skip_blank(s@, 0),
        decreases s.len() - lo,
    {
        lo = lo + 1;
    }
    let mut hi: usize = s.len();
    while hi > lo && is_blank_char(s[hi - 1])
        invariant
            lo <= hi <= s.len(),
            lo == skip_blank(s@, 0),
            drop_blank_end(s@, lo as int, hi as int) == drop_blank_end(s@, lo as int, s.len() as int),
        decreases hi,
    {
        hi = hi - 1;
    }
    copy_range(s, lo, hi)
}

/// The character sequences that a list of vectors holds.
pub open spec fn views(v: Seq<Vec<char>>) -> Seq<Seq<char>> {
    v.map_values(|x: Vec<char>| x@)
}

/// The pieces of `s` between occurrences of `sep`.
pub fn split_chars(s: &Vec<char>, sep: char) -> (r: Vec<Vec<char>>)
    ensures
        views(r@) == split(s@, sep),
{
    let mut out: Vec<Vec<char>> = Vec::new();
    let mut start: usize = 0;
    let mut i: usize = 0;
    while i < s.len()
        invariant
            start <= i <= s.len(),
            views(out@) + split_from(s@, sep, start as int, i as int) == split(s@, sep),
        decreases s.len() - i,
    {
        if s[i] == sep {
            let piece = copy_range(s, start, i);
            let ghost before = views(out@);
            proof {
                assert(before.push(piece@) + split_from(s@, sep, (i + 1) as int, (i + 1) as int)
                    =~= before + split_from(s@, sep, start as int, i as int));
            }
            out.push(piece);
            assert(views(out@) =~= before.push(piece@));
            start = i + 1;
        }
        i = i + 1;
    }
    let last = copy_range(s, start, s.len());
    let ghost before = views(out@);
    proof {
        assert(before.push(last@) =~= before + split_from(s@, sep, start as int, i as int));
    }
    out.push(last);
    assert(views(out@) =~= before.push(last@));
    out
}

} // verus!
