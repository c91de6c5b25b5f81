use vstd::prelude::*;
use vstd::std_specs::iter::IteratorSpec;

verus! {

/// Wildcard matching of `p[i..]` against `t[j..]`: `*` takes any run of
/// characters, `?` exactly one, any other character itself.
pub open spec fn wild_at(p: Seq<char>, t: Seq<char>, i: int, j: int) -> bool
    decreases p.len() - i + t.len() - j, p.len() - i,
    when 0 <= i <= p.len() && 0 <= j <= t.len()
{
    if i == p.len() {
        j == t.len()
    } else if p[i] == '*' {
        wild_at(p, t, i + 1, j) || (j < t.len() && wild_at(p, t, i, j + 1))
    } else {
        j < t.len() && (p[i] == '?' || p[i] == t[j]) && wild_at(p, t, i + 1, j + 1)
    }
}

/// Whether glob `p` matches the whole of `t`. A lone `*` matches any text
/// without a `/`.
pub open spec fn glob_match(p: Seq<char>, t: Seq<char>) -> bool {
    if p == seq!['*'] {
        !t.contains('/')
    } else {
        wild_at(p, t, 0, 0)
    }
}

/// The characters of `s`, in order.
pub fn chars_of(s: &str) -> (r: Vec<char>)
    ensures
        r@ == s@,
{
    broadcast use vstd::string::group_string_axioms;

    let mut it = s.chars();
    let mut out: Vec<char> = Vec::new();
    loop
        invariant
            out@ + it.remaining() == s@,
            it.obeys_prophetic_iter_laws(),
            it.decrease() is Some,
        decreases s@.len() - out@.len(),
    {
        let ghost before = it.remaining();
        match it.next() {
            Some(c) => {
                assert(out@.push(c) + it.remaining() =~= out@ + before);
                out.push(c);
            },
            None => {
                return out;
            },
        }
    }
}

/// Whether glob `p` matches the whole of `t`.
pub fn glob_matches(p: &Vec<char>, t: &Vec<char>) -> (r: bool)
    ensures
        r == glob_match(p@, t@),
{
    if p.len() == 1 && p[0] == '*' {
        assert(p@ =~= seq!['*']);
        let mut k: usize = 0;
        while k < t.len()
            invariant
                k <= t.len(),
                p@ == seq!['*'],
                forall|x: int| 0 <= x < k ==> t@[x] != '/',
            decreases t.len() - k,
        {
            if t[k] == '/' {
                assert(t@[k as int] == '/');
                return false;
            }
            k = k + 1;
        }
        return true;
    }
    wild_matches(p, t)
}

/// Wildcard matching by dynamic programming over suffixes: for the current
/// `i`, `row[j]` holds whether `p[i..]` matches `t[j..]` for `j < t.len()`,
/// and `row_end` whether `p[i..]` matches the empty rest of `t`.
fn wild_matches(p: &Vec<char>, t: &Vec<char>) -> (r: bool)
    ensures
        r == wild_at(p@, t@, 0, 0),
{
    let n = p.len();
    let m = t.len();
    let mut row: Vec<bool> = Vec::new();
    let mut j: usize = 0;
    while j < m
        invariant
            j <= m,
            m == t.len(),
            n == p.len(),
            row@.len() == j,
            forall|x: int| 0 <= x < j ==> row@[x] == wild_at(p@, t@, n as int, x),
        decreases m - j,
    {
        row.push(false);
        j = j + 1;
    }
    let mut row_end = true;
    let mut i: usize = n;
    while i > 0
        invariant
            i <= n,
            m == t.len(),
            n == p.len(),
            row@.len() == m,
            row_end == wild_at(p@, t@, i as int, m as int),
            forall|x: int| 0 <= x < m ==> row@[x] == wild_at(p@, t@, i as int, x),
        decreases i,
    {
        let pi = i - 1;
        let pc = p[pi];
        let star = pc == '*';
        let cur_end = star && row_end;
        let mut cur: Vec<bool> = row.clone();
        let mut k: usize = m;
        while k > 0
            invariant
                k <= m,
                pi + 1 == i,
                i <= n,
                m == t.len(),
                n == p.len(),
                pc == p@[pi as int],
                star == (pc == '*'),
                row@.len() == m,
                cur@.len() == m,
                row_end == wild_at(p@, t@, i as int, m as int),
                cur_end == wild_at(p@, t@, pi as int, m as int),
                forall|x: int| 0 <= x < m ==> row@[x] == wild_at(p@, t@, i as int, x),
                forall|x: int| k <= x < m ==> cur@[x] == wild_at(p@, t@, pi as int, x),
            decreases k,
        {
            let jj = k - 1;
            let after_cur = if k == m { cur_end } else { cur[k] };
            let after_row = if k == m { row_end } else { row[k] };
            let v = if star {
                row[jj] || after_cur
            } else {
                (pc == '?' || pc == t[jj]) && after_row
            };
            cur[jj] = v;
            k = jj;
        }
        row = cur;
        row_end = cur_end;
        i = pi;
    }
    if m == 0 {
        row_end
    } else {
        row[0]
    }
}

} // verus!
