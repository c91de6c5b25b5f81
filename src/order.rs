use vstd::prelude::*;
use vstd::relations::total_ordering;

verus! {

/// Lexicographic order on character sequences, by code point; a prefix
/// comes first.
pub open spec fn lex_le(a: Seq<char>, b: Seq<char>) -> bool
    decreases a.len(),
{
    if a.len() == 0 {
        true
    } else if b.len() == 0 {
        false
    } else if a[0] != b[0] {
        a[0] < b[0]
    } else {
        lex_le(a.drop_first(), b.drop_first())
    }
}

/// Order on directory entries (name, is a directory): by name, then files
/// before directories.
pub open spec fn entry_le(a: (Seq<char>, bool), b: (Seq<char>, bool)) -> bool {
    if a.0 == b.0 {
        !a.1 || b.1
    } else {
        lex_le(a.0, b.0)
    }
}

/// Every sequence comes no later than itself.
pub proof fn lemma_lex_le_reflexive(a: Seq<char>)
    ensures
        lex_le(a, a),
    decreases a.len(),
{
    if a.len() > 0 {
        lemma_lex_le_reflexive(a.drop_first());
    }
}

/// Two sequences each no later than the other are equal.
pub proof fn lemma_lex_le_antisymmetric(a: Seq<char>, b: Seq<char>)
    requires
        lex_le(a, b),
        lex_le(b, a),
    ensures
        a == b,
    decreases a.len(),
{
    if a.len() > 0 && b.len() > 0 {
        if a[0] == b[0] {
            lemma_lex_le_antisymmetric(a.drop_first(), b.drop_first());
            assert(a =~= seq![a[0]] + a.drop_first());
            assert(b =~= seq![b[0]] + b.drop_first());
        }
    } else {
        assert(a =~= b);
    }
}

/// Lexicographic order is transitive.
pub proof fn lemma_lex_le_transitive(a: Seq<char>, b: Seq<char>, c: Seq<char>)
    requires
        lex_le(a, b),
        lex_le(b, c),
    ensures
        lex_le(a, c),
    decreases a.len(),
{
    if a.len() > 0 && b.len() > 0 && c.len() > 0 {
        if a[0] == b[0] && b[0] == c[0] {
            lemma_lex_le_transitive(a.drop_first(), b.drop_first(), c.drop_first());
        }
    }
}

/// Any two sequences are ordered one way or the other.
pub proof fn lemma_lex_le_connected(a: Seq<char>, b: Seq<char>)
    ensures
        lex_le(a, b) || lex_le(b, a),
    decreases a.len(),
{
    if a.len() > 0 && b.len() > 0 {
        if a[0] == b[0] {
            lemma_lex_le_connected(a.drop_first(), b.drop_first());
        }
    }
}

/// The order on entries is a total order.
pub proof fn lemma_entry_le_total()
    ensures
        total_ordering(|a: (Seq<char>, bool), b: (Seq<char>, bool)| entry_le(a, b)),
{
    let le = |a: (Seq<char>, bool), b: (Seq<char>, bool)| entry_le(a, b);
    assert forall|x: (Seq<char>, bool)| #[trigger] le(x, x) by {
    }
    assert forall|x: (Seq<char>, bool), y: (Seq<char>, bool)| #[trigger] le(x, y) && #[trigger] le(y, x) implies x == y by {
        if x.0 != y.0 {
            lemma_lex_le_antisymmetric(x.0, y.0);
        }
    }
    assert forall|x: (Seq<char>, bool), y: (Seq<char>, bool), z: (Seq<char>, bool)| #[trigger] le(x, y) && #[trigger] le(y, z) implies le(x, z) by {
        if x.0 != y.0 && y.0 != z.0 {
            lemma_lex_le_transitive(x.0, y.0, z.0);
            if x.0 == z.0 {
                lemma_lex_le_antisymmetric(x.0, y.0);
            }
        }
    }
    assert forall|x: (Seq<char>, bool), y: (Seq<char>, bool)| #[trigger] le(x, y) || #[trigger] le(y, x) by {
        lemma_lex_le_connected(x.0, y.0);
    }
}

/// Whether `a` comes no later than `b` in lexicographic order.
pub fn lex_le_chars(a: &Vec<char>, b: &Vec<char>) -> (r: bool)
    ensures
        r == lex_le(a@, b@),
{
    let mut i: usize = 0;
    assert(a@.subrange(0, a.len() as int) =~= a@);
    assert(b@.subrange(0, b.len() as int) =~= b@);
    while i < a.len() && i < b.len() && a[i] == b[i]
        invariant
            i <= a.len(),
            i <= b.len(),
            lex_le(a@, b@) == lex_le(a@.subrange(i as int, a.len() as int), b@.subrange(i as int, b.len() as int)),
        decreases a.len() - i,
    {
        let ghost sa = a@.subrange(i as int, a.len() as int);
        let ghost sb = b@.subrange(i as int, b.len() as int);
        assert(sa.drop_first() =~= a@.subrange(i as int + 1, a.len() as int));
        assert(sb.drop_first() =~= b@.subrange(i as int + 1, b.len() as int));
        i = i + 1;
    }
    let ghost sa = a@.subrange(i as int, a.len() as int);
    let ghost sb = b@.subrange(i as int, b.len() as int);
    if i == a.len() {
        true
    } else if i == b.len() {
        false
    } else {
        assert(sa[0] == a@[i as int] && sb[0] == b@[i as int]);
        a[i] < b[i]
    }
}

} // verus!
