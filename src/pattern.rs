use vstd::prelude::*;
use crate::glob::{glob_match, glob_matches, chars_of};
use crate::text::{split, split_from, trim, trim_chars, split_chars, views, copy_range};

verus! {

/// What one ignore rule says.
pub struct RuleView {
    /// The rule's text with the leading `!`, the leading `/` and the
    /// trailing `/` taken off.
    pub glob: Seq<char>,
    /// The rule began with `!`: it keeps what it matches.
    pub negated: bool,
    /// The rule began with `/`: it matches from its scope's root only.
    pub anchored: bool,
    /// The rule ended with `/`: it matches directories only.
    pub dir_only: bool,
    /// The directory whose ignore file declared the rule, relative to the
    /// walk's base (empty for the base itself). As in git, a rule speaks
    /// only of paths inside that directory, and its anchoring and its
    /// `/`-separated globs are read from there.
    pub scope: Seq<char>,
}

/// The rule that a line declares in `scope`, or `None` for a blank line, a
/// comment, or a line with nothing left once its markers are taken off.
pub open spec fn parse_rule(line: Seq<char>, scope: Seq<char>) -> Option<RuleView> {
    let t = trim(line);
    if t.len() == 0 || t[0] == '#' {
        None
    } else {
        let negated = t[0] == '!';
        let a = if negated { t.drop_first() } else { t };
        let anchored = a.len() > 0 && a[0] == '/';
        let b = if anchored { a.drop_first() } else { a };
        let dir_only = b.len() > 0 && b.last() == '/';
        let g = if dir_only { b.drop_last() } else { b };
        if g.len() == 0 {
            None
        } else {
            Some(RuleView { glob: g, negated, anchored, dir_only, scope })
        }
    }
}

/// The final component of a `/`-separated path.
pub open spec fn last_component(path: Seq<char>) -> Seq<char> {
    split(path, '/').last()
}

/// Whether `glob` matches some single component of `path`.
pub open spec fn some_component_matches(glob: Seq<char>, path: Seq<char>) -> bool {
    exists|k: int| 0 <= k < split(path, '/').len() && glob_match(glob, #[trigger] split(path, '/')[k])
}

/// Whether rule `r`, taken as a bare name, matches `path`: its glob matches
/// the final component, or the path is a directory and the glob matches one
/// of its components.
pub open spec fn name_matches(r: RuleView, path: Seq<char>, is_dir: bool) -> bool {
    !(r.dir_only && !is_dir) && (glob_match(r.glob, last_component(path)) || (is_dir
        && some_component_matches(r.glob, path)))
}

/// Whether rule `r` matches `rel`, a path relative to the rule's scope.
pub open spec fn rule_matches(r: RuleView, rel: Seq<char>, is_dir: bool) -> bool {
    if r.dir_only && !is_dir {
        false
    } else if r.anchored || r.glob.contains('/') {
        glob_match(r.glob, rel)
    } else {
        name_matches(r, rel, is_dir)
    }
}

/// Whether `path` (relative to the walk's base) lies inside directory `scope`.
pub open spec fn in_scope(scope: Seq<char>, path: Seq<char>) -> bool {
    scope.len() == 0 || (path.len() > scope.len() && path.subrange(0, scope.len() as int) == scope
        && path[scope.len() as int] == '/')
}

/// `path` as seen from directory `scope`, for a path inside it.
pub open spec fn relative_to(scope: Seq<char>, path: Seq<char>) -> Seq<char> {
    if scope.len() == 0 {
        path
    } else {
        path.subrange(scope.len() as int + 1, path.len() as int)
    }
}

/// Whether rule `r` speaks of `path` (relative to the walk's base).
pub open spec fn rule_applies(r: RuleView, path: Seq<char>, is_dir: bool) -> bool {
    in_scope(r.scope, path) && rule_matches(r, relative_to(r.scope, path), is_dir)
}

/// Splitting always yields at least one piece.
pub proof fn lemma_split_from_nonempty(s: Seq<char>, sep: char, start: int, i: int)
    requires
        0 <= start <= i <= s.len(),
    ensures
        split_from(s, sep, start, i).len() >= 1,
    decreases s.len() - i,
{
    if i < s.len() {
        lemma_split_from_nonempty(s, sep, if s[i] == sep { i + 1 } else { start }, i + 1);
    }
}

/// The name `.git`.
pub open spec fn git_dir_name() -> Seq<char> {
    seq!['.', 'g', 'i', 't']
}

/// The name `.gitignore`.
pub open spec fn ignore_file_name() -> Seq<char> {
    seq!['.', 'g', 'i', 't', 'i', 'g', 'n', 'o', 'r', 'e']
}

/// The rule `.git/` at the base.
pub open spec fn git_dir_rule_view() -> RuleView {
    RuleView { glob: git_dir_name(), negated: false, anchored: false, dir_only: true, scope: seq![] }
}

/// The rule `.gitignore` at the base.
pub open spec fn ignore_file_rule_view() -> RuleView {
    RuleView {
        glob: ignore_file_name(),
        negated: false,
        anchored: false,
        dir_only: false,
        scope: seq![],
    }
}

/// One parsed ignore rule.
pub struct GitIgnorePattern {
    glob: Vec<char>,
    negated: bool,
    anchored: bool,
    dir_only: bool,
    has_slash: bool,
    scope: Vec<char>,
}

impl View for GitIgnorePattern {
    type V = RuleView;

    closed spec fn view(&self) -> RuleView {
        RuleView {
            glob: self.glob@,
            negated: self.negated,
            anchored: self.anchored,
            dir_only: self.dir_only,
            scope: self.scope@,
        }
    }
}

fn contains_char(s: &Vec<char>, c: char) -> (r: bool)
    ensures
        r == s@.contains(c),
{
    let mut k: usize = 0;
    while k < s.len()
        invariant
            k <= s.len(),
            forall|x: int| 0 <= x < k ==> s@[x] != c,
        decreases s.len() - k,
    {
        if s[k] == c {
            assert(s@[k as int] == c);
            return true;
        }
        k = k + 1;
    }
    false
}

impl Clone for GitIgnorePattern {
    fn clone(&self) -> (r: Self)
        ensures
            r@ == self@,
    {
        proof {
            use_type_invariant(self);
        }
        let glob = copy_range(&self.glob, 0, self.glob.len());
        let scope = copy_range(&self.scope, 0, self.scope.len());
        assert(glob@ =~= self.glob@);
        assert(scope@ =~= self.scope@);
        GitIgnorePattern {
            glob,
            negated: self.negated,
            anchored: self.anchored,
            dir_only: self.dir_only,
            has_slash: self.has_slash,
            scope,
        }
    }
}

impl GitIgnorePattern {
    #[verifier::type_invariant]
    spec fn well_formed(&self) -> bool {
        &&& self.glob@.len() > 0
        &&& self.has_slash == self.glob@.contains('/')
    }

    /// Parses one rule line declared in directory `scope`.
    pub fn new(line: &str, scope: &str) -> (r: Option<GitIgnorePattern>)
        ensures
            match r {
                Some(p) => parse_rule(line@, scope@) == Some(p@),
                None => parse_rule(line@, scope@) is None,
            },
    {
        let raw = chars_of(line);
        let scope_chars = chars_of(scope);
        Self::parse_chars(&raw, &scope_chars)
    }

    pub(crate) fn parse_chars(raw: &Vec<char>, scope: &Vec<char>) -> (r: Option<GitIgnorePattern>)
        ensures
            match r {
                Some(p) => parse_rule(raw@, scope@) == Some(p@),
                None => parse_rule(raw@, scope@) is None,
            },
    {
        let t = trim_chars(raw);
        if t.len() == 0 || t[0] == '#' {
            return None;
        }
        let negated = t[0] == '!';
        let a = if negated {
            copy_range(&t, 1, t.len())
        } else {
            t
        };
        assert(negated ==> a@ =~= trim(raw@).drop_first());
        let anchored = a.len() > 0 && a[0] == '/';
        let b = if anchored {
            copy_range(&a, 1, a.len())
        } else {
            a
        };
        assert(anchored ==> b@ =~= a@.drop_first());
        let dir_only = b.len() > 0 && b[b.len() - 1] == '/';
        let g = if dir_only {
            copy_range(&b, 0, b.len() - 1)
        } else {
            b
        };
        assert(dir_only ==> g@ =~= b@.drop_last());
        if g.len() == 0 {
            return None;
        }
        let has_slash = contains_char(&g, '/');
        let scope_copy = copy_range(scope, 0, scope.len());
        assert(scope_copy@ =~= scope@);
        Some(GitIgnorePattern { glob: g, negated, anchored, dir_only, has_slash, scope: scope_copy })
    }

    /// The rule `.git/` declared at the base: skip any `.git` directory.
    pub fn git_dir_rule() -> (r: GitIgnorePattern)
        ensures
            r@ == git_dir_rule_view(),
    {
        let glob = vec!['.', 'g', 'i', 't'];
        assert(!glob@.contains('/')) by {
            assert(forall|x: int| 0 <= x < 4 ==> glob@[x] != '/');
        }
        assert(glob@ =~= git_dir_rule_view().glob);
        GitIgnorePattern {
            glob,
            negated: false,
            anchored: false,
            dir_only: true,
            has_slash: false,
            scope: Vec::new(),
        }
    }

    /// The rule `.gitignore` declared at the base: skip the ignore files
    /// themselves.
    pub fn ignore_file_rule() -> (r: GitIgnorePattern)
        ensures
            r@ == ignore_file_rule_view(),
    {
        let glob = vec!['.', 'g', 'i', 't', 'i', 'g', 'n', 'o', 'r', 'e'];
        assert(!glob@.contains('/')) by {
            assert(forall|x: int| 0 <= x < 10 ==> glob@[x] != '/');
        }
        assert(glob@ =~= ignore_file_rule_view().glob);
        GitIgnorePattern {
            glob,
            negated: false,
            anchored: false,
            dir_only: false,
            has_slash: false,
            scope: Vec::new(),
        }
    }

    /// The rule began with `!`.
    pub fn is_negation(&self) -> (r: bool)
        ensures
            r == self@.negated,
    {
        self.negated
    }

    fn matches_chars(&self, rel: &Vec<char>, is_dir: bool) -> (r: bool)
        ensures
            r == rule_matches(self@, rel@, is_dir),
    {
        proof {
            use_type_invariant(self);
        }
        if self.dir_only && !is_dir {
            return false;
        }
        if self.anchored || self.has_slash {
            return glob_matches(&self.glob, rel);
        }
        self.name_matches_chars(rel, is_dir)
    }

    fn name_matches_chars(&self, rel: &Vec<char>, is_dir: bool) -> (r: bool)
        ensures
            r == name_matches(self@, rel@, is_dir),
    {
        proof {
            use_type_invariant(self);
        }
        if self.dir_only && !is_dir {
            return false;
        }
        let comps = split_chars(rel, '/');
        proof {
            lemma_split_from_nonempty(rel@, '/', 0, 0);
            assert(views(comps@).len() == comps@.len());
        }
        let n = comps.len();
        assert(views(comps@)[n - 1] == comps@[n - 1]@);
        if glob_matches(&self.glob, &comps[n - 1]) {
            return true;
        }
        if !is_dir {
            return false;
        }
        let mut k: usize = 0;
        while k < n
            invariant
                k <= n,
                n == comps@.len(),
                views(comps@) == split(rel@, '/'),
                is_dir,
                !(self.dir_only && !is_dir),
                forall|x: int| 0 <= x < k ==> !glob_match(self.glob@, #[trigger] split(rel@, '/')[x]),
            decreases n - k,
        {
            assert(views(comps@)[k as int] == comps@[k as int]@);
            if glob_matches(&self.glob, &comps[k]) {
                assert(glob_match(self@.glob, split(rel@, '/')[k as int]));
                return true;
            }
            k = k + 1;
        }
        false
    }

    /// Whether this rule, taken as a bare name whatever its `/` markers,
    /// matches `path`: its glob matches the final component, or `path` is a
    /// directory and the glob matches one of its components. A rule that
    /// ended with `/` never matches a file.
    pub fn matches_against_any_component(&self, path: &str, is_dir: bool) -> (r: bool)
        ensures
            r == name_matches(self@, path@, is_dir),
    {
        let p = chars_of(path);
        self.name_matches_chars(&p, is_dir)
    }

    /// Whether glob `pattern` matches the whole of `text`: `*` takes any run
    /// of characters, `?` exactly one; a lone `*` matches any text without a
    /// `/`.
    pub fn simple_glob_match(pattern: &str, text: &str) -> (r: bool)
        ensures
            r == glob_match(pattern@, text@),
    {
        let p = chars_of(pattern);
        let t = chars_of(text);
        glob_matches(&p, &t)
    }

    /// Whether this rule matches `rel`, a path relative to the directory that
    /// declared it.
    pub fn matches(&self, rel: &str, is_dir: bool) -> (r: bool)
        ensures
            r == rule_matches(self@, rel@, is_dir),
    {
        let p = chars_of(rel);
        self.matches_chars(&p, is_dir)
    }

    /// Whether this rule speaks of `path`, given relative to the walk's base:
    /// the path lies in the rule's scope and the rule matches it from there.
    pub fn applies_to(&self, path: &str, is_dir: bool) -> (r: bool)
        ensures
            r == rule_applies(self@, path@, is_dir),
    {
        let p = chars_of(path);
        let sl = self.scope.len();
        if sl == 0 {
            return self.matches_chars(&p, is_dir);
        }
        if p.len() <= sl || p[sl] != '/' {
            return false;
        }
        let mut k: usize = 0;
        while k < sl
            invariant
                k <= sl,
                sl == self.scope@.len(),
                sl < p@.len(),
                p@ == path@,
                forall|x: int| 0 <= x < k ==> p@[x] == self.scope@[x],
            decreases sl - k,
        {
            if p[k] != self.scope[k] {
                assert(p@.subrange(0, sl as int)[k as int] != self.scope@[k as int]);
                assert(p@.subrange(0, sl as int) != self@.scope);
                return false;
            }
            k = k + 1;
        }
        assert(p@.subrange(0, sl as int) =~= self.scope@);
        let rel = copy_range(&p, sl + 1, p.len());
        self.matches_chars(&rel, is_dir)
    }
}

} // verus!
