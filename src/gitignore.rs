use vstd::prelude::*;
use crate::glob::chars_of;
use crate::pattern::{
    GitIgnorePattern, RuleView, parse_rule, rule_applies, git_dir_rule_view,
    ignore_file_rule_view,
};
use crate::text::{split, split_chars, views};

verus! {

/// Whether `path` ends up ignored under `rules`: the last rule that applies
/// to it decides, and a path that no rule applies to is kept.
pub open spec fn ignored_by(rules: Seq<RuleView>, path: Seq<char>, is_dir: bool) -> bool
    decreases rules.len(),
{
    if rules.len() == 0 {
        false
    } else if rule_applies(rules.last(), path, is_dir) {
        !rules.last().negated
    } else {
        ignored_by(rules.drop_last(), path, is_dir)
    }
}

/// The rules that a sequence of lines declares in `scope`, in line order.
pub open spec fn rules_of_lines(lines: Seq<Seq<char>>, scope: Seq<char>) -> Seq<RuleView>
    decreases lines.len(),
{
    if lines.len() == 0 {
        seq![]
    } else {
        let earlier = rules_of_lines(lines.drop_last(), scope);
        match parse_rule(lines.last(), scope) {
            Some(r) => earlier.push(r),
            None => earlier,
        }
    }
}

/// The rules that the text of an ignore file declares in `scope`.
pub open spec fn rules_of_text(text: Seq<char>, scope: Seq<char>) -> Seq<RuleView> {
    rules_of_lines(split(text, '\n'), scope)
}

/// The rules that are always in force when ignore files are used.
pub open spec fn default_rules() -> Seq<RuleView> {
    seq![git_dir_rule_view(), ignore_file_rule_view()]
}

/// The rule views of a list of rules.
pub open spec fn rule_views(v: Seq<GitIgnorePattern>) -> Seq<RuleView> {
    v.map_values(|p: GitIgnorePattern| p@)
}

/// An ordered list of ignore rules.
pub struct GitIgnore {
    patterns: Vec<GitIgnorePattern>,
}

impl View for GitIgnore {
    type V = Seq<RuleView>;

    closed spec fn view(&self) -> Seq<RuleView> {
        rule_views(self.patterns@)
    }
}

impl Clone for GitIgnore {
    fn clone(&self) -> (r: Self)
        ensures
            r@ == self@,
    {
        let mut out: Vec<GitIgnorePattern> = Vec::new();
        let mut k: usize = 0;
        while k < self.patterns.len()
            invariant
                k <= self.patterns@.len(),
                rule_views(out@) =~= rule_views(self.patterns@).subrange(0, k as int),
            decreases self.patterns@.len() - k,
        {
            let p = self.patterns[k].clone();
            assert(p@ == self.patterns@[k as int]@);
            let ghost before = out@;
            out.push(p);
            assert(rule_views(out@) =~= rule_views(before).push(p@));
            k = k + 1;
        }
        assert(rule_views(out@) =~= rule_views(self.patterns@));
        GitIgnore { patterns: out }
    }
}

impl GitIgnore {
    /// A set with no rules.
    pub fn empty() -> (r: GitIgnore)
        ensures
            r@ == Seq::<RuleView>::empty(),
    {
        let r = GitIgnore { patterns: Vec::new() };
        assert(r@ =~= Seq::<RuleView>::empty());
        r
    }

    /// A set that holds the two rules always in force: `.git/` and
    /// `.gitignore`, declared at the base.
    pub fn with_defaults() -> (r: GitIgnore)
        ensures
            r@ == default_rules(),
    {
        let mut patterns: Vec<GitIgnorePattern> = Vec::new();
        patterns.push(GitIgnorePattern::git_dir_rule());
        patterns.push(GitIgnorePattern::ignore_file_rule());
        let r = GitIgnore { patterns };
        assert(r@ =~= default_rules());
        r
    }

    /// The number of rules.
    pub fn len(&self) -> (r: usize)
        ensures
            r == self@.len(),
    {
        self.patterns.len()
    }

    /// Appends `other`'s rules after this set's own, in their order.
    pub fn merge(&mut self, other: GitIgnore)
        ensures
            final(self)@ == old(self)@ + other@,
    {
        let mut more = other.patterns;
        self.patterns.append(&mut more);
        assert(rule_views(self.patterns@) =~= rule_views(old(self).patterns@) + rule_views(other.patterns@));
    }

    /// Whether `path` (relative to the walk's base, `/`-separated) is ignored:
    /// each rule that applies sets the verdict to "ignored" unless it is a
    /// negation, in which case it sets it to "kept"; the last one wins.
    pub fn should_ignore(&self, path: &str, is_dir: bool) -> (r: bool)
        ensures
            r == ignored_by(self@, path@, is_dir),
    {
        let mut ignored = false;
        let mut k: usize = 0;
        while k < self.patterns.len()
            invariant
                k <= self.patterns@.len(),
                ignored == ignored_by(self@.subrange(0, k as int), path@, is_dir),
            decreases self.patterns@.len() - k,
        {
            let p = &self.patterns[k];
            let ghost seen = self@.subrange(0, k as int + 1);
            assert(seen.drop_last() =~= self@.subrange(0, k as int));
            assert(seen.last() == p@);
            if p.applies_to(path, is_dir) {
                ignored = !p.is_negation();
            }
            k = k + 1;
        }
        assert(self@.subrange(0, k as int) =~= self@);
        ignored
    }
}

/// The rules that the text of an ignore file declares, scoped to directory
/// `scope` (relative to the walk's base, empty for the base): one rule per
/// line, skipping blank lines and lines that begin with `#`.
pub fn load_gitignore(contents: &str, scope: &str) -> (r: GitIgnore)
    ensures
        r@ == rules_of_text(contents@, scope@),
{
    let text = chars_of(contents);
    let scope_chars = chars_of(scope);
    let lines = split_chars(&text, '\n');
    let mut patterns: Vec<GitIgnorePattern> = Vec::new();
    let mut k: usize = 0;
    while k < lines.len()
        invariant
            k <= lines@.len(),
            views(lines@) == split(contents@, '\n'),
            scope_chars@ == scope@,
            rule_views(patterns@) == rules_of_lines(views(lines@).subrange(0, k as int), scope@),
        decreases lines@.len() - k,
    {
        let ghost upto = views(lines@).subrange(0, k as int + 1);
        assert(upto.drop_last() =~= views(lines@).subrange(0, k as int));
        assert(upto.last() == lines@[k as int]@);
        match GitIgnorePattern::parse_chars(&lines[k], &scope_chars) {
            Some(p) => {
                patterns.push(p);
                assert(rule_views(patterns@) =~= rules_of_lines(upto, scope@));
            },
            None => {},
        }
        k = k + 1;
    }
    assert(views(lines@).subrange(0, k as int) =~= views(lines@));
    GitIgnore { patterns }
}

} // verus!
