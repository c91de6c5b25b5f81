use vstd::prelude::*;
use vstd::relations::sorted_by;
use crate::gitignore::{ignored_by, default_rules};
use crate::glob::{glob_match, wild_at};
use crate::order::lemma_entry_le_total;
use crate::pattern::{
    RuleView, rule_matches, rule_applies, last_component, in_scope, relative_to,
    git_dir_name, ignore_file_name, git_dir_rule_view, ignore_file_rule_view,
};
use crate::walk::{
    WalkConfig, StepView, steps_for, plan, entry_order, skips_directory, is_child, is_entry_name,
    child_path, step_path,
};

verus! {

/// A glob without `*` or `?`.
pub open spec fn is_literal(g: Seq<char>) -> bool {
    !g.contains('*') && !g.contains('?')
}

proof fn lemma_wild_self(g: Seq<char>, i: int)
    requires
        0 <= i <= g.len(),
    ensures
        wild_at(g, g, i, i),
    decreases g.len() - i,
{
    if i < g.len() {
        lemma_wild_self(g, i + 1);
        if g[i] == '*' {
            assert(wild_at(g, g, i + 1, i + 1));
            assert(wild_at(g, g, i, i + 1));
        }
    }
}

/// Every glob matches its own text.
pub proof fn lemma_glob_matches_itself(g: Seq<char>)
    ensures
        glob_match(g, g),
{
    lemma_wild_self(g, 0);
    if g == seq!['*'] {
        assert(!g.contains('/')) by {
            assert(g[0] == '*');
        }
    }
}

proof fn lemma_wild_literal(g: Seq<char>, t: Seq<char>, i: int, j: int)
    requires
        0 <= i <= g.len(),
        0 <= j <= t.len(),
        is_literal(g),
    ensures
        wild_at(g, t, i, j) <==> g.subrange(i, g.len() as int) == t.subrange(j, t.len() as int),
    decreases g.len() - i,
{
    let gs = g.subrange(i, g.len() as int);
    let ts = t.subrange(j, t.len() as int);
    if i < g.len() {
        assert(g[i] != '*' && g[i] != '?') by {
            if g[i] == '*' || g[i] == '?' {
                assert(g.contains(g[i]));
            }
        }
        if j < t.len() {
            lemma_wild_literal(g, t, i + 1, j + 1);
            assert(gs.drop_first() =~= g.subrange(i + 1, g.len() as int));
            assert(ts.drop_first() =~= t.subrange(j + 1, t.len() as int));
            if gs == ts {
                assert(gs[0] == ts[0]);
            }
            assert(gs =~= seq![g[i]] + gs.drop_first());
            assert(ts =~= seq![t[j]] + ts.drop_first());
        } else {
            assert(ts.len() == 0);
        }
    } else {
        assert(gs.len() == 0);
        if ts.len() == 0 {
            assert(gs =~= ts);
        }
    }
}

/// A glob without wildcards matches exactly its own text.
pub proof fn lemma_literal_glob(g: Seq<char>, t: Seq<char>)
    requires
        is_literal(g),
    ensures
        glob_match(g, t) <==> g == t,
{
    lemma_wild_literal(g, t, 0, 0);
    assert(g.subrange(0, g.len() as int) =~= g);
    assert(t.subrange(0, t.len() as int) =~= t);
    if g == seq!['*'] {
        assert(g.contains('*')) by {
            assert(g[0] == '*');
        }
    }
}

/// An anchored rule without wildcards matches, inside its scope, only the
/// entry at the scope's root that bears its exact name: `/build` matches
/// `build` and not `src/build`.
pub proof fn law_anchored_matches_only_at_root(r: RuleView, rel: Seq<char>, is_dir: bool)
    requires
        r.anchored,
        !r.dir_only,
        is_literal(r.glob),
    ensures
        rule_matches(r, rel, is_dir) <==> rel == r.glob,
{
    lemma_literal_glob(r.glob, rel);
}

/// A rule with neither a leading `/` nor an inner `/` matches an entry whose
/// final name it matches, at any depth: `build` matches `build`,
/// `src/build` and `a/b/build`.
pub proof fn law_bare_name_matches_at_any_depth(r: RuleView, rel: Seq<char>, is_dir: bool)
    requires
        !r.anchored,
        !r.dir_only,
        !r.glob.contains('/'),
        last_component(rel) == r.glob,
    ensures
        rule_matches(r, rel, is_dir),
{
    lemma_glob_matches_itself(r.glob);
}

/// A rule that ends with `/` matches a directory of its name and never a
/// plain file: `out/` matches the directory `out`, not the file `out`.
pub proof fn law_directory_only(r: RuleView, rel: Seq<char>)
    requires
        r.dir_only,
        !r.anchored,
        !r.glob.contains('/'),
        last_component(rel) == r.glob,
    ensures
        rule_matches(r, rel, true),
        !rule_matches(r, rel, false),
{
    lemma_glob_matches_itself(r.glob);
}

/// Added rules never turn an ignored path back into a kept one unless one of
/// them is a negation that applies to it.
pub proof fn lemma_ignored_stays_ignored(
    rules: Seq<RuleView>,
    extra: Seq<RuleView>,
    path: Seq<char>,
    is_dir: bool,
)
    requires
        ignored_by(rules, path, is_dir),
        forall|i: int| 0 <= i < extra.len() && (#[trigger] extra[i]).negated ==> !rule_applies(extra[i], path, is_dir),
    ensures
        ignored_by(rules + extra, path, is_dir),
    decreases extra.len(),
{
    if extra.len() == 0 {
        assert(rules + extra =~= rules);
    } else {
        lemma_ignored_stays_ignored(rules, extra.drop_last(), path, is_dir);
        assert((rules + extra).drop_last() =~= rules + extra.drop_last());
        assert((rules + extra).last() == extra[extra.len() - 1]);
    }
}

/// The default rules stay in force under any rules added after them unless
/// a later negation re-includes the path itself: an entry named `.gitignore`
/// and a directory named `.git` are ignored wherever they are.
pub proof fn law_default_rules_hold(extra: Seq<RuleView>, path: Seq<char>, is_dir: bool)
    requires
        forall|i: int| 0 <= i < extra.len() && (#[trigger] extra[i]).negated ==> !rule_applies(extra[i], path, is_dir),
    ensures
        last_component(path) == ignore_file_name() ==> ignored_by(default_rules() + extra, path, is_dir),
        last_component(path) == git_dir_name() && is_dir ==> ignored_by(default_rules() + extra, path, true),
{
    let d = default_rules();
    assert(!ignore_file_name().contains('/')) by {
        assert(forall|x: int| 0 <= x < 10 ==> ignore_file_name()[x] != '/');
    }
    assert(!git_dir_name().contains('/')) by {
        assert(forall|x: int| 0 <= x < 4 ==> git_dir_name()[x] != '/');
    }
    assert(d.drop_last() =~= seq![git_dir_rule_view()]);
    assert(seq![git_dir_rule_view()].drop_last() =~= Seq::<RuleView>::empty());
    assert(in_scope(seq![], path) && relative_to(seq![], path) == path);
    if last_component(path) == ignore_file_name() {
        lemma_glob_matches_itself(ignore_file_name());
        assert(rule_applies(ignore_file_rule_view(), path, is_dir));
        assert(ignored_by(d, path, is_dir));
        lemma_ignored_stays_ignored(d, extra, path, is_dir);
    }
    if last_component(path) == git_dir_name() && is_dir {
        lemma_glob_matches_itself(git_dir_name());
        assert(rule_applies(git_dir_rule_view(), path, true));
        assert(ignored_by(seq![git_dir_rule_view()], path, true));
        if !rule_applies(ignore_file_rule_view(), path, true) {
            assert(ignored_by(d, path, true) == ignored_by(d.drop_last(), path, true));
        }
        assert(ignored_by(d, path, true));
        lemma_ignored_stays_ignored(d, extra, path, true);
    }
}

proof fn lemma_steps_unignored(
    cfg: WalkConfig,
    rules: Seq<RuleView>,
    filter: Option<Seq<char>>,
    dir: Seq<char>,
    es: Seq<(Seq<char>, bool)>,
    k: int,
)
    requires
        cfg.use_gitignore,
        0 <= k < steps_for(cfg, rules, filter, dir, es).len(),
    ensures
        match steps_for(cfg, rules, filter, dir, es)[k] {
            StepView::File(p) => !ignored_by(rules, p, false),
            StepView::Descend(p) => !ignored_by(rules, p, true) && !skips_directory(cfg, rules, p),
        },
    decreases es.len(),
{
    let earlier = steps_for(cfg, rules, filter, dir, es.drop_last());
    if k < earlier.len() {
        lemma_steps_unignored(cfg, rules, filter, dir, es.drop_last(), k);
    }
}

/// With ignore files in use, a directory's plan names no file and no
/// directory that its rules ignore, and every directory it descends into is
/// one the walk agrees to enter; so nothing below an ignored directory is
/// ever listed or collected.
pub proof fn law_plan_skips_ignored(
    cfg: WalkConfig,
    rules: Seq<RuleView>,
    filter: Option<Seq<char>>,
    dir: Seq<char>,
    listing: Seq<(Seq<char>, bool)>,
    k: int,
)
    requires
        cfg.use_gitignore,
        0 <= k < plan(cfg, rules, filter, dir, listing).len(),
    ensures
        match plan(cfg, rules, filter, dir, listing)[k] {
            StepView::File(p) => !ignored_by(rules, p, false),
            StepView::Descend(p) => !ignored_by(rules, p, true) && !skips_directory(cfg, rules, p),
        },
{
    lemma_steps_unignored(cfg, rules, filter, dir, listing.sort_by(entry_order()), k);
}

/// A directory's plan does not depend on the order in which its listing
/// came: two listings with the same entries give the same steps, so walking
/// an unchanged tree twice gives the same sequence.
pub proof fn law_plan_ignores_listing_order(
    cfg: WalkConfig,
    rules: Seq<RuleView>,
    filter: Option<Seq<char>>,
    dir: Seq<char>,
    l1: Seq<(Seq<char>, bool)>,
    l2: Seq<(Seq<char>, bool)>,
)
    requires
        l1.to_multiset() == l2.to_multiset(),
    ensures
        plan(cfg, rules, filter, dir, l1) == plan(cfg, rules, filter, dir, l2),
{
    lemma_entry_le_total();
    l1.lemma_sort_by_ensures(entry_order());
    l2.lemma_sort_by_ensures(entry_order());
    vstd::seq_lib::lemma_sorted_unique(l1.sort_by(entry_order()), l2.sort_by(entry_order()), entry_order());
}

/// A directory's entries are taken in sorted order (by name, then files
/// before directories), and each exactly once.
pub proof fn law_listing_taken_in_sorted_order(listing: Seq<(Seq<char>, bool)>)
    ensures
        sorted_by(listing.sort_by(entry_order()), entry_order()),
        listing.sort_by(entry_order()).to_multiset() == listing.to_multiset(),
{
    lemma_entry_le_total();
    listing.lemma_sort_by_ensures(entry_order());
}

/// An entry name joined to a directory names a child of that directory.
pub proof fn lemma_child_path_is_child(dir: Seq<char>, name: Seq<char>)
    requires
        is_entry_name(name),
    ensures
        is_child(dir, child_path(dir, name)),
{
    if dir.len() > 0 {
        let c = child_path(dir, name);
        assert(c.subrange(0, dir.len() as int) =~= dir);
        assert(c.subrange(dir.len() as int + 1, c.len() as int) =~= name);
        assert(c[dir.len() as int] == '/');
    }
}

proof fn lemma_steps_are_children(
    cfg: WalkConfig,
    rules: Seq<RuleView>,
    filter: Option<Seq<char>>,
    dir: Seq<char>,
    es: Seq<(Seq<char>, bool)>,
    k: int,
)
    requires
        forall|m: int| 0 <= m < es.len() ==> is_entry_name(#[trigger] es[m].0),
        0 <= k < steps_for(cfg, rules, filter, dir, es).len(),
    ensures
        is_child(dir, step_path(steps_for(cfg, rules, filter, dir, es)[k])),
    decreases es.len(),
{
    let earlier = steps_for(cfg, rules, filter, dir, es.drop_last());
    if k < earlier.len() {
        assert forall|m: int| 0 <= m < es.drop_last().len() implies is_entry_name(#[trigger] es.drop_last()[m].0) by {
            assert(es.drop_last()[m] == es[m]);
        }
        lemma_steps_are_children(cfg, rules, filter, dir, es.drop_last(), k);
    } else {
        lemma_child_path_is_child(dir, es[es.len() - 1].0);
    }
}

/// Every step of a directory's plan names an entry directly inside it, when
/// the listing holds entry names only.
pub proof fn law_plan_names_children(
    cfg: WalkConfig,
    rules: Seq<RuleView>,
    filter: Option<Seq<char>>,
    dir: Seq<char>,
    listing: Seq<(Seq<char>, bool)>,
    k: int,
)
    requires
        forall|m: int| 0 <= m < listing.len() ==> is_entry_name(#[trigger] listing[m].0),
        0 <= k < plan(cfg, rules, filter, dir, listing).len(),
    ensures
        is_child(dir, step_path(plan(cfg, rules, filter, dir, listing)[k])),
{
    lemma_entry_le_total();
    listing.lemma_sort_by_ensures(entry_order());
    let sorted = listing.sort_by(entry_order());
    assert forall|m: int| 0 <= m < sorted.len() implies is_entry_name(#[trigger] sorted[m].0) by {
        assert(sorted.contains(sorted[m]));
        assert(listing.contains(sorted[m]));
    }
    lemma_steps_are_children(cfg, rules, filter, dir, sorted, k);
}

} // verus!
