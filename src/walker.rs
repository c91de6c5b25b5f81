use vstd::prelude::*;
use crate::filter::PathFilter;
use crate::gitignore::{GitIgnore, ignored_by};
use crate::laws::{law_plan_skips_ignored, law_plan_names_children, law_default_rules_hold};
use crate::gitignore::default_rules;
use crate::pattern::{rule_applies, last_component, ignore_file_name, git_dir_name};
use crate::pattern::RuleView;
use crate::walk::{
    WalkConfig, DirEntry, Step, StepView, base_gitignore, base_rules, enter_directory,
    plan_directory, plan, rules_inside, skips_directory, entry_views, step_views, entry_order,
    ignored_for, unmatched_for, string_views, is_entry_name, is_child, step_path, Plan,
};

verus! {

/// What the walk asks its caller to do next; paths are relative to the base.
#[derive(Debug, PartialEq, Eq)]
pub enum Action {
    /// Collect this file.
    Collect(String),
    /// Read this directory's listing and its `.gitignore`, if any, and hand
    /// them to `Walker::listed`.
    List(String),
    /// The walk is over.
    Done,
}

/// An action with its path as a character sequence.
pub enum ActionView {
    Collect(Seq<char>),
    List(Seq<char>),
    Done,
}

impl View for Action {
    type V = ActionView;

    open spec fn view(&self) -> ActionView {
        match self {
            Action::Collect(p) => ActionView::Collect(p@),
            Action::List(p) => ActionView::List(p@),
            Action::Done => ActionView::Done,
        }
    }
}

/// Work the walk has still to do: a file to collect, or a directory to
/// enter with the rules in force in its parent.
enum Pending {
    File(String, Ghost<Seq<(Seq<char>, Seq<RuleView>)>>, Ghost<Seq<RuleView>>),
    Dir(String, GitIgnore, Ghost<Seq<(Seq<char>, Seq<RuleView>)>>),
}

/// A pending item with its path and rules as sequences.
pub enum PendingView {
    File(Seq<char>),
    Dir(Seq<char>, Seq<RuleView>),
}

impl Pending {
    closed spec fn view(&self) -> PendingView {
        match self {
            Pending::File(p, _, _) => PendingView::File(p@),
            Pending::Dir(p, g, _) => PendingView::Dir(p@, g@),
        }
    }

    /// The directories the item lies below, from the base down, each with
    /// the rules that admitted it; a directory item's own entry is not
    /// among them.
    closed spec fn admitted(&self, cfg: WalkConfig) -> bool {
        match self {
            Pending::File(p, a, r) => collectable(cfg, a@, r@, p@),
            Pending::Dir(p, g, a) => admitted_chain(cfg, a@.push((p@, g@))),
        }
    }
}

/// A chain of directories the walk entered, from the base down: each later
/// one directly inside the one before, and none ignored by the rules in
/// force in its parent, which the chain records beside it.
pub open spec fn admitted_chain(cfg: WalkConfig, a: Seq<(Seq<char>, Seq<RuleView>)>) -> bool {
    &&& a.len() >= 1
    &&& a[0].0 == Seq::<char>::empty()
    &&& forall|k: int| 0 <= k < a.len() ==> keeps_defaults(cfg, (#[trigger] a[k]).1)
    &&& forall|k: int| 1 <= k < a.len() ==> is_child(a[k - 1].0, #[trigger] a[k].0) && !skips_directory(
        cfg,
        a[k].1,
        a[k].0,
    )
}

/// Whether a rule set begins with the rules a walk starts from.
pub open spec fn keeps_defaults(cfg: WalkConfig, rules: Seq<RuleView>) -> bool {
    rules.len() >= base_rules(cfg).len() && rules.subrange(0, base_rules(cfg).len() as int) == base_rules(cfg)
}

/// What holds of every file the walk collects: it lies directly inside the
/// last directory of an admitted chain, and the rules in force there, which
/// begin with the walk's starting rules, do not ignore it.
pub open spec fn collectable(
    cfg: WalkConfig,
    a: Seq<(Seq<char>, Seq<RuleView>)>,
    rules: Seq<RuleView>,
    p: Seq<char>,
) -> bool {
    &&& admitted_chain(cfg, a)
    &&& is_child(a.last().0, p)
    &&& keeps_defaults(cfg, rules)
    &&& cfg.use_gitignore ==> !ignored_by(rules, p, false)
}

/// Whether directory `d` holds `p` at some depth: `p` begins with `d`
/// followed by `/`.
pub open spec fn holds_below(d: Seq<char>, p: Seq<char>) -> bool {
    d.len() < p.len() && p.subrange(0, d.len() as int) == d && p[d.len() as int] == '/'
}

/// Nothing below an ignored directory is collected: for a path directly
/// inside the last directory of an admitted chain (as every file the walk
/// collects is), each directory that holds the path at any depth is one of
/// the chain's, so the rules in force in its parent did not ignore it.
pub proof fn law_nothing_collected_below_ignored_directory(
    cfg: WalkConfig,
    a: Seq<(Seq<char>, Seq<RuleView>)>,
    p: Seq<char>,
    d: Seq<char>,
)
    requires
        admitted_chain(cfg, a),
        is_child(a.last().0, p),
        d.len() > 0,
        holds_below(d, p),
    ensures
        exists|k: int| 1 <= k < a.len() && (#[trigger] a[k]).0 == d && !skips_directory(cfg, a[k].1, d),
    decreases a.len(),
{
    let parent = a.last().0;
    let n = parent.len() as int;
    if n == 0 {
        assert(p.contains(p[d.len() as int]));
    } else {
        let name = p.subrange(n + 1, p.len() as int);
        if d.len() > n {
            assert(name[d.len() - n - 1] == p[d.len() as int]);
            assert(name.contains(name[d.len() - n - 1]));
        } else if d.len() == n {
            assert(d =~= parent) by {
                assert(d == p.subrange(0, d.len() as int));
                assert(parent == p.subrange(0, n));
            }
            assert(a.len() >= 2) by {
                if a.len() == 1 {
                    assert(parent == a[0].0);
                }
            }
            let k = a.len() - 1;
            assert(a[k].0 == d && !skips_directory(cfg, a[k].1, d));
        } else {
            let b = a.drop_last();
            assert(a.len() >= 2) by {
                if a.len() == 1 {
                    assert(parent == a[0].0);
                }
            }
            assert(admitted_chain(cfg, b)) by {
                assert forall|k: int| 1 <= k < b.len() implies is_child(b[k - 1].0, #[trigger] b[k].0) && !skips_directory(cfg, b[k].1, b[k].0) by {
                    assert(b[k] == a[k] && b[k - 1] == a[k - 1]);
                }
            }
            let last = a.len() - 1;
            assert(is_child(a[last - 1].0, a[last].0));
            assert(b.last() == a[last - 1]);
            assert(holds_below(d, parent)) by {
                assert(p.subrange(0, n) == parent);
                assert(parent.subrange(0, d.len() as int) =~= p.subrange(0, d.len() as int));
                assert(parent[d.len() as int] == p.subrange(0, n)[d.len() as int]);
            }
            law_nothing_collected_below_ignored_directory(cfg, b, parent, d);
            let k = choose|k: int| 1 <= k < b.len() && (#[trigger] b[k]).0 == d && !skips_directory(cfg, b[k].1, d);
            assert(a[k] == b[k]);
        }
    }
}

proof fn lemma_defaults_then_rest(cfg: WalkConfig, rules: Seq<RuleView>)
    requires
        cfg.use_gitignore,
        keeps_defaults(cfg, rules),
    ensures
        rules =~= default_rules() + rules.subrange(2, rules.len() as int),
{
    assert(rules.subrange(0, 2) == default_rules());
    assert forall|i: int| 0 <= i < 2 implies rules[i] == default_rules()[i] by {
        assert(rules.subrange(0, 2)[i] == rules[i]);
    }
}

/// With ignore files in use, the walk never collects a file named
/// `.gitignore`, unless a rule added after the default ones re-includes
/// that very file.
pub proof fn law_ignore_files_never_collected(
    cfg: WalkConfig,
    a: Seq<(Seq<char>, Seq<RuleView>)>,
    rules: Seq<RuleView>,
    p: Seq<char>,
)
    requires
        cfg.use_gitignore,
        collectable(cfg, a, rules, p),
        forall|i: int| 2 <= i < rules.len() && (#[trigger] rules[i]).negated ==> !rule_applies(rules[i], p, false),
    ensures
        last_component(p) != ignore_file_name(),
{
    lemma_defaults_then_rest(cfg, rules);
    let extra = rules.subrange(2, rules.len() as int);
    assert forall|i: int| 0 <= i < extra.len() && (#[trigger] extra[i]).negated implies !rule_applies(extra[i], p, false) by {
        assert(extra[i] == rules[i + 2]);
    }
    law_default_rules_hold(extra, p, false);
}

/// With ignore files in use, no file the walk collects lies, at any depth,
/// inside a directory named `.git`, unless a rule added after the default
/// ones, where that directory was met, re-includes it.
pub proof fn law_git_directories_never_entered(
    cfg: WalkConfig,
    a: Seq<(Seq<char>, Seq<RuleView>)>,
    rules: Seq<RuleView>,
    p: Seq<char>,
    d: Seq<char>,
)
    requires
        cfg.use_gitignore,
        collectable(cfg, a, rules, p),
        d.len() > 0,
        holds_below(d, p),
        forall|k: int, i: int|
            0 <= k < a.len() && 2 <= i < a[k].1.len() && (#[trigger] a[k].1[i]).negated ==> !rule_applies(
                a[k].1[i],
                d,
                true,
            ),
    ensures
        last_component(d) != git_dir_name(),
{
    law_nothing_collected_below_ignored_directory(cfg, a, p, d);
    let k = choose|k: int| 1 <= k < a.len() && (#[trigger] a[k]).0 == d && !skips_directory(cfg, a[k].1, d);
    let r = a[k].1;
    assert(keeps_defaults(cfg, r));
    lemma_defaults_then_rest(cfg, r);
    let extra = r.subrange(2, r.len() as int);
    assert forall|i: int| 0 <= i < extra.len() && (#[trigger] extra[i]).negated implies !rule_applies(extra[i], d, true) by {
        assert(extra[i] == a[k].1[i + 2]);
    }
    law_default_rules_hold(extra, d, true);
}

proof fn lemma_extend_chain(cfg: WalkConfig, a: Seq<(Seq<char>, Seq<RuleView>)>, x: (Seq<char>, Seq<RuleView>))
    requires
        admitted_chain(cfg, a),
        is_child(a.last().0, x.0),
        !skips_directory(cfg, x.1, x.0),
        keeps_defaults(cfg, x.1),
    ensures
        admitted_chain(cfg, a.push(x)),
{
    let b = a.push(x);
    assert forall|k: int| 1 <= k < b.len() implies is_child(b[k - 1].0, #[trigger] b[k].0) && !skips_directory(cfg, b[k].1, b[k].0) by {
        if k < a.len() {
            assert(b[k] == a[k] && b[k - 1] == a[k - 1]);
        }
    }
    assert forall|k: int| 0 <= k < b.len() implies keeps_defaults(cfg, (#[trigger] b[k]).1) by {
        if k < a.len() {
            assert(b[k] == a[k]);
        }
    }
}

/// The pending item that a planned step becomes, `rules` being those in
/// force where it was planned.
pub open spec fn pending_of(s: StepView, rules: Seq<RuleView>) -> PendingView {
    match s {
        StepView::File(p) => PendingView::File(p),
        StepView::Descend(p) => PendingView::Dir(p, rules),
    }
}

/// The planned steps as they lie on the stack of pending work: the first
/// step on top, that is last.
pub open spec fn stacked(steps: Seq<StepView>, rules: Seq<RuleView>) -> Seq<PendingView> {
    Seq::new(steps.len(), |i: int| pending_of(steps[steps.len() - 1 - i], rules))
}

/// What the walk made of one directory's listing.
pub struct Listed {
    /// How many steps went on top of the pending work.
    pub planned: usize,
    /// How many entries the rules did not ignore.
    pub survivors: usize,
    /// The entries the rules ignored, in the walk's order.
    pub ignored: Vec<String>,
    /// The files the rules kept but the filter did not match, in the walk's
    /// order.
    pub unmatched: Vec<String>,
}

impl Listed {
    /// Whether nothing was planned, kept or turned away.
    pub open spec fn is_empty(&self) -> bool {
        &&& self.planned == 0
        &&& self.survivors == 0
        &&& self.ignored@.len() == 0
        &&& self.unmatched@.len() == 0
    }

    /// The report for a listing that the walk did not take.
    pub fn nothing() -> (r: Listed)
        ensures
            r.is_empty(),
    {
        Listed { planned: 0, survivors: 0, ignored: Vec::new(), unmatched: Vec::new() }
    }
}

/// A depth-first walk of one directory tree, driven by its caller: `next`
/// says what to do, and `listed` takes the listing of a directory that
/// `next` asked for. Each directory's entries are taken in sorted order, and
/// a directory's contents come right after it, before its later siblings.
pub struct Walker {
    cfg: WalkConfig,
    filter: Option<PathFilter>,
    pending: Vec<Pending>,
    awaiting: Option<(String, GitIgnore, Ghost<Seq<(Seq<char>, Seq<RuleView>)>>)>,
}

/// Whether pending item `p` is a directory that the rules in force in its
/// parent tell the walk to skip.
pub open spec fn skipped_item(cfg: WalkConfig, p: PendingView) -> bool {
    match p {
        PendingView::Dir(d, rules) => skips_directory(cfg, rules, d),
        PendingView::File(_) => false,
    }
}

impl Walker {
    #[verifier::type_invariant]
    spec fn no_skipped_work(&self) -> bool {
        &&& forall|i: int| 0 <= i < self.pending@.len() ==> !skipped_item(self.cfg, #[trigger] self.pending@[i].view())
        &&& forall|i: int| 0 <= i < self.pending@.len() ==> (#[trigger] self.pending@[i]).admitted(self.cfg)
        &&& match self.awaiting {
            Some((d, g, a)) => !skips_directory(self.cfg, g@, d@) && admitted_chain(self.cfg, a@.push((d@, g@))),
            None => true,
        }
    }

    /// How the walk treats what it finds.
    pub closed spec fn config(&self) -> WalkConfig {
        self.cfg
    }

    /// The pattern of the walk's path filter, if any.
    pub closed spec fn filter_view(&self) -> Option<Seq<char>> {
        match self.filter {
            Some(f) => Some(f@),
            None => None,
        }
    }

    /// The work still to do, the next item last.
    pub closed spec fn pending(&self) -> Seq<PendingView> {
        self.pending@.map_values(|p: Pending| p.view())
    }

    /// The directory whose listing the walk waits for, with the rules in
    /// force in its parent.
    pub closed spec fn awaiting(&self) -> Option<(Seq<char>, Seq<RuleView>)> {
        match self.awaiting {
            Some((d, g, _)) => Some((d@, g@)),
            None => None,
        }
    }

    /// A walk whose first step is to list the base directory.
    pub fn new(cfg: WalkConfig, filter: Option<PathFilter>) -> (r: Walker)
        ensures
            r.config() == cfg,
            r.filter_view() == match filter {
                Some(f) => Some(f@),
                None => None::<Seq<char>>,
            },
            r.pending() == seq![PendingView::Dir(Seq::empty(), base_rules(cfg))],
            r.awaiting() is None,
    {
        let base = base_gitignore(&cfg);
        let mut pending: Vec<Pending> = Vec::new();
        pending.push(Pending::Dir(String::new(), base, Ghost(Seq::empty())));
        proof {
            let m = base_rules(cfg).len() as int;
            assert(base_rules(cfg).subrange(0, m) =~= base_rules(cfg));
            let a = seq![(Seq::<char>::empty(), base_rules(cfg))];
            assert(Seq::<(Seq<char>, Seq<RuleView>)>::empty().push((Seq::<char>::empty(), base_rules(cfg))) =~= a);
            assert(admitted_chain(cfg, a));
        }
        let r = Walker { cfg, filter, pending, awaiting: None };
        assert(r.pending() =~= seq![PendingView::Dir(Seq::empty(), base_rules(cfg))]);
        r
    }

    /// The next thing to do: collect the file on top of the pending work,
    /// list the directory on top of it (which the walk then waits for), or
    /// stop when nothing is left. A listing still awaited is given up. The
    /// walk never asks to list a directory that the rules in force in its
    /// parent ignore, and every file it collects is `collectable`: it lies
    /// below a chain of directories so admitted, and the rules in force
    /// beside it keep it.
    pub fn next(&mut self) -> (r: Action)
        ensures
            final(self).config() == old(self).config(),
            final(self).filter_view() == old(self).filter_view(),
            old(self).pending().len() == 0 ==> r@ == ActionView::Done && final(self).pending()
                == old(self).pending() && final(self).awaiting() is None,
            old(self).pending().len() > 0 ==> final(self).pending() == old(self).pending().drop_last()
                && match old(self).pending().last() {
                PendingView::File(p) => r@ == ActionView::Collect(p) && final(self).awaiting() is None,
                PendingView::Dir(p, rules) => r@ == ActionView::List(p) && final(self).awaiting()
                    == Some((p, rules)),
            },
            r matches Action::List(p) ==> final(self).awaiting() matches Some((d, rules)) && d == p@
                && !skips_directory(final(self).config(), rules, d),
            r matches Action::Collect(p) ==> exists|a: Seq<(Seq<char>, Seq<RuleView>)>, rules: Seq<RuleView>|
                #[trigger] collectable(final(self).config(), a, rules, p@),
    {
        proof {
            use_type_invariant(&*self);
        }
        let mut nothing: Option<(String, GitIgnore, Ghost<Seq<(Seq<char>, Seq<RuleView>)>>)> = None;
        std::mem::swap(&mut self.awaiting, &mut nothing);
        let ghost before = self.pending@;
        let mut pending: Vec<Pending> = Vec::new();
        std::mem::swap(&mut self.pending, &mut pending);
        let popped = pending.pop();
        std::mem::swap(&mut self.pending, &mut pending);
        match popped {
            None => {
                Action::Done
            },
            Some(Pending::File(p, a, rules)) => {
                assert(self.pending@.map_values(|p: Pending| p.view()) =~= before.map_values(
                    |p: Pending| p.view(),
                ).drop_last());
                assert(before[before.len() - 1].admitted(self.cfg));
                assert(collectable(self.cfg, a@, rules@, p@));
                assert(self.config() == self.cfg);
                assert(collectable(self.config(), a@, rules@, p@));
                Action::Collect(p)
            },
            Some(Pending::Dir(p, g, a)) => {
                assert(self.pending@.map_values(|p: Pending| p.view()) =~= before.map_values(
                    |p: Pending| p.view(),
                ).drop_last());
                assert(before[before.len() - 1].admitted(self.cfg));
                let out = String::from_str(p.as_str());
                let mut awaited = Some((p, g, a));
                std::mem::swap(&mut self.awaiting, &mut awaited);
                Action::List(out)
            },
        }
    }

    /// Takes the listing of the directory the walk waits for, and the text
    /// of its ignore file when it has one. Unless the rules in force in its
    /// parent ignore that directory, its planned steps go on top of the
    /// pending work, the first on top. Reports how many steps were planned,
    /// how many entries survive the rules, and which entries the rules and
    /// the filter turned away.
    pub fn listed(&mut self, local: Option<&str>, entries: Vec<DirEntry>) -> (r: Listed)
        requires
            forall|i: int| 0 <= i < entries@.len() ==> is_entry_name(#[trigger] entries@[i].name@),
        ensures
            final(self).config() == old(self).config(),
            final(self).filter_view() == old(self).filter_view(),
            final(self).awaiting() is None,
            match old(self).awaiting() {
                None => r.is_empty() && final(self).pending() == old(self).pending(),
                Some((d, inherited)) => if skips_directory(old(self).config(), inherited, d) {
                    r.is_empty() && final(self).pending() == old(self).pending()
                } else {
                    let inside = rules_inside(old(self).config(), inherited, d, match local {
                        Some(t) => Some(t@),
                        None => None,
                    });
                    let steps = plan(old(self).config(), inside, old(self).filter_view(), d, entry_views(entries@));
                    let sorted = entry_views(entries@).sort_by(entry_order());
                    let ignored = ignored_for(old(self).config(), inside, d, sorted);
                    &&& r.planned == steps.len()
                    &&& r.survivors == entries@.len() - ignored.len()
                    &&& string_views(r.ignored@) == ignored
                    &&& string_views(r.unmatched@) == unmatched_for(old(self).config(), inside, old(self).filter_view(), d, sorted)
                    &&& final(self).pending() == old(self).pending() + stacked(steps, inside)
                },
            },
    {
        proof {
            use_type_invariant(&*self);
        }
        let mut awaited: Option<(String, GitIgnore, Ghost<Seq<(Seq<char>, Seq<RuleView>)>>)> = None;
        std::mem::swap(&mut self.awaiting, &mut awaited);
        let (dir, inherited, above) = match awaited {
            Some(a) => a,
            None => {
                return Listed::nothing();
            },
        };
        let rules = match enter_directory(&self.cfg, &inherited, dir.as_str(), local) {
            Some(g) => g,
            None => {
                return Listed::nothing();
            },
        };
        let ghost listing = entry_views(entries@);
        let listed_count = entries.len();
        let planned = plan_directory(&self.cfg, &rules, self.filter.as_ref(), dir.as_str(), entries);
        let Plan { steps, ignored, unmatched } = planned;
        let mut steps = steps;
        let n = steps.len();
        let survivors = listed_count - ignored.len();
        let ghost sv = step_views(steps@);
        let ghost start = self.pending();
        let ghost rv = rules@;
        let ghost cfg = self.cfg;
        let ghost fv = self.filter_view();
        let ghost chain = above@.push((dir@, inherited@));
        proof {
            assert forall|j: int| 0 <= j < sv.len() implies !skipped_item(cfg, #[trigger] pending_of(sv[j], rv))
                && is_child(dir@, step_path(sv[j])) && (cfg.use_gitignore && sv[j] is File ==> !ignored_by(rv, step_path(sv[j]), false)) by {
                if cfg.use_gitignore {
                    law_plan_skips_ignored(cfg, rv, fv, dir@, listing, j);
                }
                law_plan_names_children(cfg, rv, fv, dir@, listing, j);
            }
            assert(admitted_chain(cfg, chain));
            assert(chain.last().0 == dir@);
            assert(keeps_defaults(cfg, inherited@)) by {
                assert(chain[chain.len() - 1].1 == inherited@);
            }
            assert(keeps_defaults(cfg, rv)) by {
                let m = base_rules(cfg).len() as int;
                assert(rv.subrange(0, m) =~= inherited@.subrange(0, m));
            }
        }
        let mut pending: Vec<Pending> = Vec::new();
        std::mem::swap(&mut self.pending, &mut pending);
        assert(pending@.map_values(|p: Pending| p.view()) == start);
        while steps.len() > 0
            invariant
                steps@.len() <= n,
                n == sv.len(),
                rules@ == rv,
                cfg == self.cfg,
                forall|j: int| 0 <= j < sv.len() ==> !skipped_item(cfg, #[trigger] pending_of(sv[j], rv))
                    && is_child(dir@, step_path(sv[j])) && (cfg.use_gitignore && sv[j] is File ==> !ignored_by(rv, step_path(sv[j]), false)),
                keeps_defaults(cfg, rv),
                forall|i: int| 0 <= i < pending@.len() ==> !skipped_item(cfg, #[trigger] pending@[i].view()),
                forall|i: int| 0 <= i < pending@.len() ==> (#[trigger] pending@[i]).admitted(cfg),
                admitted_chain(cfg, chain),
                chain.last().0 == dir@,
                step_views(steps@) == sv.subrange(0, steps@.len() as int),
                pending@.map_values(|p: Pending| p.view()) == start + stacked(sv, rv).subrange(0, n - steps@.len()),
            decreases steps@.len(),
        {
            let ghost k = steps@.len();
            let ghost steps_before = steps@;
            let ghost before = pending@;
            let s = steps.pop().unwrap();
            assert(s == steps_before[k - 1]);
            assert(step_views(steps_before)[k - 1] == steps_before[k - 1]@);
            assert(s@ == sv[k - 1]);
            assert(step_views(steps@) =~= sv.subrange(0, steps@.len() as int));
            assert(!skipped_item(cfg, pending_of(sv[k - 1], rv)) && is_child(dir@, step_path(sv[k - 1])));
            let item = match s {
                Step::File(p) => Pending::File(p, Ghost(chain), Ghost(rv)),
                Step::Descend(p) => {
                    let g = rules.clone();
                    proof {
                        lemma_extend_chain(cfg, chain, (p@, g@));
                    }
                    Pending::Dir(p, g, Ghost(chain))
                },
            };
            assert(item.admitted(cfg));
            assert(item.view() == pending_of(sv[k - 1], rv));
            pending.push(item);
            assert(forall|i: int| 0 <= i < before.len() ==> pending@[i] == before[i]);
            assert(pending@.map_values(|p: Pending| p.view()) =~= before.map_values(|p: Pending| p.view()).push(item.view()));
            assert(stacked(sv, rv).subrange(0, n - steps@.len()) =~= stacked(sv, rv).subrange(0, n - k).push(pending_of(sv[k - 1], rv)));
        }
        assert(stacked(sv, rv).subrange(0, n as int) =~= stacked(sv, rv));
        std::mem::swap(&mut self.pending, &mut pending);
        Listed { planned: n, survivors, ignored, unmatched }
    }

    /// Ends the walk and hands its filter back.
    pub fn into_filter(self) -> (r: Option<PathFilter>)
        ensures
            match r {
                Some(f) => self.filter_view() == Some(f@),
                None => self.filter_view() is None,
            },
    {
        let Walker { cfg, filter, pending, awaiting } = self;
        filter
    }

    /// Drops all work still to do, as when the caller declines to go on.
    pub fn stop(&mut self)
        ensures
            final(self).config() == old(self).config(),
            final(self).filter_view() == old(self).filter_view(),
            final(self).pending() == Seq::<PendingView>::empty(),
            final(self).awaiting() is None,
    {
        proof {
            use_type_invariant(&*self);
        }
        let mut none: Vec<Pending> = Vec::new();
        std::mem::swap(&mut self.pending, &mut none);
        let mut nothing: Option<(String, GitIgnore, Ghost<Seq<(Seq<char>, Seq<RuleView>)>>)> = None;
        std::mem::swap(&mut self.awaiting, &mut nothing);
        assert(self.pending() =~= Seq::<PendingView>::empty());
    }

}

} // verus!
