use vstd::prelude::*;
use vstd::relations::{total_ordering, sorted_by};
use crate::filter::{PathFilter, regex_finds};
use crate::gitignore::{GitIgnore, ignored_by, rules_of_text, load_gitignore, default_rules};
use crate::glob::chars_of;
use crate::order::{entry_le, lex_le_chars, lemma_entry_le_total, lemma_lex_le_antisymmetric, lemma_lex_le_reflexive};
use crate::pattern::RuleView;

verus! {

broadcast use vstd::seq_lib::group_to_multiset_ensures, vstd::multiset::group_multiset_axioms;

/// How a walk treats what it finds.
#[derive(Clone, Copy, Debug)]
pub struct WalkConfig {
    /// Apply the default rules and each directory's `.gitignore`.
    pub use_gitignore: bool,
    /// Descend into subdirectories.
    pub recursive: bool,
}

/// One entry of a directory listing.
#[derive(Clone, Debug)]
pub struct DirEntry {
    pub name: String,
    pub is_dir: bool,
}

impl View for DirEntry {
    type V = (Seq<char>, bool);

    open spec fn view(&self) -> (Seq<char>, bool) {
        (self.name@, self.is_dir)
    }
}

/// What the walk does with a kept entry; paths are relative to the base.
#[derive(Clone, Debug, PartialEq, Eq)]
pub enum Step {
    /// Collect this file.
    File(String),
    /// Walk this directory next.
    Descend(String),
}

/// A step with its path as a character sequence.
pub enum StepView {
    File(Seq<char>),
    Descend(Seq<char>),
}

impl View for Step {
    type V = StepView;

    open spec fn view(&self) -> StepView {
        match self {
            Step::File(p) => StepView::File(p@),
            Step::Descend(p) => StepView::Descend(p@),
        }
    }
}

/// The views of a listing's entries.
pub open spec fn entry_views(v: Seq<DirEntry>) -> Seq<(Seq<char>, bool)> {
    v.map_values(|e: DirEntry| e@)
}

/// The views of a list of steps.
pub open spec fn step_views(v: Seq<Step>) -> Seq<StepView> {
    v.map_values(|s: Step| s@)
}

/// The order in which a directory's entries are taken.
pub open spec fn entry_order() -> spec_fn((Seq<char>, bool), (Seq<char>, bool)) -> bool {
    |a: (Seq<char>, bool), b: (Seq<char>, bool)| entry_le(a, b)
}

/// The path of entry `name` inside directory `dir` (empty for the base).
pub open spec fn child_path(dir: Seq<char>, name: Seq<char>) -> Seq<char> {
    if dir.len() == 0 {
        name
    } else {
        dir + seq!['/'] + name
    }
}

/// What becomes of entry `e` of directory `dir`.
pub open spec fn step_for(
    cfg: WalkConfig,
    rules: Seq<RuleView>,
    filter: Option<Seq<char>>,
    dir: Seq<char>,
    e: (Seq<char>, bool),
) -> Option<StepView> {
    let path = child_path(dir, e.0);
    if cfg.use_gitignore && ignored_by(rules, path, e.1) {
        None
    } else if e.1 {
        if cfg.recursive {
            Some(StepView::Descend(path))
        } else {
            None
        }
    } else {
        match filter {
            Some(src) => if regex_finds(src, path) {
                Some(StepView::File(path))
            } else {
                None
            },
            None => Some(StepView::File(path)),
        }
    }
}

/// The steps for a sequence of entries, in that order.
pub open spec fn steps_for(
    cfg: WalkConfig,
    rules: Seq<RuleView>,
    filter: Option<Seq<char>>,
    dir: Seq<char>,
    es: Seq<(Seq<char>, bool)>,
) -> Seq<StepView>
    decreases es.len(),
{
    if es.len() == 0 {
        seq![]
    } else {
        let earlier = steps_for(cfg, rules, filter, dir, es.drop_last());
        match step_for(cfg, rules, filter, dir, es.last()) {
            Some(s) => earlier.push(s),
            None => earlier,
        }
    }
}

/// The steps for one directory whose listing holds `listing`, in any order.
pub open spec fn plan(
    cfg: WalkConfig,
    rules: Seq<RuleView>,
    filter: Option<Seq<char>>,
    dir: Seq<char>,
    listing: Seq<(Seq<char>, bool)>,
) -> Seq<StepView> {
    steps_for(cfg, rules, filter, dir, listing.sort_by(entry_order()))
}

/// `s` with each backslash turned into `/`.
pub open spec fn forward_slashes(s: Seq<char>) -> Seq<char> {
    s.map_values(|c: char| if c == '\\' { '/' } else { c })
}

/// Whether a file named directly on the command line, as `path`, is
/// collected: always without a filter, and otherwise when the filter matches
/// the path written with `/` separators.
pub open spec fn keeps_argument(filter: Option<Seq<char>>, path: Seq<char>) -> bool {
    match filter {
        Some(src) => regex_finds(src, forward_slashes(path)),
        None => true,
    }
}

/// The rules a walk starts from at its base.
pub open spec fn base_rules(cfg: WalkConfig) -> Seq<RuleView> {
    if cfg.use_gitignore {
        default_rules()
    } else {
        seq![]
    }
}

/// Whether a walk declines to enter directory `dir` under the rules it
/// inherited: the base is always entered.
pub open spec fn skips_directory(cfg: WalkConfig, inherited: Seq<RuleView>, dir: Seq<char>) -> bool {
    cfg.use_gitignore && dir.len() > 0 && ignored_by(inherited, dir, true)
}

/// The rules in force inside directory `dir`.
pub open spec fn rules_inside(
    cfg: WalkConfig,
    inherited: Seq<RuleView>,
    dir: Seq<char>,
    local: Option<Seq<char>>,
) -> Seq<RuleView> {
    match local {
        Some(text) if cfg.use_gitignore => inherited + rules_of_text(text, dir),
        _ => inherited,
    }
}

fn entry_le_exec(a: &DirEntry, b: &DirEntry) -> (r: bool)
    ensures
        r == entry_le(a@, b@),
{
    let an = chars_of(a.name.as_str());
    let bn = chars_of(b.name.as_str());
    let ab = lex_le_chars(&an, &bn);
    let ba = lex_le_chars(&bn, &an);
    proof {
        if ab && ba {
            lemma_lex_le_antisymmetric(an@, bn@);
        }
        if an@ == bn@ {
            lemma_lex_le_reflexive(an@);
        }
    }
    if ab && ba {
        !a.is_dir || b.is_dir
    } else {
        ab
    }
}

/// The entries in the walk's order: by name, then files before directories.
pub fn sort_entries(entries: Vec<DirEntry>) -> (r: Vec<DirEntry>)
    ensures
        entry_views(r@).to_multiset() == entry_views(entries@).to_multiset(),
        sorted_by(entry_views(r@), entry_order()),
{
    proof {
        lemma_entry_le_total();
    }
    let ghost all = entry_views(entries@).to_multiset();
    let mut rest = entries;
    let mut out: Vec<DirEntry> = Vec::new();
    assert(entry_views(out@) =~= Seq::<(Seq<char>, bool)>::empty());
    assert(entry_views(out@).to_multiset() =~= vstd::multiset::Multiset::empty());
    while rest.len() > 0
        invariant
            entry_views(out@).to_multiset().add(entry_views(rest@).to_multiset()) == all,
            sorted_by(entry_views(out@), entry_order()),
            total_ordering(entry_order()),
        decreases rest@.len(),
    {
        let ghost rest_before = rest@;
        let e = match rest.pop() {
            Some(e) => e,
            None => {
                return out;
            },
        };
        assert(entry_views(rest_before) =~= entry_views(rest@).push(e@));
        let ghost ov = entry_views(out@);
        let mut k: usize = 0;
        while k < out.len() && entry_le_exec(&out[k], &e)
            invariant
                k <= out@.len(),
                ov == entry_views(out@),
                forall|x: int| 0 <= x < k ==> entry_le(#[trigger] ov[x], e@),
            decreases out@.len() - k,
        {
            k = k + 1;
        }
        proof {
            let ord = entry_order();
            assert(k < ov.len() ==> !ord(ov[k as int], e@));
        }
        out.insert(k, e);
        let ghost nv = entry_views(out@);
        assert(nv =~= ov.insert(k as int, e@));
        proof {
            let ord = entry_order();
            assert forall|i: int, j: int| 0 <= i < j < nv.len() implies #[trigger] ord(nv[i], nv[j]) by {
                if j < k {
                } else if j == k {
                    assert(ord(ov[i], e@));
                } else if i < k {
                    assert(ord(ov[i], ov[j - 1]));
                } else if i == k {
                    assert(ord(ov[k as int], ov[j - 1]) || k == j - 1);
                    assert(ord(e@, ov[k as int]));
                } else {
                    assert(ord(ov[i - 1], ov[j - 1]));
                }
            }
            assert(ov.insert(k as int, e@).to_multiset() == ov.to_multiset().insert(e@));
        }
        assert(entry_views(out@).to_multiset().add(entry_views(rest@).to_multiset()) =~= all);
    }
    out
}

/// The path of entry `name` inside directory `dir`.
pub fn join_path(dir: &str, name: &str) -> (r: String)
    ensures
        r@ == child_path(dir@, name@),
{
    let mut out = String::from_str(dir);
    if dir.unicode_len() > 0 {
        let slash = "/";
        proof {
            reveal_strlit("/");
        }
        out.append(slash);
    }
    out.append(name);
    out
}

/// `path` with each backslash turned into `/`.
pub fn with_forward_slashes(path: &str) -> (r: String)
    ensures
        r@ == forward_slashes(path@),
{
    let slash = "/";
    proof {
        reveal_strlit("/");
    }
    let n = path.unicode_len();
    let mut out = String::new();
    let mut k: usize = 0;
    while k < n
        invariant
            k <= n,
            n == path@.len(),
            slash@ == seq!['/'],
            out@ == forward_slashes(path@).subrange(0, k as int),
        decreases n - k,
    {
        let c = path.get_char(k);
        if c == '\\' {
            out.append(slash);
        } else {
            out.append(path.substring_char(k, k + 1));
        }
        assert(out@ =~= forward_slashes(path@).subrange(0, k as int + 1));
        k = k + 1;
    }
    assert(forward_slashes(path@).subrange(0, n as int) =~= forward_slashes(path@));
    out
}

/// Whether a file named directly on the command line is collected: always
/// without a filter, and otherwise when the filter matches its path written
/// with `/` separators.
pub fn keeps_file_argument(filter: Option<&PathFilter>, path: &str) -> (r: bool)
    ensures
        r == keeps_argument(match filter {
            Some(f) => Some(f@),
            None => None,
        }, path@),
{
    match filter {
        Some(f) => {
            let normalized = with_forward_slashes(path);
            f.is_match(normalized.as_str())
        },
        None => true,
    }
}

/// A sorted rearrangement of a listing is the one `sort_by` gives.
proof fn lemma_sorted_is_sort_by(s: Seq<(Seq<char>, bool)>, listing: Seq<(Seq<char>, bool)>)
    requires
        sorted_by(s, entry_order()),
        s.to_multiset() == listing.to_multiset(),
    ensures
        listing.sort_by(entry_order()) == s,
{
    lemma_entry_le_total();
    listing.lemma_sort_by_ensures(entry_order());
    vstd::seq_lib::lemma_sorted_unique(listing.sort_by(entry_order()), s, entry_order());
}

/// The rules a walk starts from at its base: the default rules when ignore
/// files are used, none otherwise.
pub fn base_gitignore(cfg: &WalkConfig) -> (r: GitIgnore)
    ensures
        r@ == base_rules(*cfg),
{
    if cfg.use_gitignore {
        GitIgnore::with_defaults()
    } else {
        GitIgnore::empty()
    }
}

/// Decides whether the walk enters directory `dir` (relative to the base,
/// empty for the base itself) with the rules `inherited` from its parent, and
/// if so returns the rules in force inside it: the inherited ones followed by
/// those of its own ignore file, whose text is `local` when it has one.
pub fn enter_directory(
    cfg: &WalkConfig,
    inherited: &GitIgnore,
    dir: &str,
    local: Option<&str>,
) -> (r: Option<GitIgnore>)
    ensures
        r is None <==> skips_directory(*cfg, inherited@, dir@),
        r matches Some(g) ==> g@ == rules_inside(*cfg, inherited@, dir@, match local {
            Some(t) => Some(t@),
            None => None,
        }),
{
    if cfg.use_gitignore && dir.unicode_len() > 0 && inherited.should_ignore(dir, true) {
        return None;
    }
    let mut rules = inherited.clone();
    if cfg.use_gitignore {
        match local {
            Some(text) => {
                rules.merge(load_gitignore(text, dir));
            },
            None => {},
        }
    }
    Some(rules)
}

/// The paths of the entries, in the given order, that the rules ignore.
pub open spec fn ignored_for(
    cfg: WalkConfig,
    rules: Seq<RuleView>,
    dir: Seq<char>,
    es: Seq<(Seq<char>, bool)>,
) -> Seq<Seq<char>>
    decreases es.len(),
{
    if es.len() == 0 {
        seq![]
    } else {
        let earlier = ignored_for(cfg, rules, dir, es.drop_last());
        let path = child_path(dir, es.last().0);
        if cfg.use_gitignore && ignored_by(rules, path, es.last().1) {
            earlier.push(path)
        } else {
            earlier
        }
    }
}

/// The paths of the files, in the given order, that the rules keep and the
/// filter does not match.
pub open spec fn unmatched_for(
    cfg: WalkConfig,
    rules: Seq<RuleView>,
    filter: Option<Seq<char>>,
    dir: Seq<char>,
    es: Seq<(Seq<char>, bool)>,
) -> Seq<Seq<char>>
    decreases es.len(),
{
    if es.len() == 0 {
        seq![]
    } else {
        let earlier = unmatched_for(cfg, rules, filter, dir, es.drop_last());
        let e = es.last();
        let path = child_path(dir, e.0);
        if !(cfg.use_gitignore && ignored_by(rules, path, e.1)) && !e.1 && (match filter {
            Some(src) => !regex_finds(src, path),
            None => false,
        }) {
            earlier.push(path)
        } else {
            earlier
        }
    }
}

/// The character sequences of a list of strings.
pub open spec fn string_views(v: Seq<String>) -> Seq<Seq<char>> {
    v.map_values(|s: String| s@)
}

/// A name that a directory listing can hold: one non-empty path component.
pub open spec fn is_entry_name(name: Seq<char>) -> bool {
    name.len() > 0 && !name.contains('/')
}

/// Whether `c` names an entry directly inside directory `parent`.
pub open spec fn is_child(parent: Seq<char>, c: Seq<char>) -> bool {
    if parent.len() == 0 {
        is_entry_name(c)
    } else {
        c.len() > parent.len() + 1 && c.subrange(0, parent.len() as int) == parent && c[parent.len() as int]
            == '/' && is_entry_name(c.subrange(parent.len() as int + 1, c.len() as int))
    }
}

/// The path a step speaks of.
pub open spec fn step_path(s: StepView) -> Seq<char> {
    match s {
        StepView::File(p) => p,
        StepView::Descend(p) => p,
    }
}

/// What the walk does with one directory's listing.
pub struct Plan {
    /// The steps, in the walk's order.
    pub steps: Vec<Step>,
    /// The entries the rules ignore, in the walk's order.
    pub ignored: Vec<String>,
    /// The files the rules keep but the filter does not match, in the walk's
    /// order.
    pub unmatched: Vec<String>,
}

/// Plans one directory `dir` (relative to the base) whose listing is
/// `entries`, under the rules in force inside it. The steps are the entries
/// in the walk's order, without those the rules ignore, without
/// subdirectories unless the walk is recursive, and without files that the
/// filter, if any, does not match; the plan also names, in that order, the
/// entries the rules ignored and the files the filter turned away.
pub fn plan_directory(
    cfg: &WalkConfig,
    rules: &GitIgnore,
    filter: Option<&PathFilter>,
    dir: &str,
    entries: Vec<DirEntry>,
) -> (r: Plan)
    requires
        forall|i: int| 0 <= i < entries@.len() ==> is_entry_name(#[trigger] entries@[i].name@),
    ensures
        step_views(r.steps@) == plan(*cfg, rules@, match filter {
            Some(f) => Some(f@),
            None => None,
        }, dir@, entry_views(entries@)),
        string_views(r.ignored@) == ignored_for(*cfg, rules@, dir@, entry_views(entries@).sort_by(entry_order())),
        string_views(r.unmatched@) == unmatched_for(*cfg, rules@, match filter {
            Some(f) => Some(f@),
            None => None,
        }, dir@, entry_views(entries@).sort_by(entry_order())),
        r.ignored@.len() <= entries@.len(),
{
    let ghost fv = match filter {
        Some(f) => Some(f@),
        None => None,
    };
    let ghost listing = entry_views(entries@);
    let sorted = sort_entries(entries);
    proof {
        lemma_sorted_is_sort_by(entry_views(sorted@), listing);
        assert(listing.to_multiset().len() == listing.len());
        assert(entry_views(sorted@).to_multiset().len() == entry_views(sorted@).len());
    }
    let mut out: Vec<Step> = Vec::new();
    let mut ignored_paths: Vec<String> = Vec::new();
    let mut unmatched: Vec<String> = Vec::new();
    let mut k: usize = 0;
    assert(entry_views(sorted@).subrange(0, 0) =~= Seq::<(Seq<char>, bool)>::empty());
    assert(step_views(out@) =~= Seq::<StepView>::empty());
    assert(string_views(ignored_paths@) =~= Seq::<Seq<char>>::empty());
    assert(string_views(unmatched@) =~= Seq::<Seq<char>>::empty());
    while k < sorted.len()
        invariant
            k <= sorted@.len(),
            sorted@.len() == listing.len(),
            fv == match filter {
                Some(f) => Some(f@),
                None => None::<Seq<char>>,
            },
            ignored_paths@.len() <= k,
            step_views(out@) == steps_for(*cfg, rules@, fv, dir@, entry_views(sorted@).subrange(0, k as int)),
            string_views(ignored_paths@) == ignored_for(*cfg, rules@, dir@, entry_views(sorted@).subrange(0, k as int)),
            string_views(unmatched@) == unmatched_for(*cfg, rules@, fv, dir@, entry_views(sorted@).subrange(0, k as int)),
        decreases sorted@.len() - k,
    {
        let e = &sorted[k];
        let ghost upto = entry_views(sorted@).subrange(0, k as int + 1);
        assert(upto.drop_last() =~= entry_views(sorted@).subrange(0, k as int));
        assert(upto.last() == e@);
        let path = join_path(dir, e.name.as_str());
        let ignored = cfg.use_gitignore && rules.should_ignore(path.as_str(), e.is_dir);
        let ghost before = out@;
        let ghost ign_before = ignored_paths@;
        let ghost unm_before = unmatched@;
        if ignored {
            ignored_paths.push(path);
            assert(string_views(ignored_paths@) =~= string_views(ign_before).push(path@));
        } else if e.is_dir {
            if cfg.recursive {
                out.push(Step::Descend(path));
            }
        } else {
            let keep = match filter {
                Some(f) => f.is_match(path.as_str()),
                None => true,
            };
            if keep {
                out.push(Step::File(path));
            } else {
                unmatched.push(path);
                assert(string_views(unmatched@) =~= string_views(unm_before).push(path@));
            }
        }
        assert(step_views(out@) =~= steps_for(*cfg, rules@, fv, dir@, upto));
        assert(string_views(ignored_paths@) =~= ignored_for(*cfg, rules@, dir@, upto));
        assert(string_views(unmatched@) =~= unmatched_for(*cfg, rules@, fv, dir@, upto));
        k = k + 1;
    }
    assert(entry_views(sorted@).subrange(0, k as int) =~= entry_views(sorted@));
    Plan { steps: out, ignored: ignored_paths, unmatched }
}

} // verus!
