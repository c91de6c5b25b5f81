use vstd::prelude::*;
use crate::glob::chars_of;

verus! {

/// Whether `c` has the Unicode `Alphabetic` property.
pub uninterp spec fn alphabetic(c: char) -> bool;

/// Relies on `char::is_alphabetic`: whether `c` has the Unicode
/// `Alphabetic` property, which depends on `c` alone.
#[verifier::external_body]
fn is_alphabetic(c: char) -> (r: bool)
    ensures
        r == alphabetic(c),
{
    c.is_alphabetic()
}

/// What a run was asked to do.
#[derive(Clone, Debug)]
pub struct Config {
    /// Apply `.gitignore` files.
    pub use_gitignore: bool,
    /// Report skipped entries and details.
    pub verbose: bool,
    /// Descend into subdirectories.
    pub recursive: bool,
    /// The regular expression that collected files' relative paths must
    /// match.
    pub regex_pattern: Option<String>,
    /// The files and directories to collect from.
    pub paths: Vec<String>,
}

/// A `Config` with its strings as character sequences.
pub struct ConfigView {
    pub use_gitignore: bool,
    pub verbose: bool,
    pub recursive: bool,
    pub regex_pattern: Option<Seq<char>>,
    pub paths: Seq<Seq<char>>,
}

impl View for Config {
    type V = ConfigView;

    open spec fn view(&self) -> ConfigView {
        ConfigView {
            use_gitignore: self.use_gitignore,
            verbose: self.verbose,
            recursive: self.recursive,
            regex_pattern: match self.regex_pattern {
                Some(p) => Some(p@),
                None => None,
            },
            paths: self.paths@.map_values(|p: String| p@),
        }
    }
}

/// Why the arguments were refused.
#[derive(Clone, Debug, PartialEq, Eq)]
pub enum ArgError {
    /// `-R` came last, with no pattern after it.
    MissingPattern,
    /// What followed `-R` looks like a group of flags, not a pattern.
    PatternLooksLikeFlags(String),
    /// A group of flags holds a letter other than `r`, `i` and `v`: the
    /// group, and the letter.
    UnknownFlag(String, char),
    /// An argument that is a lone `-`.
    Malformed(String),
}

/// An `ArgError` with its strings as character sequences.
pub enum ArgErrorView {
    MissingPattern,
    PatternLooksLikeFlags(Seq<char>),
    UnknownFlag(Seq<char>, char),
    Malformed(Seq<char>),
}

impl View for ArgError {
    type V = ArgErrorView;

    open spec fn view(&self) -> ArgErrorView {
        match self {
            ArgError::MissingPattern => ArgErrorView::MissingPattern,
            ArgError::PatternLooksLikeFlags(p) => ArgErrorView::PatternLooksLikeFlags(p@),
            ArgError::UnknownFlag(a, c) => ArgErrorView::UnknownFlag(a@, *c),
            ArgError::Malformed(a) => ArgErrorView::Malformed(a@),
        }
    }
}

/// The settings before any argument is read.
pub open spec fn initial_config() -> ConfigView {
    ConfigView {
        use_gitignore: false,
        verbose: false,
        recursive: false,
        regex_pattern: None,
        paths: seq![],
    }
}

/// The argument `-R`.
pub open spec fn regex_flag() -> Seq<char> {
    seq!['-', 'R']
}

/// Whether an argument given as `-R`'s pattern looks like a forgotten
/// pattern: `-` followed by a letter other than `R`.
pub open spec fn looks_like_flags(p: Seq<char>) -> bool {
    p.len() > 1 && p[0] == '-' && alphabetic(p[1]) && p[1] != 'R'
}

/// Applies the flag letters of group `arg` from index `j` on.
pub open spec fn apply_flags(arg: Seq<char>, j: int, c: ConfigView) -> Result<ConfigView, ArgErrorView>
    decreases arg.len() - j,
    when 0 <= j
{
    if j >= arg.len() {
        Ok(c)
    } else if arg[j] == 'r' {
        apply_flags(arg, j + 1, ConfigView { recursive: true, ..c })
    } else if arg[j] == 'i' {
        apply_flags(arg, j + 1, ConfigView { use_gitignore: true, ..c })
    } else if arg[j] == 'v' {
        apply_flags(arg, j + 1, ConfigView { verbose: true, ..c })
    } else {
        Err(ArgErrorView::UnknownFlag(arg, arg[j]))
    }
}

/// Reads the arguments from index `i` on, with settings `c` so far.
pub open spec fn parse_from(args: Seq<Seq<char>>, i: int, c: ConfigView) -> Result<ConfigView, ArgErrorView>
    decreases args.len() - i,
    when 0 <= i
{
    if i >= args.len() {
        Ok(c)
    } else {
        let a = args[i];
        if a == regex_flag() {
            if i + 1 >= args.len() {
                Err(ArgErrorView::MissingPattern)
            } else if looks_like_flags(args[i + 1]) {
                Err(ArgErrorView::PatternLooksLikeFlags(args[i + 1]))
            } else {
                parse_from(
                    args,
                    i + 2,
                    ConfigView { regex_pattern: Some(args[i + 1]), recursive: true, ..c },
                )
            }
        } else if a.len() > 1 && a[0] == '-' {
            match apply_flags(a, 1, c) {
                Ok(c2) => parse_from(args, i + 1, c2),
                Err(e) => Err(e),
            }
        } else if a.len() == 0 || a[0] != '-' {
            parse_from(args, i + 1, ConfigView { paths: c.paths.push(a), ..c })
        } else {
            Err(ArgErrorView::Malformed(a))
        }
    }
}

/// What a list of arguments asks for.
pub open spec fn parsed(args: Seq<Seq<char>>) -> Result<ConfigView, ArgErrorView> {
    parse_from(args, 0, initial_config())
}

fn copy_string(s: &String) -> (r: String)
    ensures
        r@ == s@,
{
    String::from_str(s.as_str())
}

/// Reads the command line arguments (without the program's name): `-R
/// <pattern>` sets the path filter and recursion; a group such as `-riv` sets
/// recursion, ignore files and verbosity; anything not starting with `-` is a
/// path to collect from.
pub fn parse_args(args: &Vec<String>) -> (r: Result<Config, ArgError>)
    ensures
        match r {
            Ok(c) => parsed(args@.map_values(|s: String| s@)) == Ok::<ConfigView, ArgErrorView>(c@),
            Err(e) => parsed(args@.map_values(|s: String| s@)) == Err::<ConfigView, ArgErrorView>(e@),
        },
{
    let ghost av = args@.map_values(|s: String| s@);
    let mut config = Config {
        use_gitignore: false,
        verbose: false,
        recursive: false,
        regex_pattern: None,
        paths: Vec::new(),
    };
    assert(config@.paths =~= Seq::<Seq<char>>::empty());
    let mut i: usize = 0;
    while i < args.len()
        invariant
            i <= args@.len(),
            av == args@.map_values(|s: String| s@),
            parse_from(av, i as int, config@) == parsed(av),
        decreases args@.len() - i,
    {
        let a = chars_of(args[i].as_str());
        assert(a@ == av[i as int]);
        if a.len() == 2 && a[0] == '-' && a[1] == 'R' {
            assert(a@ =~= regex_flag());
            if i + 1 >= args.len() {
                return Err(ArgError::MissingPattern);
            }
            let p = chars_of(args[i + 1].as_str());
            assert(p@ == av[i + 1]);
            if p.len() > 1 && p[0] == '-' && is_alphabetic(p[1]) && p[1] != 'R' {
                return Err(ArgError::PatternLooksLikeFlags(copy_string(&args[i + 1])));
            }
            config.regex_pattern = Some(copy_string(&args[i + 1]));
            config.recursive = true;
            i = i + 2;
        } else if a.len() > 1 && a[0] == '-' {
            assert(a@ != regex_flag()) by {
                if a@ == regex_flag() {
                    assert(a@.len() == 2 && a@[0] == '-' && a@[1] == 'R');
                }
            }
            let ghost c0 = config@;
            let mut j: usize = 1;
            while j < a.len()
                invariant
                    1 <= j <= a@.len(),
                    a@ == av[i as int],
                    a@.len() > 1 && a@[0] == '-',
                    a@ != regex_flag(),
                    av == args@.map_values(|s: String| s@),
                    i < args@.len(),
                    parse_from(av, i as int, c0) == parsed(av),
                    apply_flags(a@, j as int, config@) == apply_flags(a@, 1, c0),
                decreases a@.len() - j,
            {
                let f = a[j];
                if f == 'r' {
                    config.recursive = true;
                } else if f == 'i' {
                    config.use_gitignore = true;
                } else if f == 'v' {
                    config.verbose = true;
                } else {
                    return Err(ArgError::UnknownFlag(copy_string(&args[i]), f));
                }
                j = j + 1;
            }
            i = i + 1;
        } else if a.len() == 0 || a[0] != '-' {
            assert(a@ != regex_flag()) by {
                if a@ == regex_flag() {
                    assert(a@[0] == '-');
                }
            }
            let ghost before = config.paths@;
            config.paths.push(copy_string(&args[i]));
            assert(config.paths@.map_values(|s: String| s@) =~= before.map_values(|s: String| s@).push(a@));
            i = i + 1;
        } else {
            assert(a@ != regex_flag());
            return Err(ArgError::Malformed(copy_string(&args[i])));
        }
    }
    Ok(config)
}

} // verus!
