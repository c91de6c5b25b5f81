use vstd::prelude::*;
use crate::glob::chars_of;
use crate::pattern::last_component;
use crate::text::{split_chars, views, copy_range};

verus! {

/// File extensions and the label of the language a code block of such a
/// file is marked with; the first entry for an extension counts.
pub open spec fn language_table() -> Seq<(&'static str, &'static str)> {
    seq![
        ("rs", "rust"),
        ("py", "python"),
        ("js", "javascript"),
        ("ts", "typescript"),
        ("jsx", "jsx"),
        ("tsx", "tsx"),
        ("java", "java"),
        ("c", "c"),
        ("cpp", "cpp"),
        ("cc", "cpp"),
        ("cxx", "cpp"),
        ("h", "cpp"),
        ("hpp", "cpp"),
        ("cs", "csharp"),
        ("go", "go"),
        ("rb", "ruby"),
        ("php", "php"),
        ("swift", "swift"),
        ("kt", "kotlin"),
        ("r", "r"),
        ("m", "matlab"),
        ("mm", "objective-c"),
        ("sql", "sql"),
        ("sh", "bash"),
        ("bash", "bash"),
        ("zsh", "bash"),
        ("yaml", "yaml"),
        ("yml", "yaml"),
        ("json", "json"),
        ("xml", "xml"),
        ("html", "html"),
        ("htm", "html"),
        ("css", "css"),
        ("scss", "scss"),
        ("sass", "scss"),
        ("less", "less"),
        ("md", "markdown"),
        ("markdown", "markdown"),
        ("tex", "latex"),
        ("vim", "vim"),
        ("vimrc", "vim"),
        ("lua", "lua"),
        ("dart", "dart"),
        ("scala", "scala"),
        ("jl", "julia"),
        ("hs", "haskell"),
        ("clj", "clojure"),
        ("cljs", "clojure"),
        ("cljc", "clojure"),
        ("edn", "clojure"),
        ("ex", "elixir"),
        ("exs", "elixir"),
        ("erl", "erlang"),
        ("hrl", "erlang"),
        ("ml", "ocaml"),
        ("mli", "ocaml"),
        ("fs", "fsharp"),
        ("fsx", "fsharp"),
        ("fsi", "fsharp"),
        ("pl", "perl"),
        ("pm", "perl"),
        ("ps1", "powershell"),
        ("psm1", "powershell"),
        ("psd1", "powershell"),
        ("toml", "toml"),
        ("ini", "ini"),
        ("cfg", "cfg"),
        ("conf", "plaintext"),
        ("log", "log"),
        ("dockerfile", "dockerfile"),
        ("Dockerfile", "dockerfile"),
        ("makefile", "makefile"),
        ("Makefile", "makefile"),
        ("mk", "makefile"),
        ("mak", "makefile"),
        ("gd", "gdscript"),
        ("gql", "graphql"),
        ("graphql", "graphql"),
        ("hbs", "handlebars"),
        ("handlebars", "handlebars"),
        ("jinja", "jinja"),
        ("j2", "jinja"),
        ("proto", "protobuf"),
        ("sol", "solidity"),
        ("tf", "terraform"),
        ("v", "vlang"),
        ("vue", "vue"),
        ("svelte", "svelte")
    ]
}

/// Index of the last `c` in `s[..j]`, or -1.
pub open spec fn last_index_of(s: Seq<char>, c: char, j: int) -> int
    decreases j,
    when 0 <= j <= s.len()
{
    if j == 0 {
        -1
    } else if s[j - 1] == c {
        j - 1
    } else {
        last_index_of(s, c, j - 1)
    }
}

/// The extension of a path: what follows the last `.` of its final
/// component, when that `.` is not the component's first character.
pub open spec fn extension_of(path: Seq<char>) -> Option<Seq<char>> {
    let name = last_component(path);
    let d = last_index_of(name, '.', name.len() as int);
    if d <= 0 {
        None
    } else {
        Some(name.subrange(d + 1, name.len() as int))
    }
}

/// The label that `table` gives extension `ext`, or the empty label.
pub open spec fn table_lookup(table: Seq<(&'static str, &'static str)>, ext: Seq<char>) -> Seq<char>
    decreases table.len(),
{
    if table.len() == 0 {
        seq![]
    } else if table[0].0@ == ext {
        table[0].1@
    } else {
        table_lookup(table.drop_first(), ext)
    }
}

/// The language label of a file, from its extension.
pub open spec fn language_of(path: Seq<char>) -> Seq<char> {
    match extension_of(path) {
        Some(e) => table_lookup(language_table(), e),
        None => seq![],
    }
}

fn same_chars(a: &Vec<char>, b: &Vec<char>) -> (r: bool)
    ensures
        r == (a@ == b@),
{
    if a.len() != b.len() {
        return false;
    }
    let mut k: usize = 0;
    while k < a.len()
        invariant
            k <= a.len(),
            a.len() == b.len(),
            forall|x: int| 0 <= x < k ==> a@[x] == b@[x],
        decreases a.len() - k,
    {
        if a[k] != b[k] {
            return false;
        }
        k = k + 1;
    }
    assert(a@ =~= b@);
    true
}

/// The extension of `path`, if it has one.
fn extension_chars(path: &Vec<char>) -> (r: Option<Vec<char>>)
    ensures
        match r {
            Some(e) => extension_of(path@) == Some(e@),
            None => extension_of(path@) is None,
        },
{
    let comps = split_chars(path, '/');
    proof {
        crate::pattern::lemma_split_from_nonempty(path@, '/', 0, 0);
    }
    let n = comps.len();
    assert(views(comps@)[n - 1] == comps@[n - 1]@);
    let name = &comps[n - 1];
    let mut j: usize = name.len();
    while j > 0 && name[j - 1] != '.'
        invariant
            j <= name@.len(),
            last_index_of(name@, '.', j as int) == last_index_of(name@, '.', name@.len() as int),
        decreases j,
    {
        j = j - 1;
    }
    if j <= 1 {
        return None;
    }
    Some(copy_range(name, j, name.len()))
}

/// The label of the language that `filename` is written in, from its
/// extension; the empty label for an unknown extension or none.
pub fn get_language_from_extension(filename: &str) -> (r: &'static str)
    ensures
        r@ == language_of(filename@),
{
    let table: Vec<(&'static str, &'static str)> = vec![
        ("rs", "rust"),
        ("py", "python"),
        ("js", "javascript"),
        ("ts", "typescript"),
        ("jsx", "jsx"),
        ("tsx", "tsx"),
        ("java", "java"),
        ("c", "c"),
        ("cpp", "cpp"),
        ("cc", "cpp"),
        ("cxx", "cpp"),
        ("h", "cpp"),
        ("hpp", "cpp"),
        ("cs", "csharp"),
        ("go", "go"),
        ("rb", "ruby"),
        ("php", "php"),
        ("swift", "swift"),
        ("kt", "kotlin"),
        ("r", "r"),
        ("m", "matlab"),
        ("mm", "objective-c"),
        ("sql", "sql"),
        ("sh", "bash"),
        ("bash", "bash"),
        ("zsh", "bash"),
        ("yaml", "yaml"),
        ("yml", "yaml"),
        ("json", "json"),
        ("xml", "xml"),
        ("html", "html"),
        ("htm", "html"),
        ("css", "css"),
        ("scss", "scss"),
        ("sass", "scss"),
        ("less", "less"),
        ("md", "markdown"),
        ("markdown", "markdown"),
        ("tex", "latex"),
        ("vim", "vim"),
        ("vimrc", "vim"),
        ("lua", "lua"),
        ("dart", "dart"),
        ("scala", "scala"),
        ("jl", "julia"),
        ("hs", "haskell"),
        ("clj", "clojure"),
        ("cljs", "clojure"),
        ("cljc", "clojure"),
        ("edn", "clojure"),
        ("ex", "elixir"),
        ("exs", "elixir"),
        ("erl", "erlang"),
        ("hrl", "erlang"),
        ("ml", "ocaml"),
        ("mli", "ocaml"),
        ("fs", "fsharp"),
        ("fsx", "fsharp"),
        ("fsi", "fsharp"),
        ("pl", "perl"),
        ("pm", "perl"),
        ("ps1", "powershell"),
        ("psm1", "powershell"),
        ("psd1", "powershell"),
        ("toml", "toml"),
        ("ini", "ini"),
        ("cfg", "cfg"),
        ("conf", "plaintext"),
        ("log", "log"),
        ("dockerfile", "dockerfile"),
        ("Dockerfile", "dockerfile"),
        ("makefile", "makefile"),
        ("Makefile", "makefile"),
        ("mk", "makefile"),
        ("mak", "makefile"),
        ("gd", "gdscript"),
        ("gql", "graphql"),
        ("graphql", "graphql"),
        ("hbs", "handlebars"),
        ("handlebars", "handlebars"),
        ("jinja", "jinja"),
        ("j2", "jinja"),
        ("proto", "protobuf"),
        ("sol", "solidity"),
        ("tf", "terraform"),
        ("v", "vlang"),
        ("vue", "vue"),
        ("svelte", "svelte")
    ];
    assert(table@ == language_table());
    let empty = "";
    proof {
        reveal_strlit("");
    }
    let path = chars_of(filename);
    let ext = match extension_chars(&path) {
        Some(e) => e,
        None => {
            return empty;
        },
    };
    let mut k: usize = 0;
    assert(table@.subrange(0, table@.len() as int) =~= table@);
    while k < table.len()
        invariant
            k <= table@.len(),
            table@ == language_table(),
            empty@ == Seq::<char>::empty(),
            language_of(filename@) == table_lookup(table@.subrange(k as int, table@.len() as int), ext@),
        decreases table@.len() - k,
    {
        let ghost rest = table@.subrange(k as int, table@.len() as int);
        assert(rest.drop_first() =~= table@.subrange(k as int + 1, table@.len() as int));
        let key = chars_of(table[k].0);
        if same_chars(&key, &ext) {
            return table[k].1;
        }
        k = k + 1;
    }
    empty
}

} // verus!
