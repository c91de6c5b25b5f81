use vstd::prelude::*;
use crate::glob::chars_of;
use crate::text::{drop_blank_end, trim, trim_chars};

verus! {

/// `s` without white space at its end.
pub open spec fn trim_end(s: Seq<char>) -> Seq<char> {
    s.subrange(0, drop_blank_end(s, 0, s.len() as int))
}

/// The block a collected file becomes: a `# name` heading, then the
/// contents, without trailing white space, fenced and labelled with the
/// language.
pub open spec fn file_block(name: Seq<char>, language: Seq<char>, contents: Seq<char>) -> Seq<char> {
    seq!['#', ' '] + name + seq!['\n', '`', '`', '`'] + language + seq!['\n'] + trim_end(contents)
        + seq!['\n', '`', '`', '`']
}

/// The separator between two blocks: an empty line.
pub open spec fn block_separator() -> Seq<char> {
    seq!['\n', '\n']
}

/// Blocks joined in order, with an empty line between two.
pub open spec fn joined(blocks: Seq<Seq<char>>) -> Seq<char>
    decreases blocks.len(),
{
    if blocks.len() == 0 {
        seq![]
    } else if blocks.len() == 1 {
        blocks[0]
    } else {
        joined(blocks.drop_last()) + block_separator() + blocks.last()
    }
}

/// Formats a collected file as a fenced code block.
pub fn format_file_block(name: &str, language: &str, contents: &str) -> (r: String)
    ensures
        r@ == file_block(name@, language@, contents@),
{
    let c = chars_of(contents);
    let mut hi: usize = c.len();
    while hi > 0 && crate::text::is_blank_char(c[hi - 1])
        invariant
            hi <= c@.len(),
            c@ == contents@,
            drop_blank_end(c@, 0, hi as int) == drop_blank_end(c@, 0, c@.len() as int),
        decreases hi,
    {
        hi = hi - 1;
    }
    let body = contents.substring_char(0, hi);
    let heading = "# ";
    let open_fence = "\n```";
    let newline = "\n";
    proof {
        reveal_strlit("# ");
        reveal_strlit("\n```");
        reveal_strlit("\n");
    }
    let mut out = String::from_str(heading);
    out.append(name);
    out.append(open_fence);
    out.append(language);
    out.append(newline);
    out.append(body);
    out.append(open_fence);
    assert(out@ =~= file_block(name@, language@, contents@));
    out
}

/// What a run has collected so far: the text of its blocks, and the name
/// of each collected file.
pub struct Collected {
    text: String,
    names: Vec<String>,
    blocks: Ghost<Seq<Seq<char>>>,
}

impl Collected {
    /// The blocks collected so far, in order.
    pub closed spec fn blocks(&self) -> Seq<Seq<char>> {
        self.blocks@
    }

    /// The text of the blocks joined with empty lines.
    pub closed spec fn text_view(&self) -> Seq<char> {
        self.text@
    }

    /// The names of the collected files, in order.
    pub closed spec fn name_views(&self) -> Seq<Seq<char>> {
        self.names@.map_values(|n: String| n@)
    }

    #[verifier::type_invariant]
    spec fn well_formed(&self) -> bool {
        &&& self.text@ == joined(self.blocks@)
        &&& self.names@.len() == self.blocks@.len()
    }

    /// Nothing collected yet.
    pub fn new() -> (r: Collected)
        ensures
            r.text_view() == joined(r.blocks()),
            r.blocks() == Seq::<Seq<char>>::empty(),
            r.name_views() == Seq::<Seq<char>>::empty(),
    {
        let r = Collected { text: String::new(), names: Vec::new(), blocks: Ghost(Seq::empty()) };
        assert(r.name_views() =~= Seq::<Seq<char>>::empty());
        r
    }

    /// Adds the block of one file, named `name`, after those collected so
    /// far.
    pub fn add(self, block: &str, name: String) -> (r: Collected)
        ensures
            r.text_view() == joined(r.blocks()),
            r.blocks() == self.blocks().push(block@),
            r.name_views() == self.name_views().push(name@),
            r.text_view() == if self.blocks().len() == 0 {
                block@
            } else {
                self.text_view() + block_separator() + block@
            },
    {
        proof {
            use_type_invariant(&self);
        }
        let ghost old_blocks = self.blocks@;
        let ghost old_text = self.text@;
        let ghost old_names = self.names@;
        let Collected { mut text, mut names, blocks } = self;
        if names.len() > 0 {
            let sep = "\n\n";
            proof {
                reveal_strlit("\n\n");
            }
            text.append(sep);
        }
        text.append(block);
        names.push(name);
        let ghost b = old_blocks.push(block@);
        proof {
            assert(b.drop_last() =~= old_blocks);
            assert(names@.map_values(|n: String| n@) =~= old_names.map_values(|n: String| n@).push(name@));
            if old_blocks.len() == 0 {
                assert(b =~= seq![block@]);
                assert(text@ =~= block@);
            } else {
                assert(text@ =~= old_text + block_separator() + block@);
                assert(b.last() == block@);
                assert(joined(b) == joined(b.drop_last()) + block_separator() + b.last());
            }
        }
        Collected { text, names, blocks: Ghost(b) }
    }

    /// The number of files collected.
    pub fn count(&self) -> (r: usize)
        ensures
            r == self.blocks().len(),
    {
        proof {
            use_type_invariant(self);
        }
        self.names.len()
    }

    /// The text of the collected blocks.
    pub fn text(&self) -> (r: &String)
        ensures
            r@ == self.text_view(),
            r@ == joined(self.blocks()),
    {
        proof {
            use_type_invariant(self);
        }
        &self.text
    }

    /// The names of the collected files.
    pub fn names(&self) -> (r: &Vec<String>)
        ensures
            r@.map_values(|n: String| n@) == self.name_views(),
    {
        &self.names
    }
}

/// Whether a walk asks before going on at its base directory: when it is
/// verbose and more than ten entries there survive the rules.
pub fn needs_confirmation(verbose: bool, at_base: bool, kept: usize) -> (r: bool)
    ensures
        r == (verbose && at_base && kept > 10),
{
    verbose && at_base && kept > 10
}

/// Whether an answer to the confirmation question means yes: once trimmed,
/// it begins with `y` or `Y`.
pub fn accepts_answer(answer: &str) -> (r: bool)
    ensures
        r == (trim(answer@).len() > 0 && (trim(answer@)[0] == 'y' || trim(answer@)[0] == 'Y')),
{
    let a = chars_of(answer);
    let t = trim_chars(&a);
    t.len() > 0 && (t[0] == 'y' || t[0] == 'Y')
}

} // verus!
