//! Reading a command log into a tree, and the size report of a tree.

use vstd::prelude::*;
use crate::filesystem::{ErrorKind, FileSystem};
use crate::node::{KindView, NodeRef};
use crate::text::{
    decimal_u64, lines_of, parse_size, same_text, split_lines, split_words, texts, trim_text,
    trimmed, words_of,
};
use crate::tree::{
    children_sizes, lemma_child_size_bounded, subtree_size, TreeView,
};

verus! {

/// What one line of the log asks for.
pub enum Command<'a> {
    /// `$ cd <target>`: move the current directory.
    ChangeDir { target: &'a str },
    /// `$ ls`: the lines that follow list the current directory.
    List,
    /// `dir <name>`: the current directory holds a directory of that name.
    MakeDir { name: &'a str },
    /// `<size> <name>`: the current directory holds a file of that name and
    /// size.
    MakeFile { name: &'a str, size: u64 },
    /// Two words that are not a command, and the first one is not a size.
    BadSize,
    /// Any other line; it has no effect.
    Skip,
}

/// The mathematical value of a [`Command`].
pub enum CommandView {
    ChangeDir { target: Seq<char> },
    List,
    MakeDir { name: Seq<char> },
    MakeFile { name: Seq<char>, size: u64 },
    BadSize,
    Skip,
}

impl<'a> View for Command<'a> {
    type V = CommandView;

    open spec fn view(&self) -> CommandView {
        match *self {
            Command::ChangeDir { target } => CommandView::ChangeDir { target: target@ },
            Command::List => CommandView::List,
            Command::MakeDir { name } => CommandView::MakeDir { name: name@ },
            Command::MakeFile { name, size } => CommandView::MakeFile { name: name@, size },
            Command::BadSize => CommandView::BadSize,
            Command::Skip => CommandView::Skip,
        }
    }
}

pub open spec fn prompt_word() -> Seq<char> {
    seq!['$']
}

pub open spec fn cd_word() -> Seq<char> {
    seq!['c', 'd']
}

pub open spec fn ls_word() -> Seq<char> {
    seq!['l', 's']
}

pub open spec fn dir_word() -> Seq<char> {
    seq!['d', 'i', 'r']
}

/// The command that the words of a line spell. The forms are tried in this
/// order: `$ cd <target>`, `$ ls`, `dir <name>`, `<size> <name>`. A line of two
/// words that is none of the first three must start with a size.
pub open spec fn command_of(words: Seq<Seq<char>>) -> CommandView {
    if words.len() == 3 && words[0] == prompt_word() && words[1] == cd_word() {
        CommandView::ChangeDir { target: words[2] }
    } else if words.len() == 2 && words[0] == prompt_word() && words[1] == ls_word() {
        CommandView::List
    } else if words.len() == 2 && words[0] == dir_word() {
        CommandView::MakeDir { name: words[1] }
    } else if words.len() == 2 {
        match decimal_u64(words[0]) {
            Some(size) => CommandView::MakeFile { name: words[1], size },
            None => CommandView::BadSize,
        }
    } else {
        CommandView::Skip
    }
}

/// The commands of a log: one for each line of the trimmed text.
pub open spec fn script_of(input: Seq<char>) -> Seq<CommandView> {
    let lines = lines_of(trimmed(input));
    Seq::new(lines.len(), |i: int| command_of(words_of(lines[i])))
}

impl TreeView {
    /// The tree after one command, or the error that the command ends in.
    pub open spec fn apply(self, command: CommandView) -> Result<TreeView, ErrorKind> {
        match command {
            CommandView::ChangeDir { target } => self.change_dir(target),
            CommandView::List => Ok(self),
            CommandView::MakeDir { name } => Ok(
                self.attach(self.current, name, KindView::Directory { children: Seq::empty() }),
            ),
            CommandView::MakeFile { name, size } => Ok(
                self.attach(self.current, name, KindView::File { size }),
            ),
            CommandView::BadSize => Err(ErrorKind::InvalidSize),
            CommandView::Skip => Ok(self),
        }
    }

    /// The tree after the commands in their order, or the first error; no
    /// command after a failed one is looked at.
    pub open spec fn run(self, commands: Seq<CommandView>) -> Result<TreeView, ErrorKind>
        decreases commands.len(),
    {
        if commands.len() == 0 {
            Ok(self)
        } else {
            match self.run(commands.drop_last()) {
                Ok(tree) => tree.apply(commands.last()),
                Err(e) => Err(e),
            }
        }
    }
}

/// Tells which command the words of a line spell.
pub fn classify<'a>(words: &Vec<&'a str>) -> (command: Command<'a>)
    ensures
        command@ == command_of(texts(words@)),
{
    proof {
        reveal_strlit("$");
        reveal_strlit("cd");
        reveal_strlit("ls");
        reveal_strlit("dir");
        assert("$"@ =~= prompt_word());
        assert("cd"@ =~= cd_word());
        assert("ls"@ =~= ls_word());
        assert("dir"@ =~= dir_word());
    }
    if words.len() == 3 {
        if same_text(words[0], "$") && same_text(words[1], "cd") {
            Command::ChangeDir { target: words[2] }
        } else {
            Command::Skip
        }
    } else if words.len() == 2 {
        if same_text(words[0], "$") && same_text(words[1], "ls") {
            Command::List
        } else if same_text(words[0], "dir") {
            Command::MakeDir { name: words[1] }
        } else {
            match parse_size(words[0]) {
                Some(size) => Command::MakeFile { name: words[1], size },
                None => Command::BadSize,
            }
        }
    } else {
        Command::Skip
    }
}

impl FileSystem {
    /// Carries out one command on the tree. A failed command changes nothing.
    pub fn apply(&mut self, command: &Command) -> (r: Result<(), ErrorKind>)
        requires
            old(self).wf(),
        ensures
            final(self).wf(),
            match old(self)@.apply(command@) {
                Ok(tree) => r is Ok && final(self)@ == tree,
                Err(e) => r == Err::<(), ErrorKind>(e) && final(self)@ == old(self)@,
            },
    {
        match command {
            Command::ChangeDir { target } => self.change_dir(target),
            Command::List => Ok(()),
            Command::MakeDir { name } => {
                self.create_directory(name);
                Ok(())
            },
            Command::MakeFile { name, size } => {
                self.create_file(name, *size);
                Ok(())
            },
            Command::BadSize => Err(ErrorKind::InvalidSize),
            Command::Skip => Ok(()),
        }
    }
}

/// Builds the tree that a command log describes: starting from an empty
/// root, the commands of the lines are carried out from top to bottom. The
/// first command that fails ends the reading with its error.
pub fn parse(input: &str) -> (r: Result<FileSystem, ErrorKind>)
    ensures
        match TreeView::fresh().run(script_of(input@)) {
            Ok(tree) => r is Ok && r->Ok_0.wf() && r->Ok_0@ == tree,
            Err(e) => r is Err && r->Err_0 == e,
        },
{
    let mut file_system = FileSystem::new();
    let lines = split_lines(trim_text(input));
    let ghost script = script_of(input@);
    let mut i: usize = 0;
    while i < lines.len()
        invariant
            file_system.wf(),
            script == script_of(input@),
            texts(lines@) == lines_of(trimmed(input@)),
            i <= lines.len(),
            TreeView::fresh().run(script.take(i as int)) == Ok::<TreeView, ErrorKind>(
                file_system@,
            ),
        decreases lines.len() - i,
    {
        let words = split_words(lines[i]);
        let command = classify(&words);
        proof {
            assert(texts(lines@)[i as int] == lines@[i as int]@);
            assert(command@ == script[i as int]);
            assert(script.take(i + 1).drop_last() =~= script.take(i as int));
            assert(script.take(i + 1).last() == script[i as int]);
        }
        match file_system.apply(&command) {
            Ok(()) => {},
            Err(e) => {
                proof {
                    lemma_run_fails_for_good(TreeView::fresh(), script, i + 1);
                }
                return Err(e);
            },
        }
        i += 1;
    }
    proof {
        assert(script.take(i as int) =~= script);
    }
    Ok(file_system)
}

/// Once a prefix of the commands has failed, the whole sequence fails with
/// the same error.
pub proof fn lemma_run_fails_for_good(tree: TreeView, commands: Seq<CommandView>, n: int)
    requires
        0 <= n <= commands.len(),
        tree.run(commands.take(n)) is Err,
    ensures
        tree.run(commands) == tree.run(commands.take(n)),
    decreases commands.len() - n,
{
    if n < commands.len() {
        assert(commands.take(n + 1).drop_last() =~= commands.take(n));
        lemma_run_fails_for_good(tree, commands, n + 1);
    } else {
        assert(commands.take(n) =~= commands);
    }
}

/// The values of a sequence of sizes.
pub open spec fn as_nats(sizes: Seq<u64>) -> Seq<nat> {
    Seq::new(sizes.len(), |i: int| sizes[i] as nat)
}

/// The size report of `node`: its own size first, then the reports of its
/// children that are directories, in the order of their attachment. Files
/// get no entry of their own. The size of `node` must fit 64 bits.
pub fn get_sizes(fs: &FileSystem, node: NodeRef) -> (sizes: Vec<u64>)
    requires
        fs.wf(),
        fs@.contains(node as int),
        fs@.size_of(node as int) <= u64::MAX,
    ensures
        as_nats(sizes@) == fs@.sizes_of(node as int),
    decreases fs@.nodes.len() - node,
{
    let mut sizes: Vec<u64> = Vec::new();
    sizes.push(fs.size_of(node));
    match fs.get_node(node).get_children() {
        Some(children) => {
            let mut k: usize = 0;
            while k < children.len()
                invariant
                    fs.wf(),
                    fs@.contains(node as int),
                    fs@.size_of(node as int) <= u64::MAX,
                    children@ == fs@.children(node as int),
                    k <= children.len(),
                    as_nats(sizes@) == seq![subtree_size(fs@.nodes, node as int)] + children_sizes(
                        fs@.nodes,
                        node as int,
                        k as nat,
                    ),
                decreases children.len() - k,
            {
                let c = children[k];
                proof {
                    assert(fs@.children(node as int)[k as int] == c);
                    lemma_child_size_bounded(fs@.nodes, node as int, k as int);
                }
                if fs.get_node(c).is_directory() {
                    let ghost before = sizes@;
                    let mut report = get_sizes(fs, c);
                    let ghost added = report@;
                    sizes.append(&mut report);
                    proof {
                        assert(as_nats(sizes@) =~= as_nats(before) + as_nats(added));
                    }
                }
                k += 1;
            }
        },
        None => {},
    }
    sizes
}

} // verus!
