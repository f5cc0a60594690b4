//! Command lines: which program to run, with which arguments, and where.

use vstd::prelude::*;

verus! {

/// The characters of each of the strings.
pub open spec fn texts(items: Seq<String>) -> Seq<Seq<char>> {
    items.map_values(|s: String| s@)
}

/// A command to run: the program, its arguments in order, and the directory
/// to run it in, if it is not the caller's own.
#[derive(Debug)]
pub struct CommandLine {
    pub program: String,
    pub args: Vec<String>,
    pub dir: Option<String>,
}

/// A command line as plain values.
pub struct CommandModel {
    pub program: Seq<char>,
    pub args: Seq<Seq<char>>,
    pub dir: Option<Seq<char>>,
}

impl View for CommandLine {
    type V = CommandModel;

    open spec fn view(&self) -> CommandModel {
        CommandModel {
            program: self.program@,
            args: texts(self.args@),
            dir: match self.dir {
                Some(dir) => Some(dir@),
                None => None,
            },
        }
    }
}

impl CommandModel {
    /// The container tool with the given arguments, run in `dir`.
    pub open spec fn docker(args: Seq<Seq<char>>, dir: Option<Seq<char>>) -> CommandModel {
        CommandModel { program: "docker"@, args, dir }
    }
}

impl Clone for CommandLine {
    fn clone(&self) -> (copy: Self)
        ensures
            copy@ == self@,
    {
        let mut args: Vec<String> = Vec::new();
        let mut i: usize = 0;
        while i < self.args.len()
            invariant
                i <= self.args.len(),
                texts(args@) == texts(self.args@.take(i as int)),
            decreases self.args.len() - i,
        {
            args.push(self.args[i].clone());
            assert(texts(self.args@.take(i + 1)) =~= texts(self.args@.take(i as int)).push(
                self.args@[i as int]@,
            ));
            i += 1;
        }
        assert(self.args@.take(i as int) =~= self.args@);
        let dir = match &self.dir {
            Some(dir) => Some(dir.clone()),
            None => None,
        };
        CommandLine { program: self.program.clone(), args, dir }
    }
}

impl CommandLine {
    /// The container tool without arguments, run in `dir`.
    pub fn docker(dir: Option<String>) -> (command: CommandLine)
        ensures
            command@ == CommandModel::docker(
                Seq::empty(),
                match dir {
                    Some(dir) => Some(dir@),
                    None => None,
                },
            ),
    {
        let command = CommandLine { program: "docker".to_owned(), args: Vec::new(), dir };
        assert(texts(command.args@) =~= Seq::<Seq<char>>::empty());
        command
    }

    /// The same command with one more argument at the end.
    pub fn arg(self, word: &str) -> (command: CommandLine)
        ensures
            command@ == (CommandModel { args: self@.args.push(word@), ..self@ }),
    {
        let mut command = self;
        let ghost before = command.args@;
        command.args.push(word.to_owned());
        assert(texts(command.args@) =~= texts(before).push(word@));
        command
    }
}

} // verus!
