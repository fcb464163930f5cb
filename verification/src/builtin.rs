//! The builtin commands: their names, and the ones whose work is computing text.
use vstd::prelude::*;
use crate::command::{ShellCommand, strings_view};
use crate::external::{command_path, found_for};
use crate::text::{push_char, str_equals};
use vstd::string::*;

verus! {

/// What a builtin writes: the text for its standard output and for its standard error, in
/// the order written. The caller sends each to wherever the command's output goes.
pub struct Output {
    pub stdout: String,
    pub stderr: String,
}

impl Output {
    /// An output with nothing written yet.
    pub fn new() -> (o: Output)
        ensures
            o.stdout@ == Seq::<char>::empty(),
            o.stderr@ == Seq::<char>::empty(),
    {
        Output { stdout: String::new(), stderr: String::new() }
    }
}

/// The builtin commands.
#[derive(Debug, Clone, Copy, PartialEq, Eq, Structural)]
pub enum Builtin {
    Echo,
    Exit,
    Type,
    Pwd,
    Complete,
    Jobs,
    Cd,
    History,
}

/// The builtin that `name` names, if any.
pub open spec fn builtin_of(name: Seq<char>) -> Option<Builtin> {
    if name == "echo"@ {
        Some(Builtin::Echo)
    } else if name == "exit"@ {
        Some(Builtin::Exit)
    } else if name == "type"@ {
        Some(Builtin::Type)
    } else if name == "pwd"@ {
        Some(Builtin::Pwd)
    } else if name == "complete"@ {
        Some(Builtin::Complete)
    } else if name == "jobs"@ {
        Some(Builtin::Jobs)
    } else if name == "cd"@ {
        Some(Builtin::Cd)
    } else if name == "history"@ {
        Some(Builtin::History)
    } else {
        None
    }
}

/// Whether `name` names a builtin: `echo`, `exit`, `type`, `pwd`, `complete`, `jobs`, `cd`
/// or `history`.
pub open spec fn is_builtin_name(name: Seq<char>) -> bool {
    builtin_of(name) is Some
}

/// Whether `name` names a builtin that may stand in a pipeline: `echo`, `type`, `pwd` or
/// `history`.
pub open spec fn is_pipeline_builtin_name(name: Seq<char>) -> bool {
    ||| name == "echo"@
    ||| name == "type"@
    ||| name == "pwd"@
    ||| name == "history"@
}

/// The names of the builtins, in the order that completion offers them.
pub open spec fn builtin_names() -> Seq<Seq<char>> {
    seq!["echo"@, "exit"@, "type"@, "pwd"@, "complete"@, "jobs"@, "cd"@, "history"@]
}

/// The names of the builtins (see `builtin_names`).
pub fn builtins() -> (v: Vec<&'static str>)
    ensures
        v@.map_values(|s: &str| s@) == builtin_names(),
{
    let v = vec!["echo", "exit", "type", "pwd", "complete", "jobs", "cd", "history"];
    assert(v@.map_values(|s: &str| s@) =~= builtin_names());
    v
}

/// Every name on the list of builtins is a builtin name, and every builtin name is on it.
pub proof fn lemma_builtin_names(name: Seq<char>)
    ensures
        is_builtin_name(name) <==> builtin_names().contains(name),
{
    if is_builtin_name(name) {
        if name == "echo"@ {
            assert(builtin_names()[0] == name);
        } else if name == "exit"@ {
            assert(builtin_names()[1] == name);
        } else if name == "type"@ {
            assert(builtin_names()[2] == name);
        } else if name == "pwd"@ {
            assert(builtin_names()[3] == name);
        } else if name == "complete"@ {
            assert(builtin_names()[4] == name);
        } else if name == "jobs"@ {
            assert(builtin_names()[5] == name);
        } else if name == "cd"@ {
            assert(builtin_names()[6] == name);
        } else {
            assert(builtin_names()[7] == name);
        }
    }
}

/// Every builtin that may stand in a pipeline is a builtin.
pub proof fn lemma_pipeline_builtins_are_builtins(name: Seq<char>)
    ensures
        is_pipeline_builtin_name(name) ==> is_builtin_name(name),
{
}

/// The builtin that `name` names, if any.
pub fn builtin_kind(name: &str) -> (r: Option<Builtin>)
    ensures
        r == builtin_of(name@),
{
    if str_equals(name, "echo") {
        Some(Builtin::Echo)
    } else if str_equals(name, "exit") {
        Some(Builtin::Exit)
    } else if str_equals(name, "type") {
        Some(Builtin::Type)
    } else if str_equals(name, "pwd") {
        Some(Builtin::Pwd)
    } else if str_equals(name, "complete") {
        Some(Builtin::Complete)
    } else if str_equals(name, "jobs") {
        Some(Builtin::Jobs)
    } else if str_equals(name, "cd") {
        Some(Builtin::Cd)
    } else if str_equals(name, "history") {
        Some(Builtin::History)
    } else {
        None
    }
}

/// Whether `cmd_name` names a builtin.
pub fn is_built_in(cmd_name: &str) -> (r: bool)
    ensures
        r == is_builtin_name(cmd_name@),
{
    builtin_kind(cmd_name).is_some()
}

/// Whether `cmd_name` names a builtin that may stand in a pipeline.
pub fn is_pipeline_built_in(cmd_name: &str) -> (r: bool)
    ensures
        r == is_pipeline_builtin_name(cmd_name@),
{
    str_equals(cmd_name, "echo") || str_equals(cmd_name, "type") || str_equals(cmd_name, "pwd")
        || str_equals(cmd_name, "history")
}

/// The words joined by single spaces.
pub open spec fn joined(words: Seq<Seq<char>>) -> Seq<char>
    decreases words.len(),
{
    if words.len() == 0 {
        Seq::empty()
    } else if words.len() == 1 {
        words[0]
    } else {
        joined(words.drop_last()) + seq![' '] + words.last()
    }
}

/// `echo`: writes the arguments, separated by single spaces, and a newline.
pub fn echo_cmd(command: &ShellCommand, output: &mut Output)
    ensures
        final(output).stdout@ == old(output).stdout@ + joined(strings_view(command.args@))
            + seq!['\n'],
        final(output).stderr@ == old(output).stderr@,
{
    let ghost args = strings_view(command.args@);
    let mut i: usize = 0;
    while i < command.args.len()
        invariant
            i <= command.args.len(),
            args == strings_view(command.args@),
            output.stdout@ == old(output).stdout@ + joined(args.take(i as int)),
            output.stderr@ == old(output).stderr@,
        decreases command.args.len() - i,
    {
        if i > 0 {
            push_char(&mut output.stdout, ' ');
        }
        output.stdout.append(command.args[i].as_str());
        assert(args.take(i + 1).drop_last() =~= args.take(i as int));
        i += 1;
    }
    assert(args.take(command.args.len() as int) =~= args);
    push_char(&mut output.stdout, '\n');
}

/// `pwd`: writes the current directory and a newline.
pub fn pwd_cmd(curr_dir: &str, output: &mut Output)
    ensures
        final(output).stdout@ == old(output).stdout@ + curr_dir@ + seq!['\n'],
        final(output).stderr@ == old(output).stderr@,
{
    output.stdout.append(curr_dir);
    push_char(&mut output.stdout, '\n');
}

/// The line that `type` writes for `arg`, where `found` is the executable that a search of
/// `PATH` found for it, if any: builtins first, then the executable, then "not found".
pub open spec fn type_line_spec(arg: Seq<char>, found: Option<Seq<char>>) -> Seq<char> {
    if is_builtin_name(arg) {
        arg + " is a shell builtin"@ + seq!['\n']
    } else {
        match found {
            Some(path) => arg + " is "@ + path + seq!['\n'],
            None => arg + ": not found"@ + seq!['\n'],
        }
    }
}

/// The lines that `type` writes for `args`, where `found[i]` is what a search found for
/// `args[i]`.
pub open spec fn type_lines(args: Seq<Seq<char>>, found: Seq<Option<Seq<char>>>) -> Seq<char>
    decreases args.len(),
{
    if args.len() == 0 || found.len() == 0 {
        Seq::empty()
    } else {
        type_lines(args.drop_last(), found.drop_last()) + type_line_spec(args.last(), found.last())
    }
}

/// The view of an optional string.
pub open spec fn option_string_view(o: Option<String>) -> Option<Seq<char>> {
    match o {
        Some(s) => Some(s@),
        None => None,
    }
}

/// The line that `type` writes for `arg`, given what a search of `PATH` found for it.
pub fn type_line(arg: &str, found: Option<String>) -> (r: String)
    ensures
        r@ == type_line_spec(arg@, option_string_view(found)),
{
    let mut line = String::from_str(arg);
    if is_built_in(arg) {
        line.append(" is a shell builtin");
    } else {
        match found {
            Some(path) => {
                line.append(" is ");
                line.append(path.as_str());
            },
            None => {
                line.append(": not found");
            },
        }
    }
    push_char(&mut line, '\n');
    line
}

/// Whether `found[i]` can be what `type` looked up for `args[i]`: nothing for a builtin, and
/// for the others a result of a search of `PATH` for that very argument.
pub open spec fn lookups_fit(args: Seq<Seq<char>>, found: Seq<Option<Seq<char>>>) -> bool {
    &&& found.len() == args.len()
    &&& forall|i: int|
        0 <= i < args.len() ==> found_for(#[trigger] args[i], found[i]) && (is_builtin_name(
            args[i],
        ) ==> found[i] is None)
}

/// `type`: writes a line for each argument (see `type_line_spec`), searching `PATH` for each
/// argument that is not a builtin. What a search finds is up to the environment: the output
/// is the lines for some outcome of the searches for these arguments.
pub fn type_cmd(command: &ShellCommand, output: &mut Output)
    ensures
        exists|found: Seq<Option<Seq<char>>>|
            lookups_fit(strings_view(command.args@), found) && final(output).stdout@ == old(
                output,
            ).stdout@ + type_lines(strings_view(command.args@), found),
        final(output).stderr@ == old(output).stderr@,
{
    let ghost args = strings_view(command.args@);
    let ghost mut found: Seq<Option<Seq<char>>> = Seq::empty();
    let mut i: usize = 0;
    while i < command.args.len()
        invariant
            i <= command.args.len(),
            args == strings_view(command.args@),
            found.len() == i,
            lookups_fit(args.take(i as int), found),
            output.stdout@ == old(output).stdout@ + type_lines(args.take(i as int), found),
            output.stderr@ == old(output).stderr@,
        decreases command.args.len() - i,
    {
        let arg = command.args[i].as_str();
        assert(args[i as int] == arg@);
        let lookup = if is_built_in(arg) {
            None
        } else {
            command_path(arg)
        };
        let ghost looked = option_string_view(lookup);
        let line = type_line(arg, lookup);
        output.stdout.append(line.as_str());
        proof {
            let old_found = found;
            found = found.push(looked);
            assert(args.take(i + 1).drop_last() =~= args.take(i as int));
            assert(found.drop_last() =~= old_found);
            assert forall|k: int| 0 <= k < i + 1 implies found_for(
                #[trigger] args.take(i + 1)[k],
                found[k],
            ) && (is_builtin_name(args.take(i + 1)[k]) ==> found[k] is None) by {
                if k < i {
                    assert(args.take(i + 1)[k] == args.take(i as int)[k]);
                }
            }
        }
        i += 1;
    }
    assert(args.take(command.args.len() as int) =~= args);
}

} // verus!
