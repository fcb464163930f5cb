//! The decisions of the read-eval loop: what a line of input asks the shell to do, and how
//! the stages of a pipeline are to run. Running them is the caller's work.
use vstd::prelude::*;
use crate::builtin::{
    is_built_in, is_builtin_name, is_pipeline_built_in, is_pipeline_builtin_name,
    option_string_view,
};
use crate::command::{CommandView, ShellCommand};
use crate::completer::trailing_whitespace;
use crate::external::{command_path, found_for};
use crate::parser::primitives::{leading_whitespace, lemma_leading_whitespace};
use crate::parser::tokenizer::{lemma_tokens_at_bounds, tokenize_spec};
use crate::parser::{missing_file_message, parse_pipeline, parse_pipeline_spec, tokenize};
use crate::pipeline::{self, Pipeline, commands_view};
use crate::text::{chars_of, push_char};
use vstd::string::*;

verus! {

/// `s` without the whitespace at either end, as `str::trim` gives it.
pub open spec fn trim_spec(s: Seq<char>) -> Seq<char> {
    let t = s.skip(leading_whitespace(s) as int);
    t.take(t.len() - trailing_whitespace(t))
}

/// What a line of input asks the shell to do.
#[derive(Debug)]
pub enum Step {
    /// Nothing: the line holds no token.
    Skip,
    /// Write this message to standard error and go on.
    Error(String),
    /// Write this message to standard output and go on.
    Say(String),
    /// Run this builtin.
    Builtin(ShellCommand),
    /// Run the executable at `path` for this command, in the foreground or the background.
    External(ShellCommand, String, pipeline::ExecutionMode),
    /// Run these commands as a pipeline.
    Pipeline(Pipeline),
}

/// The message for text that the tokenizer could not read.
pub open spec fn leftover_message(rest: Seq<char>) -> Seq<char> {
    "Couldn't parse the entire input, remaining portion: "@ + rest
}

/// The message for a line whose tokens make no command.
pub open spec fn no_commands_message() -> Seq<char> {
    "Couldn't parse the input to a valid pipeline of commands"@
}

/// The message for a command that names no builtin and no executable.
pub open spec fn not_found_message(name: Seq<char>) -> Seq<char> {
    name + ": command not found"@ + seq!['\n']
}

/// The text that a line of input is read from: the line without surrounding whitespace.
proof fn lemma_trim(s: Seq<char>)
    ensures
        leading_whitespace(s) <= s.len(),
        trailing_whitespace(s.skip(leading_whitespace(s) as int)) <= s.skip(
            leading_whitespace(s) as int,
        ).len(),
{
    lemma_leading_whitespace(s);
    crate::completer::lemma_trailing(s.skip(leading_whitespace(s) as int));
}

/// The text of a line without surrounding whitespace.
fn trim(input: &str) -> (r: &str)
    ensures
        r@ == trim_spec(input@),
{
    let chars = chars_of(input);
    assert(chars@.skip(0) =~= chars@);
    let first = crate::parser::primitives::zero_or_more_whitespace(&chars, 0);
    proof {
        lemma_trim(input@);
    }
    let ghost t = input@.skip(first as int);
    let mut end = chars.len();
    assert(chars@.subrange(first as int, end as int) =~= t);
    while end > first && crate::parser::primitives::is_whitespace(chars[end - 1])
        invariant
            first <= end <= chars@.len(),
            chars@ == input@,
            t == input@.skip(first as int),
            trailing_whitespace(t) == (chars@.len() - end) + trailing_whitespace(
                chars@.subrange(first as int, end as int),
            ),
        decreases end,
    {
        assert(chars@.subrange(first as int, end as int).drop_last() =~= chars@.subrange(
            first as int,
            end - 1,
        ));
        end -= 1;
    }
    proof {
        if end > first {
            assert(chars@.subrange(first as int, end as int).last() == chars@[end - 1]);
        }
    }
    let r = input.substring_char(first, end);
    assert(r@ =~= t.take(t.len() - trailing_whitespace(t)));
    r
}

/// What the shell does with a line that holds one command `c`, run in `mode`, where `lookup`
/// is what a search of `PATH` found for its name: a builtin runs as one; otherwise the
/// executable found runs, or the shell says that there is none.
pub open spec fn command_step_spec(
    c: CommandView,
    mode: pipeline::ExecutionMode,
    lookup: Option<Seq<char>>,
) -> StepView {
    if is_builtin_name(c.name) {
        StepView::Builtin(c)
    } else {
        match lookup {
            Some(path) => StepView::External(c, path, mode),
            None => StepView::Say(not_found_message(c.name)),
        }
    }
}

/// The step for a line that holds the one command `command`, given what a search of `PATH`
/// found for its name (see `command_step_spec`).
pub fn plan_command(command: ShellCommand, mode: pipeline::ExecutionMode, found: Option<String>) -> (r: Step)
    ensures
        r@ == command_step_spec(command@, mode, option_string_view(found)),
{
    if is_built_in(command.name.as_str()) {
        return Step::Builtin(command);
    }
    match found {
        Some(path) => Step::External(command, path, mode),
        None => {
            let mut message = command.name.clone();
            message.append(": command not found");
            push_char(&mut message, '\n');
            assert(message@ =~= not_found_message(command.name@));
            Step::Say(message)
        },
    }
}

/// What the shell does with a line, given what it reads (see `plan_line`); `lookup` is what a
/// search of `PATH` finds for a lone command that is not a builtin.
pub open spec fn step_spec(line: Seq<char>, lookup: Option<Seq<char>>) -> StepView {
    let t = trim_spec(line);
    match tokenize_spec(t) {
        None => StepView::Skip,
        Some((n, ts)) => if n < t.len() {
            StepView::Error(leftover_message(t.skip(n as int)))
        } else {
            match parse_pipeline_spec(ts) {
                None => StepView::Error(missing_file_message()),
                Some(p) => if p.commands.len() == 0 {
                    StepView::Error(no_commands_message())
                } else if p.commands.len() == 1 {
                    command_step_spec(p.commands[0], p.exec_mode, lookup)
                } else {
                    StepView::Pipeline(p)
                },
            }
        },
    }
}

/// The mathematical value of a `Step`.
pub enum StepView {
    Skip,
    Error(Seq<char>),
    Say(Seq<char>),
    Builtin(CommandView),
    External(CommandView, Seq<char>, pipeline::ExecutionMode),
    Pipeline(crate::pipeline::PipelineView),
}

impl View for Step {
    type V = StepView;

    open spec fn view(&self) -> StepView {
        match self {
            Step::Skip => StepView::Skip,
            Step::Error(m) => StepView::Error(m@),
            Step::Say(m) => StepView::Say(m@),
            Step::Builtin(c) => StepView::Builtin(c@),
            Step::External(c, p, m) => StepView::External(c@, p@, *m),
            Step::Pipeline(p) => StepView::Pipeline(p@),
        }
    }
}

/// The pipeline that a line holds, when the whole line (without surrounding whitespace) is
/// read as tokens and they parse.
pub open spec fn line_pipeline(line: Seq<char>) -> Option<crate::pipeline::PipelineView> {
    let t = trim_spec(line);
    match tokenize_spec(t) {
        Some((n, ts)) => if n == t.len() {
            parse_pipeline_spec(ts)
        } else {
            None
        },
        None => None,
    }
}

/// Whether `lookup` can be what `plan_line` looked up for `line`: for a line that holds one
/// command that is not a builtin, a result of a search of `PATH` for that command's name;
/// for any other line, nothing.
pub open spec fn line_lookup_fits(line: Seq<char>, lookup: Option<Seq<char>>) -> bool {
    match line_pipeline(line) {
        Some(p) => if p.commands.len() == 1 && !is_builtin_name(p.commands[0].name) {
            found_for(p.commands[0].name, lookup)
        } else {
            lookup is None
        },
        None => lookup is None,
    }
}

/// What the shell does with a line of input: read tokens from the line without surrounding
/// whitespace, parse them as a pipeline, and pick a builtin, an executable or a pipeline to
/// run. Which executable a search of `PATH` finds is up to the environment: the step is the
/// one for some outcome of the search for the command's name.
pub fn plan_line(input: &str) -> (r: Step)
    ensures
        exists|lookup: Option<Seq<char>>|
            #![trigger step_spec(input@, lookup)]
            line_lookup_fits(input@, lookup) && step_spec(input@, lookup) == r@,
{
    let line = trim(input);
    proof {
        lemma_tokens_at_bounds(line@);
    }
    let (rest, tokens) = match tokenize(line) {
        Ok(pair) => pair,
        Err(_) => {
            let r = Step::Skip;
            assert(step_spec(input@, None) == r@);
            return r;
        },
    };
    if !rest.is_empty() {
        let mut message = String::from_str("Couldn't parse the entire input, remaining portion: ");
        message.append(rest);
        let r = Step::Error(message);
        assert(step_spec(input@, None) == r@);
        return r;
    }
    let pipeline = match parse_pipeline(tokens.as_slice()) {
        Ok(p) => p,
        Err(e) => {
            let r = Step::Error(e);
            assert(step_spec(input@, None) == r@);
            return r;
        },
    };
    let n = pipeline.commands.len();
    if n == 0 {
        let r = Step::Error(
            String::from_str("Couldn't parse the input to a valid pipeline of commands"),
        );
        assert(step_spec(input@, None) == r@);
        return r;
    }
    if n > 1 {
        let r = Step::Pipeline(pipeline);
        assert(step_spec(input@, None) == r@);
        return r;
    }
    let mode = pipeline.exec_mode;
    let mut commands = pipeline.commands;
    let command = commands.pop().unwrap();
    assert(command@ == commands_view(pipeline.commands@)[0]);
    let found = if is_built_in(command.name.as_str()) {
        None
    } else {
        command_path(command.name.as_str())
    };
    let ghost lookup = option_string_view(found);
    let r = plan_command(command, mode, found);
    assert(step_spec(input@, lookup) == r@);
    r
}

/// How one stage of a pipeline runs.
#[derive(Debug)]
pub enum StageKind {
    /// As a builtin of the shell.
    Builtin,
    /// As the executable at this path.
    External(String),
}

/// The mathematical value of a `StageKind`.
pub enum StageKindView {
    Builtin,
    External(Seq<char>),
}

impl View for StageKind {
    type V = StageKindView;

    open spec fn view(&self) -> StageKindView {
        match self {
            StageKind::Builtin => StageKindView::Builtin,
            StageKind::External(p) => StageKindView::External(p@),
        }
    }
}

/// The message for a stage that names neither a builtin that may stand in a pipeline nor an
/// executable.
pub open spec fn stage_not_found_message(name: Seq<char>) -> Seq<char> {
    name + ": command not found"@
}

/// How the stages named `names` run, where `found[i]` is what a search of `PATH` found for
/// `names[i]`: a builtin that may stand in a pipeline runs as one, another stage runs the
/// executable found for it, and the first stage for which nothing was found makes the whole
/// pipeline fail with the message for its name.
pub open spec fn stage_kinds_spec(
    names: Seq<Seq<char>>,
    found: Seq<Option<Seq<char>>>,
) -> Result<Seq<StageKindView>, Seq<char>>
    decreases names.len(),
{
    if names.len() == 0 {
        Ok(Seq::empty())
    } else if !is_pipeline_builtin_name(names[0]) && found[0] is None {
        Err(stage_not_found_message(names[0]))
    } else {
        let first = if is_pipeline_builtin_name(names[0]) {
            StageKindView::Builtin
        } else {
            StageKindView::External(found[0]->0)
        };
        match stage_kinds_spec(names.skip(1), found.skip(1)) {
            Ok(rest) => Ok(seq![first] + rest),
            Err(m) => Err(m),
        }
    }
}

/// The names of the stages of a pipeline, in order.
pub open spec fn stage_names(p: crate::pipeline::PipelineView) -> Seq<Seq<char>> {
    p.commands.map_values(|c: CommandView| c.name)
}

/// The views of a list of stage kinds.
pub open spec fn kinds_view(v: Seq<StageKind>) -> Seq<StageKindView> {
    v.map_values(|k: StageKind| k@)
}

/// The view of what `stage_kinds` and `plan_stages` return.
pub open spec fn stages_result_view(r: Result<Vec<StageKind>, String>) -> Result<
    Seq<StageKindView>,
    Seq<char>,
> {
    match r {
        Ok(v) => Ok(kinds_view(v@)),
        Err(m) => Err(m@),
    }
}

/// The views of a list of search results.
pub open spec fn found_view(v: Seq<Option<String>>) -> Seq<Option<Seq<char>>> {
    v.map_values(|o: Option<String>| option_string_view(o))
}

/// The kinds of all stages, when `done` are those of the first stages and `rest` is the
/// outcome for the others.
spec fn after_done(
    done: Seq<StageKindView>,
    rest: Result<Seq<StageKindView>, Seq<char>>,
) -> Result<Seq<StageKindView>, Seq<char>> {
    match rest {
        Ok(ks) => Ok(done + ks),
        Err(m) => Err(m),
    }
}

/// How the stages of `pipeline` run, where `found[i]` is what a search of `PATH` found for
/// the name of stage `i` (see `stage_kinds_spec`).
pub fn stage_kinds(pipeline: &Pipeline, found: &Vec<Option<String>>) -> (r: Result<
    Vec<StageKind>,
    String,
>)
    requires
        found.len() == pipeline.commands.len(),
    ensures
        stages_result_view(r) == stage_kinds_spec(stage_names(pipeline@), found_view(found@)),
{
    let ghost names = stage_names(pipeline@);
    let ghost fv = found_view(found@);
    let mut kinds: Vec<StageKind> = Vec::new();
    let mut i: usize = 0;
    assert(names.skip(0) =~= names);
    assert(fv.skip(0) =~= fv);
    proof {
        match stage_kinds_spec(names, fv) {
            Ok(ks) => {
                assert(kinds_view(kinds@) + ks =~= ks);
            },
            Err(_) => {},
        }
    }
    while i < pipeline.commands.len()
        invariant
            i <= pipeline.commands.len(),
            found.len() == pipeline.commands.len(),
            names == stage_names(pipeline@),
            names.len() == pipeline.commands.len(),
            fv == found_view(found@),
            stage_kinds_spec(names, fv) == after_done(
                kinds_view(kinds@),
                stage_kinds_spec(names.skip(i as int), fv.skip(i as int)),
            ),
        decreases pipeline.commands.len() - i,
    {
        let name = pipeline.commands[i].name.as_str();
        let ghost rn = names.skip(i as int);
        let ghost rf = fv.skip(i as int);
        assert(rn[0] == name@);
        assert(rf[0] == option_string_view(found@[i as int]));
        assert(rn.skip(1) =~= names.skip(i + 1));
        assert(rf.skip(1) =~= fv.skip(i + 1));
        let kind = if is_pipeline_built_in(name) {
            StageKind::Builtin
        } else {
            match &found[i] {
                Some(p) => StageKind::External(p.clone()),
                None => {
                    let mut message = pipeline.commands[i].name.clone();
                    message.append(": command not found");
                    assert(message@ =~= stage_not_found_message(name@));
                    return Err(message);
                },
            }
        };
        let ghost before = kinds_view(kinds@);
        let ghost kv = kind@;
        kinds.push(kind);
        proof {
            assert(kinds_view(kinds@) =~= before.push(kv));
            match stage_kinds_spec(names.skip(i + 1), fv.skip(i + 1)) {
                Ok(ks) => {
                    assert(before + (seq![kv] + ks) =~= before.push(kv) + ks);
                },
                Err(_) => {},
            }
        }
        i += 1;
    }
    assert(names.skip(i as int).len() == 0);
    assert(kinds_view(kinds@) + Seq::<StageKindView>::empty() =~= kinds_view(kinds@));
    Ok(kinds)
}

/// Whether `found` can be what `plan_stages` looked up for the stages named `names`: for
/// each stage, a result of a search of `PATH` for its name, and nothing for a builtin that
/// may stand in a pipeline.
pub open spec fn stage_lookups_fit(names: Seq<Seq<char>>, found: Seq<Option<Seq<char>>>) -> bool {
    &&& found.len() == names.len()
    &&& forall|i: int|
        #![trigger found[i]]
        0 <= i < names.len() ==> found_for(names[i], found[i]) && (is_pipeline_builtin_name(
            names[i],
        ) ==> found[i] is None)
}

/// How the stages of `pipeline` run: each stage that is not a builtin that may stand in a
/// pipeline is searched for in `PATH`, up to the first for which nothing is found, and the
/// result is the one `stage_kinds_spec` gives for those searches. Which executables the
/// searches find is up to the environment.
pub fn plan_stages(pipeline: &Pipeline) -> (r: Result<Vec<StageKind>, String>)
    ensures
        exists|found: Seq<Option<Seq<char>>>|
            #![trigger stage_kinds_spec(stage_names(pipeline@), found)]
            stage_lookups_fit(stage_names(pipeline@), found) && stages_result_view(r)
                == stage_kinds_spec(stage_names(pipeline@), found),
{
    let ghost names = stage_names(pipeline@);
    let mut found: Vec<Option<String>> = Vec::new();
    let mut missing = false;
    let mut i: usize = 0;
    while i < pipeline.commands.len()
        invariant
            i <= pipeline.commands.len(),
            found.len() == i,
            names == stage_names(pipeline@),
            names.len() == pipeline.commands.len(),
            stage_lookups_fit(names.take(i as int), found_view(found@)),
        decreases pipeline.commands.len() - i,
    {
        let name = pipeline.commands[i].name.as_str();
        assert(names[i as int] == name@);
        let lookup = if missing || is_pipeline_built_in(name) {
            None
        } else {
            let p = command_path(name);
            if p.is_none() {
                missing = true;
            }
            p
        };
        let ghost before = found_view(found@);
        let ghost lv = option_string_view(lookup);
        assert(found_for(name@, lv));
        assert(is_pipeline_builtin_name(name@) ==> lv is None);
        found.push(lookup);
        proof {
            assert(found_view(found@) =~= before.push(lv));
            assert(names.take(i + 1) =~= names.take(i as int).push(names[i as int]));
            let nt = names.take(i + 1);
            let ft = found_view(found@);
            assert forall|j: int| #![trigger ft[j]] 0 <= j < nt.len() implies found_for(
                nt[j],
                ft[j],
            ) && (is_pipeline_builtin_name(nt[j]) ==> ft[j] is None) by {
                if j < i {
                    assert(nt[j] == names.take(i as int)[j]);
                    assert(ft[j] == before[j]);
                }
            }
        }
        i += 1;
    }
    assert(names.take(i as int) =~= names);
    stage_kinds(pipeline, &found)
}

} // verus!
