//! Turning a command line into tokens, and tokens into commands and pipelines.
pub mod primitives;
pub mod tokenizer;

pub use tokenizer::tokenize;

use vstd::prelude::*;
use crate::command::{
    CommandView, ExecutionMode, Redirect, RedirectView, ShellCommand, redirect_option_view,
    strings_view,
};
use crate::pipeline::{self, Pipeline, PipelineView, commands_view};
use crate::builtin::joined;
use crate::command::{command_text, lemma_spaced_append, redirect_text, spaced};
use crate::parser::primitives::is_whitespace_char;
use crate::parser::tokenizer::{bare_tokens, is_plain_word, lemma_spaced_words_tokens, plain_words, tokenize_spec};
use vstd::string::*;
use crate::text::str_equals;
use crate::token::{PartView, Token, TokenPart, token_text, tokens_view};

verus! {

/// Whether a word is one of the redirect operators `>`, `1>`, `2>`, `>>`, `1>>`, `2>>`.
pub open spec fn is_redirect_op(w: Seq<char>) -> bool {
    ||| w == ">"@
    ||| w == "1>"@
    ||| w == "2>"@
    ||| w == ">>"@
    ||| w == "1>>"@
    ||| w == "2>>"@
}

/// The redirect that operator `op` makes of the file `file`.
pub open spec fn redirect_for(op: Seq<char>, file: Seq<char>) -> Option<RedirectView> {
    if op == ">"@ || op == "1>"@ {
        Some(RedirectView::Stdout(file))
    } else if op == "2>"@ {
        Some(RedirectView::Stderr(file))
    } else if op == ">>"@ || op == "1>>"@ {
        Some(RedirectView::AppendStdout(file))
    } else if op == "2>>"@ {
        Some(RedirectView::AppendStderr(file))
    } else {
        None
    }
}

/// Reads `words` from left to right: a redirect operator takes the word after it as its file
/// (a later redirect replaces an earlier one); every other word is a plain word. `plain` and
/// `redirect` are what was read before. `None` when an operator has no word after it.
pub open spec fn command_words(
    words: Seq<Seq<char>>,
    plain: Seq<Seq<char>>,
    redirect: Option<RedirectView>,
) -> Option<(Seq<Seq<char>>, Option<RedirectView>)>
    decreases words.len(),
{
    if words.len() == 0 {
        Some((plain, redirect))
    } else if is_redirect_op(words[0]) {
        if words.len() == 1 {
            None
        } else {
            command_words(words.skip(2), plain, redirect_for(words[0], words[1]))
        }
    } else {
        command_words(words.skip(1), plain.push(words[0]), redirect)
    }
}

/// Whether a token is the single unquoted word `text`.
pub open spec fn is_bare(t: Seq<PartView>, text: Seq<char>) -> bool {
    t.len() == 1 && t[0] == PartView::Unquoted(text)
}

/// Whether a command's tokens end with a bare `&`.
pub open spec fn ends_in_background(tokens: Seq<Seq<PartView>>) -> bool {
    tokens.len() > 0 && is_bare(tokens.last(), "&"@)
}

/// The texts of a list of token views.
pub open spec fn texts(tokens: Seq<Seq<PartView>>) -> Seq<Seq<char>> {
    tokens.map_values(|t: Seq<PartView>| token_text(t))
}

/// The command that `tokens` describe: a trailing bare `&` runs it in the background; of the
/// other words, the first plain one is the name and the plain ones after it the arguments.
/// `None` when a redirect operator ends the words.
pub open spec fn parse_command_spec(tokens: Seq<Seq<PartView>>) -> Option<CommandView> {
    let background = ends_in_background(tokens);
    let body = if background {
        texts(tokens).drop_last()
    } else {
        texts(tokens)
    };
    match command_words(body, Seq::empty(), None) {
        Some((plain, redirect)) => Some(
            CommandView {
                name: if plain.len() > 0 {
                    plain[0]
                } else {
                    Seq::empty()
                },
                args: if plain.len() > 0 {
                    plain.skip(1)
                } else {
                    Seq::empty()
                },
                redirect,
                exec_mode: if background {
                    ExecutionMode::Background
                } else {
                    ExecutionMode::Foreground
                },
            },
        ),
        None => None,
    }
}

/// The message of a redirect that has no file after it.
pub open spec fn missing_file_message() -> Seq<char> {
    "Error parsing command: trying to redirect stdout to an empty file"@
}

/// Whether `token` is one of the redirect operators.
pub fn is_redirect_token(token: &str) -> (r: bool)
    ensures
        r == is_redirect_op(token@),
{
    str_equals(token, ">") || str_equals(token, "1>") || str_equals(token, "2>") || str_equals(
        token,
        ">>",
    ) || str_equals(token, "1>>") || str_equals(token, "2>>")
}

fn make_redirect(op: &str, file: String) -> (r: Option<Redirect>)
    ensures
        redirect_option_view(r) == redirect_for(op@, file@),
{
    if str_equals(op, ">") || str_equals(op, "1>") {
        Some(Redirect::Stdout(file))
    } else if str_equals(op, "2>") {
        Some(Redirect::Stderr(file))
    } else if str_equals(op, ">>") || str_equals(op, "1>>") {
        Some(Redirect::AppendStdout(file))
    } else if str_equals(op, "2>>") {
        Some(Redirect::AppendStderr(file))
    } else {
        None
    }
}

/// Whether `token` is the single unquoted word `text`.
fn token_is_bare(token: &Token, text: &str) -> (r: bool)
    ensures
        r == is_bare(token@, text@),
{
    if token.parts.len() == 1 {
        match &token.parts[0] {
            TokenPart::Unquoted(s) => str_equals(s.as_str(), text),
            _ => false,
        }
    } else {
        false
    }
}

/// Parses the tokens `start..end` as one command.
fn parse_command_range(tokens: &[Token], start: usize, end: usize) -> (r: Result<
    ShellCommand,
    String,
>)
    requires
        start <= end <= tokens@.len(),
    ensures
        match parse_command_spec(tokens_view(tokens@).subrange(start as int, end as int)) {
            Some(c) => r matches Ok(cmd) && cmd@ == c,
            None => r matches Err(e) && e@ == missing_file_message(),
        },
{
    let ghost ts = tokens_view(tokens@).subrange(start as int, end as int);
    let background = end > start && token_is_bare(&tokens[end - 1], "&");
    assert(background == ends_in_background(ts));
    let exec_mode = if background {
        ExecutionMode::Background
    } else {
        ExecutionMode::Foreground
    };
    let stop = if background {
        end - 1
    } else {
        end
    };
    let ghost body = if background {
        texts(ts).drop_last()
    } else {
        texts(ts)
    };
    assert(body.len() == stop - start);
    assert forall|k: int| 0 <= k < stop - start implies body[k] == token_text(
        tokens@[start + k]@,
    ) by {}
    let mut cmd_name = String::new();
    let mut args: Vec<String> = Vec::new();
    let mut redirect: Option<Redirect> = None;
    let mut has_parsed_cmd_name = false;
    let ghost mut plain: Seq<Seq<char>> = Seq::empty();
    let mut i = start;
    assert(body.skip(0) =~= body);
    while i < stop
        invariant
            start <= i <= stop,
            stop <= end <= tokens@.len(),
            ts == tokens_view(tokens@).subrange(start as int, end as int),
            body == (if ends_in_background(ts) {
                texts(ts).drop_last()
            } else {
                texts(ts)
            }),
            body.len() == stop - start,
            forall|k: int| 0 <= k < stop - start ==> body[k] == token_text(tokens@[start + k]@),
            command_words(body, Seq::empty(), None) == command_words(
                body.skip(i - start),
                plain,
                redirect_option_view(redirect),
            ),
            has_parsed_cmd_name <==> plain.len() > 0,
            has_parsed_cmd_name ==> plain[0] == cmd_name@ && plain.skip(1) == strings_view(
                args@,
            ),
            !has_parsed_cmd_name ==> cmd_name@ == Seq::<char>::empty() && args@.len() == 0,
        decreases stop - i,
    {
        let ghost rest = body.skip(i - start);
        let content = tokens[i].to_string();
        assert(rest[0] == content@);
        if is_redirect_token(content.as_str()) {
            if i + 1 >= stop {
                assert(rest.len() == 1);
                assert(command_words(rest, plain, redirect_option_view(redirect)) is None);
                return Err(
                    String::from_str(
                        "Error parsing command: trying to redirect stdout to an empty file",
                    ),
                );
            }
            let file_name = tokens[i + 1].to_string();
            assert(rest[1] == file_name@);
            assert(rest.skip(2) =~= body.skip(i + 2 - start));
            redirect = make_redirect(content.as_str(), file_name);
            i += 2;
            continue;
        }
        assert(rest.skip(1) =~= body.skip(i + 1 - start));
        if !has_parsed_cmd_name {
            has_parsed_cmd_name = true;
            proof {
                plain = plain.push(content@);
                assert(plain.skip(1) =~= strings_view(args@));
            }
            cmd_name = content;
            i += 1;
            continue;
        }
        let ghost c = content@;
        args.push(content);
        proof {
            let old_plain = plain;
            plain = plain.push(c);
            assert(plain.skip(1) =~= old_plain.skip(1).push(c));
            assert(strings_view(args@) =~= strings_view(args@.drop_last()).push(c));
        }
        i += 1;
    }
    assert(body.skip(stop - start) =~= Seq::<Seq<char>>::empty());
    let command = ShellCommand { name: cmd_name, args, redirect, exec_mode };
    proof {
        if !has_parsed_cmd_name {
            assert(strings_view(command.args@) =~= Seq::<Seq<char>>::empty());
        }
    }
    Ok(command)
}

/// Parses a command from its tokens (see `parse_command_spec`). The only error is a redirect
/// operator with no file after it.
pub fn parse_command(tokens: &[Token]) -> (r: Result<ShellCommand, String>)
    ensures
        match parse_command_spec(tokens_view(tokens@)) {
            Some(c) => r matches Ok(cmd) && cmd@ == c,
            None => r matches Err(e) && e@ == missing_file_message(),
        },
{
    assert(tokens_view(tokens@).subrange(0, tokens@.len() as int) =~= tokens_view(tokens@));
    parse_command_range(tokens, 0, tokens.len())
}

/// The groups of tokens between bare `|` tokens, left to right, empty groups left out.
/// `current` is the group read so far.
pub open spec fn pipe_segments(
    tokens: Seq<Seq<PartView>>,
    current: Seq<Seq<PartView>>,
) -> Seq<Seq<Seq<PartView>>>
    decreases tokens.len(),
{
    let closed = if current.len() > 0 {
        seq![current]
    } else {
        Seq::empty()
    };
    if tokens.len() == 0 {
        closed
    } else if is_bare(tokens[0], "|"@) {
        closed + pipe_segments(tokens.skip(1), Seq::empty())
    } else {
        pipe_segments(tokens.skip(1), current.push(tokens[0]))
    }
}

/// The pipeline that `tokens` describe: one command per group between bare `|` tokens, empty
/// groups left out; it runs in the background when its last command does. `None` when a
/// group is not a command.
pub open spec fn parse_pipeline_spec(tokens: Seq<Seq<PartView>>) -> Option<PipelineView> {
    let segs = pipe_segments(tokens, Seq::empty());
    if forall|i: int| 0 <= i < segs.len() ==> (#[trigger] parse_command_spec(segs[i])) is Some {
        let cmds = segs.map_values(|s: Seq<Seq<PartView>>| parse_command_spec(s).unwrap());
        Some(
            PipelineView {
                commands: cmds,
                exec_mode: if cmds.len() > 0 && cmds.last().exec_mode
                    == ExecutionMode::Background {
                    pipeline::ExecutionMode::Background
                } else {
                    pipeline::ExecutionMode::Foreground
                },
            },
        )
    } else {
        None
    }
}

/// Parses a pipeline from its tokens (see `parse_pipeline_spec`).
pub fn parse_pipeline(tokens: &[Token]) -> (r: Result<Pipeline, String>)
    ensures
        match parse_pipeline_spec(tokens_view(tokens@)) {
            Some(p) => r matches Ok(pl) && pl@ == p,
            None => r matches Err(e) && e@ == missing_file_message(),
        },
{
    let ghost ts = tokens_view(tokens@);
    let ghost segs = pipe_segments(ts, Seq::empty());
    let mut pipeline = Pipeline::new();
    let mut start: usize = 0;
    let mut i: usize = 0;
    let ghost mut done: Seq<Seq<Seq<PartView>>> = Seq::empty();
    assert(ts.skip(0) =~= ts);
    assert(ts.subrange(0, 0) =~= Seq::<Seq<PartView>>::empty());
    assert(done + segs =~= segs);
    while i < tokens.len()
        invariant
            ts == tokens_view(tokens@),
            segs == pipe_segments(ts, Seq::empty()),
            start <= i <= tokens@.len(),
            segs == done + pipe_segments(ts.skip(i as int), ts.subrange(start as int, i as int)),
            commands_view(pipeline.commands@).len() == done.len(),
            forall|j: int|
                0 <= j < done.len() ==> parse_command_spec(#[trigger] done[j]) == Some(
                    commands_view(pipeline.commands@)[j],
                ),
            pipeline.exec_mode == pipeline::ExecutionMode::Foreground,
        decreases tokens.len() - i,
    {
        let ghost cur = ts.subrange(start as int, i as int);
        let ghost rest = ts.skip(i as int);
        assert(rest[0] == ts[i as int]);
        assert(rest.skip(1) =~= ts.skip(i + 1));
        if token_is_bare(&tokens[i], "|") {
            if i > start {
                assert(segs == done + seq![cur] + pipe_segments(ts.skip(i + 1), Seq::empty()));
                assert(segs[done.len() as int] == cur);
                let cmd = match parse_command_range(tokens, start, i) {
                    Ok(c) => c,
                    Err(e) => {
                        assert(parse_command_spec(segs[done.len() as int]) is None);
                        return Err(e);
                    },
                };
                let ghost before = commands_view(pipeline.commands@);
                pipeline.add_command(cmd);
                proof {
                    assert(done.push(cur) + pipe_segments(ts.skip(i + 1), Seq::empty()) =~= done
                        + seq![cur] + pipe_segments(ts.skip(i + 1), Seq::empty()));
                    done = done.push(cur);
                }
            } else {
                assert(cur.len() == 0);
                assert(segs =~= done + pipe_segments(ts.skip(i + 1), Seq::empty()));
            }
            start = i + 1;
            assert(ts.subrange(start as int, (i + 1) as int) =~= Seq::<Seq<PartView>>::empty());
        } else {
            assert(cur.push(ts[i as int]) =~= ts.subrange(start as int, i + 1));
        }
        i += 1;
    }
    let ghost cur = ts.subrange(start as int, i as int);
    if tokens.len() > start {
        assert(segs == done + seq![cur]);
        assert(segs[done.len() as int] == cur);
        let cmd = match parse_command_range(tokens, start, tokens.len()) {
            Ok(c) => c,
            Err(e) => {
                assert(parse_command_spec(segs[done.len() as int]) is None);
                return Err(e);
            },
        };
        pipeline.add_command(cmd);
        proof {
            done = done.push(cur);
        }
    } else {
        assert(segs =~= done);
    }
    assert(segs =~= done);
    let n = pipeline.commands.len();
    if n > 0 && pipeline.commands[n - 1].exec_mode == ExecutionMode::Background {
        pipeline.exec_mode = pipeline::ExecutionMode::Background;
    }
    assert(commands_view(pipeline.commands@) =~= segs.map_values(
        |s: Seq<Seq<PartView>>| parse_command_spec(s).unwrap(),
    ));
    Ok(pipeline)
}

/// Words that are not redirect operators are read as plain words, whatever follows them.
proof fn lemma_words_then(
    words: Seq<Seq<char>>,
    rest: Seq<Seq<char>>,
    plain: Seq<Seq<char>>,
    redirect: Option<RedirectView>,
)
    requires
        forall|i: int| 0 <= i < words.len() ==> !is_redirect_op(#[trigger] words[i]),
    ensures
        command_words(words + rest, plain, redirect) == command_words(
            rest,
            plain + words,
            redirect,
        ),
    decreases words.len(),
{
    if words.len() == 0 {
        assert(words + rest =~= rest);
        assert(plain + words =~= plain);
    } else {
        let t = words.skip(1);
        assert forall|i: int| 0 <= i < t.len() implies !is_redirect_op(#[trigger] t[i]) by {
            assert(t[i] == words[i + 1]);
        }
        assert(!is_redirect_op(words[0]));
        assert((words + rest)[0] == words[0]);
        assert((words + rest).skip(1) =~= t + rest);
        lemma_words_then(t, rest, plain.push(words[0]), redirect);
        assert(plain.push(words[0]) + t =~= plain + words);
    }
}

proof fn lemma_name_then_spaced(words: Seq<Seq<char>>)
    requires
        words.len() > 0,
    ensures
        words[0] + spaced(words.skip(1)) == joined(words),
    decreases words.len(),
{
    if words.len() == 1 {
        assert(words.skip(1) =~= Seq::<Seq<char>>::empty());
        assert(words[0] + Seq::<char>::empty() =~= words[0]);
    } else {
        let u = words.drop_last();
        lemma_name_then_spaced(u);
        assert(words.skip(1).drop_last() =~= u.skip(1));
        assert(words.skip(1).last() == words.last());
        assert(words[0] + spaced(words.skip(1)) =~= (u[0] + spaced(u.skip(1))) + seq![' ']
            + words.last());
    }
}

/// A command written without redirects or a trailing `&` is written back the same way by
/// `ShellCommand::to_string`: its words joined by single spaces.
pub proof fn lemma_parse_then_render(tokens: Seq<Seq<PartView>>)
    requires
        tokens.len() > 0,
        !ends_in_background(tokens),
        forall|i: int| 0 <= i < tokens.len() ==> !is_redirect_op(#[trigger] texts(tokens)[i]),
    ensures
        parse_command_spec(tokens) is Some,
        command_text(parse_command_spec(tokens).unwrap()) == joined(texts(tokens)),
{
    let words = texts(tokens);
    lemma_words_then(words, Seq::empty(), Seq::empty(), None);
    assert(words + Seq::<Seq<char>>::empty() =~= words);
    assert(Seq::<Seq<char>>::empty() + words =~= words);
    lemma_name_then_spaced(words);
    let c = parse_command_spec(tokens).unwrap();
    assert(c.name + spaced(c.args) + Seq::<char>::empty() =~= c.name + spaced(c.args));
}

/// The words that `command_text` writes for a redirect: its operator and its file.
pub open spec fn redirect_words(r: Option<RedirectView>) -> Seq<Seq<char>> {
    match r {
        Some(RedirectView::Stdout(f)) => seq![">"@, f],
        Some(RedirectView::Stderr(f)) => seq!["2>"@, f],
        Some(RedirectView::AppendStdout(f)) => seq![">>"@, f],
        Some(RedirectView::AppendStderr(f)) => seq!["2>>"@, f],
        None => Seq::empty(),
    }
}

/// The words that `command_text` writes for `c`, in order: the name, the arguments, and the
/// redirect's operator and file.
pub open spec fn written_words(c: CommandView) -> Seq<Seq<char>> {
    seq![c.name] + c.args + redirect_words(c.redirect)
}

/// The file of a redirect.
pub open spec fn redirect_file(r: RedirectView) -> Seq<char> {
    match r {
        RedirectView::Stdout(f) => f,
        RedirectView::Stderr(f) => f,
        RedirectView::AppendStdout(f) => f,
        RedirectView::AppendStderr(f) => f,
    }
}

/// A command written out by `ShellCommand::to_string` reads back as the same command, run in
/// the foreground: the text is read whole as its words, one bare token each, and those tokens
/// parse to the command. This holds when the name, the arguments and the redirect's file are
/// plain words that are not empty, the name and the arguments are not redirect operators, and
/// the last word written is not `&` (which would read as a background marker).
pub proof fn lemma_render_then_parse(c: CommandView)
    requires
        plain_words(seq![c.name] + c.args),
        c.redirect matches Some(r) ==> plain_words(seq![redirect_file(r)]),
        !is_redirect_op(c.name),
        forall|i: int| 0 <= i < c.args.len() ==> !is_redirect_op(#[trigger] c.args[i]),
        written_words(c).last() != "&"@,
    ensures
        tokenize_spec(command_text(c)) == Some(
            (command_text(c).len(), bare_tokens(written_words(c))),
        ),
        parse_command_spec(bare_tokens(written_words(c))) == Some(
            CommandView {
                name: c.name,
                args: c.args,
                redirect: c.redirect,
                exec_mode: ExecutionMode::Foreground,
            },
        ),
{
    reveal_strlit(">");
    reveal_strlit("1>");
    reveal_strlit("2>");
    reveal_strlit(">>");
    reveal_strlit("1>>");
    reveal_strlit("2>>");
    reveal_strlit("&");
    let head = seq![c.name] + c.args;
    let tail = redirect_words(c.redirect);
    let words = written_words(c);
    let rest = c.args + tail;
    assert(words =~= head + tail);
    assert(seq![c.name] + rest =~= words);
    assert(head[0] == c.name);
    // The text is the name followed by the other words, each after a space.
    lemma_spaced_append(c.args, tail);
    match c.redirect {
        Some(r) => {
            let op = tail[0];
            let f = redirect_file(r);
            assert(tail =~= seq![op, f]);
            let one = seq![op];
            assert(seq![op, f].drop_last() =~= one);
            assert(one.drop_last() =~= Seq::<Seq<char>>::empty());
            assert(spaced(Seq::<Seq<char>>::empty()) == Seq::<char>::empty());
            assert(spaced(one) == Seq::<char>::empty() + seq![' '] + op);
            assert(spaced(seq![op, f]) == spaced(one) + seq![' '] + f);
            assert(spaced(tail) =~= seq![' '] + op + seq![' '] + f);
            assert(redirect_text(r) =~= op + seq![' '] + f);
            assert(command_text(c) =~= c.name + spaced(rest));
        },
        None => {
            assert(rest =~= c.args);
            assert(command_text(c) =~= c.name + spaced(rest));
        },
    }
    // Every word is a plain word that is not empty.
    assert(plain_words(rest)) by {
        assert forall|i: int| 0 <= i < rest.len() implies #[trigger] rest[i].len() > 0
            && is_plain_word(rest[i]) by {
            if i < c.args.len() {
                assert(rest[i] == head[i + 1]);
            } else {
                let op = tail[0];
                assert(is_plain_word(op)) by {
                    assert forall|k: int| 0 <= k < op.len() implies !is_whitespace_char(
                        #[trigger] op[k],
                    ) && op[k] != '"' && op[k] != '\'' && op[k] != '\\' by {}
                }
                if i == c.args.len() + 1 {
                    assert(rest[i] == seq![redirect_file(c.redirect->0)][0]);
                }
            }
        }
    }
    assert(c.name == head[0]);
    lemma_spaced_words_tokens(c.name, rest);
    let toks = bare_tokens(words);
    assert(toks.len() > 0);
    // The tokens parse back to the command.
    assert(texts(toks) =~= words) by {
        assert forall|i: int| 0 <= i < words.len() implies #[trigger] texts(toks)[i] == words[i] by {
            let t = seq![PartView::Unquoted(words[i])];
            assert(toks[i] == t);
            assert(t.drop_last() =~= Seq::<PartView>::empty());
            assert(token_text(Seq::<PartView>::empty()) == Seq::<char>::empty());
            assert(token_text(t) == Seq::<char>::empty() + t.last().text());
            assert(Seq::<char>::empty() + words[i] =~= words[i]);
        }
    }
    assert(!ends_in_background(toks)) by {
        if is_bare(toks.last(), "&"@) {
            assert(toks.last() == seq![PartView::Unquoted(words.last())]);
            assert(toks.last()[0] == PartView::Unquoted(words.last()));
        }
    }
    lemma_words_then(head, tail, Seq::empty(), None);
    assert(Seq::<Seq<char>>::empty() + head =~= head);
    match c.redirect {
        Some(r) => {
            assert(tail.skip(2) =~= Seq::<Seq<char>>::empty());
            assert(">"@.len() == 1 && "1>"@.len() == 2 && "2>"@.len() == 2);
            assert(">>"@.len() == 2 && "1>>"@.len() == 3 && "2>>"@.len() == 3);
            assert("2>"@[0] == '2' && "1>"@[0] == '1' && ">>"@[0] == '>');
            assert("2>>"@[0] == '2' && "1>>"@[0] == '1');
            match r {
                RedirectView::Stdout(f) => {},
                RedirectView::Stderr(f) => {
                    assert("2>"@ != "1>"@);
                },
                RedirectView::AppendStdout(f) => {
                    assert(">>"@ != "1>"@ && ">>"@ != "2>"@);
                },
                RedirectView::AppendStderr(f) => {
                    assert("2>>"@ != "1>>"@);
                },
            }
            assert(redirect_for(tail[0], tail[1]) == Some(r));
            assert(is_redirect_op(tail[0]));
            assert(command_words(tail, head, None) == command_words(
                Seq::<Seq<char>>::empty(),
                head,
                Some(r),
            ));
        },
        None => {
            assert(tail =~= Seq::<Seq<char>>::empty());
        },
    }
    assert(command_words(tail, head, None) == Some((head, c.redirect)));
    assert(command_words(words, Seq::empty(), None) == Some((head, c.redirect)));
    assert(head.skip(1) =~= c.args);
}

} // verus!
