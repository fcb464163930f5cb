//! A parsed command: its name, its arguments, where its output goes, and whether it runs in
//! the background.
use vstd::prelude::*;
use crate::text::push_char;
use vstd::string::*;

verus! {

/// Where a command's output is sent instead of the terminal.
#[derive(Debug)]
pub enum Redirect {
    Stdout(String),
    Stderr(String),
    AppendStdout(String),
    AppendStderr(String),
}

/// Whether the shell waits for a command.
#[derive(Debug, Clone, Copy, PartialEq, Eq, Structural)]
pub enum ExecutionMode {
    Foreground,
    Background,
}

/// One command of a command line.
#[derive(Debug)]
pub struct ShellCommand {
    pub name: String,
    pub args: Vec<String>,
    pub redirect: Option<Redirect>,
    pub exec_mode: ExecutionMode,
}

/// The mathematical value of a `Redirect`.
pub enum RedirectView {
    Stdout(Seq<char>),
    Stderr(Seq<char>),
    AppendStdout(Seq<char>),
    AppendStderr(Seq<char>),
}

/// The mathematical value of a `ShellCommand`.
pub struct CommandView {
    pub name: Seq<char>,
    pub args: Seq<Seq<char>>,
    pub redirect: Option<RedirectView>,
    pub exec_mode: ExecutionMode,
}

impl View for Redirect {
    type V = RedirectView;

    open spec fn view(&self) -> RedirectView {
        match self {
            Redirect::Stdout(f) => RedirectView::Stdout(f@),
            Redirect::Stderr(f) => RedirectView::Stderr(f@),
            Redirect::AppendStdout(f) => RedirectView::AppendStdout(f@),
            Redirect::AppendStderr(f) => RedirectView::AppendStderr(f@),
        }
    }
}

/// The view of an optional redirect.
pub open spec fn redirect_option_view(r: Option<Redirect>) -> Option<RedirectView> {
    match r {
        Some(red) => Some(red@),
        None => None,
    }
}

/// The views of a list of strings.
pub open spec fn strings_view(v: Seq<String>) -> Seq<Seq<char>> {
    v.map_values(|s: String| s@)
}

impl View for ShellCommand {
    type V = CommandView;

    open spec fn view(&self) -> CommandView {
        CommandView {
            name: self.name@,
            args: strings_view(self.args@),
            redirect: redirect_option_view(self.redirect),
            exec_mode: self.exec_mode,
        }
    }
}

/// Each argument with a space in front of it, one after the other.
pub open spec fn spaced(args: Seq<Seq<char>>) -> Seq<char>
    decreases args.len(),
{
    if args.len() == 0 {
        Seq::empty()
    } else {
        spaced(args.drop_last()) + seq![' '] + args.last()
    }
}

/// `spaced` read from the front: a space, the first argument, then the others spaced.
pub proof fn lemma_spaced_front(args: Seq<Seq<char>>)
    requires
        args.len() > 0,
    ensures
        spaced(args) == seq![' '] + args[0] + spaced(args.skip(1)),
    decreases args.len(),
{
    if args.len() == 1 {
        assert(args.skip(1) =~= Seq::<Seq<char>>::empty());
        assert(args.drop_last() =~= Seq::<Seq<char>>::empty());
        assert(Seq::<char>::empty() + seq![' '] + args.last() =~= seq![' '] + args[0]
            + Seq::<char>::empty());
    } else {
        let u = args.drop_last();
        lemma_spaced_front(u);
        assert(args.skip(1).drop_last() =~= u.skip(1));
        assert(args.skip(1).last() == args.last());
        assert(u[0] == args[0]);
        assert(spaced(u) + seq![' '] + args.last() =~= seq![' '] + args[0] + (spaced(u.skip(1))
            + seq![' '] + args.last()));
    }
}

/// Spacing two lists of arguments one after the other spaces them all.
pub proof fn lemma_spaced_append(a: Seq<Seq<char>>, b: Seq<Seq<char>>)
    ensures
        spaced(a + b) == spaced(a) + spaced(b),
    decreases b.len(),
{
    if b.len() == 0 {
        assert(a + b =~= a);
        assert(spaced(a) + Seq::<char>::empty() =~= spaced(a));
    } else {
        lemma_spaced_append(a, b.drop_last());
        assert((a + b).drop_last() =~= a + b.drop_last());
        assert((a + b).last() == b.last());
        assert(spaced(a) + spaced(b.drop_last()) + seq![' '] + b.last() =~= spaced(a) + (spaced(
            b.drop_last(),
        ) + seq![' '] + b.last()));
    }
}

/// A redirect as it is written: the operator, a space, the file.
pub open spec fn redirect_text(r: RedirectView) -> Seq<char> {
    match r {
        RedirectView::Stdout(f) => ">"@ + seq![' '] + f,
        RedirectView::Stderr(f) => "2>"@ + seq![' '] + f,
        RedirectView::AppendStdout(f) => ">>"@ + seq![' '] + f,
        RedirectView::AppendStderr(f) => "2>>"@ + seq![' '] + f,
    }
}

/// A command as it is written: the name, each argument after a space, and the redirect, if
/// any, after a space. A background marker is not written.
pub open spec fn command_text(c: CommandView) -> Seq<char> {
    c.name + spaced(c.args) + match c.redirect {
        Some(r) => seq![' '] + redirect_text(r),
        None => Seq::empty(),
    }
}

impl ShellCommand {
    /// The command as it is written (see `command_text`).
    pub fn to_string(&self) -> (r: String)
        ensures
            r@ == command_text(self@),
    {
        let mut result = String::new();
        result.append(self.name.as_str());
        let mut i: usize = 0;
        while i < self.args.len()
            invariant
                i <= self.args.len(),
                result@ == self.name@ + spaced(strings_view(self.args@).take(i as int)),
            decreases self.args.len() - i,
        {
            push_char(&mut result, ' ');
            result.append(self.args[i].as_str());
            assert(strings_view(self.args@).take(i + 1).drop_last() =~= strings_view(
                self.args@,
            ).take(i as int));
            i += 1;
        }
        assert(strings_view(self.args@).take(self.args.len() as int) =~= strings_view(
            self.args@,
        ));
        let ghost head = result@;
        if let Some(redirect) = &self.redirect {
            push_char(&mut result, ' ');
            match redirect {
                Redirect::Stdout(file) => {
                    result.append(">");
                    push_char(&mut result, ' ');
                    result.append(file.as_str());
                },
                Redirect::Stderr(file) => {
                    result.append("2>");
                    push_char(&mut result, ' ');
                    result.append(file.as_str());
                },
                Redirect::AppendStdout(file) => {
                    result.append(">>");
                    push_char(&mut result, ' ');
                    result.append(file.as_str());
                },
                Redirect::AppendStderr(file) => {
                    result.append("2>>");
                    push_char(&mut result, ' ');
                    result.append(file.as_str());
                },
            }
            assert(result@ =~= head + (seq![' '] + redirect_text(redirect@)));
        } else {
            assert(result@ =~= head + Seq::<char>::empty());
        }
        result
    }
}

} // verus!
