//! The `cd` builtin's choice of destination: `~` stands for the home directory, a relative
//! path is taken from the current directory, an absolute one as it is.
use vstd::prelude::*;
use crate::builtin::option_string_view;
use crate::command::{ShellCommand, strings_view};
use crate::text::{chars_of, push_char};
use vstd::string::*;

verus! {

/// The current user's home directory, if it can be found.
///
/// Trusted: calls `home::home_dir`, which reads the `HOME` environment variable or, failing
/// that, the user database, and writes the path as text. The result depends on the
/// environment, so nothing is stated of it.
#[verifier::external_body]
fn home_dir() -> Option<String> {
    home::home_dir().map(|p| p.display().to_string())
}

/// `path` taken from the directory `base`, as `Path::join` does it on Unix: an absolute
/// `path` replaces `base`; otherwise a `/` is put between them when `base` is not empty and
/// does not already end with one.
pub open spec fn join_spec(base: Seq<char>, path: Seq<char>) -> Seq<char> {
    if path.len() > 0 && path[0] == '/' {
        path
    } else if base.len() > 0 && base.last() != '/' {
        base + seq!['/'] + path
    } else {
        base + path
    }
}

/// `path` taken from the directory `base` (see `join_spec`).
pub fn join_path(base: &str, path: &str) -> (r: String)
    ensures
        r@ == join_spec(base@, path@),
{
    let p = chars_of(path);
    if p.len() > 0 && p[0] == '/' {
        return String::from_str(path);
    }
    let b = chars_of(base);
    let mut r = String::from_str(base);
    if b.len() > 0 && b[b.len() - 1] != '/' {
        push_char(&mut r, '/');
    }
    r.append(path);
    r
}

/// `s` without the slashes at its front.
pub open spec fn trim_leading_slashes(s: Seq<char>) -> Seq<char>
    decreases s.len(),
{
    if s.len() > 0 && s[0] == '/' {
        trim_leading_slashes(s.skip(1))
    } else {
        s
    }
}

/// What `cd` does.
#[derive(Debug)]
pub enum CdPlan {
    /// More than one argument: write `usage: cd <path>`.
    Usage,
    /// The destination is in the home directory, which cannot be found.
    NoHome,
    /// Change to this path, if it is a directory.
    Go(String),
}

/// The path that `cd` is given: its argument, or `~` when there is none or it is empty.
pub open spec fn cd_argument(args: Seq<Seq<char>>) -> Seq<char> {
    if args.len() > 0 && args[0].len() > 0 {
        args[0]
    } else {
        "~"@
    }
}

/// Where `cd` goes, given its arguments, the current directory, and the home directory (when
/// it is found): `None` for a usage error or a missing home directory.
pub open spec fn cd_destination(
    args: Seq<Seq<char>>,
    curr_dir: Seq<char>,
    home: Option<Seq<char>>,
) -> Option<Seq<char>> {
    let path = cd_argument(args);
    if args.len() > 1 {
        None
    } else if path.len() > 0 && path[0] == '~' {
        match home {
            Some(h) => Some(join_spec(h, trim_leading_slashes(path.skip(1)))),
            None => None,
        }
    } else {
        Some(join_spec(curr_dir, path))
    }
}

/// Whether the destination is in the home directory.
pub open spec fn cd_needs_home(args: Seq<Seq<char>>) -> bool {
    args.len() <= 1 && cd_argument(args).len() > 0 && cd_argument(args)[0] == '~'
}

/// `cd`'s destination once the home directory, if needed, has been looked up.
pub fn cd_plan(command: &ShellCommand, curr_dir: &str, home: Option<String>) -> (r: CdPlan)
    ensures
        command.args@.len() > 1 ==> r is Usage,
        command.args@.len() <= 1 ==> match cd_destination(
            strings_view(command.args@),
            curr_dir@,
            option_string_view(home),
        ) {
            Some(d) => r matches CdPlan::Go(p) && p@ == d,
            None => r is NoHome && cd_needs_home(strings_view(command.args@)),
        },
{
    let ghost args = strings_view(command.args@);
    if command.args.len() > 1 {
        return CdPlan::Usage;
    }
    let mut path = String::from_str("~");
    if command.args.len() == 1 {
        assert(args[0] == command.args@[0]@);
        if !command.args[0].as_str().is_empty() {
            path = command.args[0].clone();
        }
    }
    assert(path@ == cd_argument(args));
    let p = chars_of(path.as_str());
    if p.len() > 0 && p[0] == '~' {
        match home {
            Some(h) => {
                let mut k: usize = 1;
                while k < p.len() && p[k] == '/'
                    invariant
                        1 <= k <= p@.len(),
                        trim_leading_slashes(p@.skip(1)) == trim_leading_slashes(p@.skip(k as int)),
                    decreases p.len() - k,
                {
                    assert(p@.skip(k as int).skip(1) =~= p@.skip(k + 1));
                    k += 1;
                }
                let mut rest = String::new();
                let mut m = k;
                while m < p.len()
                    invariant
                        k <= m <= p@.len(),
                        rest@ == p@.subrange(k as int, m as int),
                    decreases p.len() - m,
                {
                    push_char(&mut rest, p[m]);
                    assert(p@.subrange(k as int, m + 1) =~= p@.subrange(k as int, m as int).push(
                        p@[m as int],
                    ));
                    m += 1;
                }
                assert(rest@ =~= p@.skip(k as int));
                assert(trim_leading_slashes(p@.skip(k as int)) == p@.skip(k as int));
                CdPlan::Go(join_path(h.as_str(), rest.as_str()))
            },
            None => CdPlan::NoHome,
        }
    } else {
        CdPlan::Go(join_path(curr_dir, path.as_str()))
    }
}

/// `cd`: what it does with its arguments from the directory `curr_dir`, looking up the home
/// directory when the destination is in it. Where the home directory is found is up to the
/// environment: a destination in it is `join_spec` of some home directory.
pub fn cd_cmd(command: &ShellCommand, curr_dir: &str) -> (r: CdPlan)
    ensures
        command.args@.len() > 1 ==> r is Usage,
        command.args@.len() <= 1 && !cd_needs_home(strings_view(command.args@)) ==> (r matches CdPlan::Go(
            p,
        ) && Some(p@) == cd_destination(strings_view(command.args@), curr_dir@, None)),
        command.args@.len() <= 1 && cd_needs_home(strings_view(command.args@)) ==> (r is NoHome
            || exists|h: Seq<char>|
            #![trigger cd_destination(strings_view(command.args@), curr_dir@, Some(h))]
            r matches CdPlan::Go(p) && Some(p@) == cd_destination(
                strings_view(command.args@),
                curr_dir@,
                Some(h),
            )),
{
    let home = home_dir();
    let ghost hv = option_string_view(home);
    let r = cd_plan(command, curr_dir, home);
    proof {
        let args = strings_view(command.args@);
        if command.args@.len() <= 1 && cd_needs_home(args) {
            if let Some(h) = hv {
                assert(cd_destination(args, curr_dir@, Some(h)) is Some);
            }
        }
    }
    r
}

} // verus!
