//! Completion: the completion commands registered with `complete -C`, the `complete` builtin,
//! and the text work of completing a word: where the word starts, which names match it, and
//! how candidates are presented.
use vstd::prelude::*;
use crate::builtin::Output;
use crate::command::{ShellCommand, strings_view};
use crate::table::StringTable;
use crate::text::{chars_of, push_char, push_chars, str_equals, string_of};
use crate::parser::primitives::{
    is_whitespace, is_whitespace_char, leading_non, leading_whitespace, lemma_leading_non,
    lemma_leading_whitespace,
};
use vstd::string::*;

verus! {

/// A completion candidate: the text listed, and the text put into the line.
#[derive(Debug)]
pub struct Candidate {
    pub display: String,
    pub replacement: String,
}

/// The completion state of the shell: the builtin names and the completion commands
/// registered with `complete -C`.
pub struct ShellHelper {
    builtins: Vec<&'static str>,
    prog_completions: StringTable,
}

impl ShellHelper {
    /// The registered completion commands: command name to completer path.
    pub closed spec fn completions(&self) -> Map<Seq<char>, Seq<char>> {
        self.prog_completions.contents()
    }

    /// The builtin names offered when completing the first word.
    pub closed spec fn builtin_names(&self) -> Seq<Seq<char>> {
        self.builtins@.map_values(|s: &str| s@)
    }

    /// The helper's internal consistency.
    pub closed spec fn wf(&self) -> bool {
        self.prog_completions.wf()
    }

    /// A helper offering `builtins`, with nothing registered.
    pub fn new(builtins: Vec<&'static str>) -> (h: ShellHelper)
        ensures
            h.wf(),
            h.completions() == Map::<Seq<char>, Seq<char>>::empty(),
            h.builtin_names() == builtins@.map_values(|s: &str| s@),
    {
        ShellHelper { builtins, prog_completions: StringTable::new() }
    }

    /// The builtin names offered when completing the first word.
    pub fn builtins(&self) -> (r: &Vec<&'static str>)
        ensures
            r@.map_values(|s: &str| s@) == self.builtin_names(),
    {
        &self.builtins
    }

    /// Registers `path` as the completer of `target`, replacing any earlier one.
    pub fn register_ext_completion(&mut self, target: String, path: String)
        requires
            old(self).wf(),
        ensures
            final(self).wf(),
            final(self).completions() == old(self).completions().insert(target@, path@),
            final(self).builtin_names() == old(self).builtin_names(),
    {
        self.prog_completions.insert(target, path);
    }

    /// The completer registered for `target`, if any.
    pub fn get_ext_completion(&self, target: &str) -> (r: Option<&str>)
        requires
            self.wf(),
        ensures
            match r {
                Some(p) => self.completions().dom().contains(target@) && p@ == self.completions()[target@],
                None => !self.completions().dom().contains(target@),
            },
    {
        self.prog_completions.get(target)
    }

    /// Forgets the completer of `target`, if any.
    pub fn remove_ext_completion(&mut self, target: &String)
        requires
            old(self).wf(),
        ensures
            final(self).wf(),
            final(self).completions() == old(self).completions().remove(target@),
            final(self).builtin_names() == old(self).builtin_names(),
    {
        self.prog_completions.remove(target.as_str());
    }
}

/// What `complete` does with the registered completers `m`, given its arguments: the
/// completers afterwards, and the text it writes.
pub open spec fn complete_outcome(args: Seq<Seq<char>>, m: Map<Seq<char>, Seq<char>>) -> (
    Map<Seq<char>, Seq<char>>,
    Seq<char>,
) {
    let nl = seq!['\n'];
    if args.len() == 0 {
        (m, "The flag is required"@ + nl)
    } else if args[0] == "-C"@ {
        if args.len() >= 3 {
            (m.insert(args[2], args[1]), Seq::empty())
        } else {
            (m, "usage: complete -C <path> <command>"@ + nl)
        }
    } else if args[0] == "-p"@ {
        if args.len() >= 2 {
            if m.dom().contains(args[1]) {
                (m, "complete -C '"@ + m[args[1]] + "' "@ + args[1] + nl)
            } else {
                (m, "complete: "@ + args[1] + ": no completion specification"@ + nl)
            }
        } else {
            (m, "usage: complete -p <command>"@ + nl)
        }
    } else if args[0] == "-r"@ {
        if args.len() >= 2 {
            (m.remove(args[1]), Seq::empty())
        } else {
            (m, "usage: complete -p <command>"@ + nl)
        }
    } else {
        (m, "Invalid flag"@ + nl)
    }
}

/// `complete`: `-C <path> <command>` registers a completer, `-p <command>` prints the one
/// registered, `-r <command>` forgets it (see `complete_outcome`).
pub fn complete_cmd(helper: &mut ShellHelper, command: &ShellCommand, output: &mut Output)
    requires
        old(helper).wf(),
    ensures
        final(helper).wf(),
        final(helper).builtin_names() == old(helper).builtin_names(),
        final(helper).completions() == complete_outcome(
            strings_view(command.args@),
            old(helper).completions(),
        ).0,
        final(output).stdout@ == old(output).stdout@ + complete_outcome(
            strings_view(command.args@),
            old(helper).completions(),
        ).1,
        final(output).stderr@ == old(output).stderr@,
{
    let ghost args = strings_view(command.args@);
    let n = command.args.len();
    if n == 0 {
        output.stdout.append("The flag is required");
        push_char(&mut output.stdout, '\n');
        return;
    }
    let flag = command.args[0].as_str();
    assert(args[0] == flag@);
    if str_equals(flag, "-C") {
        if n >= 3 {
            assert(args[1] == command.args@[1]@ && args[2] == command.args@[2]@);
            let path = command.args[1].clone();
            let target = command.args[2].clone();
            helper.register_ext_completion(target, path);
            assert(output.stdout@ =~= old(output).stdout@ + Seq::<char>::empty());
        } else {
            output.stdout.append("usage: complete -C <path> <command>");
            push_char(&mut output.stdout, '\n');
        }
    } else if str_equals(flag, "-p") {
        if n >= 2 {
            let target = command.args[1].as_str();
            assert(args[1] == target@);
            match helper.get_ext_completion(target) {
                Some(path) => {
                    output.stdout.append("complete -C '");
                    output.stdout.append(path);
                    output.stdout.append("' ");
                    output.stdout.append(target);
                    push_char(&mut output.stdout, '\n');
                },
                None => {
                    output.stdout.append("complete: ");
                    output.stdout.append(target);
                    output.stdout.append(": no completion specification");
                    push_char(&mut output.stdout, '\n');
                },
            }
        } else {
            output.stdout.append("usage: complete -p <command>");
            push_char(&mut output.stdout, '\n');
        }
    } else if str_equals(flag, "-r") {
        if n >= 2 {
            assert(args[1] == command.args@[1]@);
            helper.remove_ext_completion(&command.args[1]);
            assert(output.stdout@ =~= old(output).stdout@ + Seq::<char>::empty());
        } else {
            output.stdout.append("usage: complete -p <command>");
            push_char(&mut output.stdout, '\n');
        }
    } else {
        output.stdout.append("Invalid flag");
        push_char(&mut output.stdout, '\n');
    }
}

/// Whether `a` comes strictly before `b` in the order of `String`'s `Ord`: character by
/// character by code point, a proper prefix first.
pub open spec fn lex_lt(a: Seq<char>, b: Seq<char>) -> bool
    decreases a.len(),
{
    if a.len() == 0 {
        b.len() > 0
    } else if b.len() == 0 {
        false
    } else if a[0] != b[0] {
        a[0] < b[0]
    } else {
        lex_lt(a.skip(1), b.skip(1))
    }
}

/// The order is strict and total.
pub proof fn lemma_lex_order(a: Seq<char>, b: Seq<char>)
    ensures
        !(lex_lt(a, b) && lex_lt(b, a)),
        a != b ==> lex_lt(a, b) || lex_lt(b, a),
        !lex_lt(a, a),
    decreases a.len(),
{
    if a.len() > 0 && b.len() > 0 {
        if a[0] == b[0] {
            lemma_lex_order(a.skip(1), b.skip(1));
            if a != b {
                assert(a.skip(1) != b.skip(1)) by {
                    if a.skip(1) == b.skip(1) {
                        assert(a =~= seq![a[0]] + a.skip(1));
                        assert(b =~= seq![b[0]] + b.skip(1));
                    }
                }
            }
        }
    } else if a.len() == 0 && b.len() == 0 {
        assert(a =~= b);
    }
    if a.len() > 0 {
        lemma_lex_order(a.skip(1), a.skip(1));
    }
}

/// The order is transitive.
pub proof fn lemma_lex_transitive(a: Seq<char>, b: Seq<char>, c: Seq<char>)
    requires
        lex_lt(a, b),
        lex_lt(b, c),
    ensures
        lex_lt(a, c),
    decreases a.len(),
{
    if a.len() > 0 && b.len() > 0 && c.len() > 0 && a[0] == b[0] && b[0] == c[0] {
        lemma_lex_transitive(a.skip(1), b.skip(1), c.skip(1));
    }
}

/// Whether `a` comes strictly before `b` (see `lex_lt`).
pub fn lex_less(a: &Vec<char>, b: &Vec<char>) -> (r: bool)
    ensures
        r == lex_lt(a@, b@),
{
    let mut i: usize = 0;
    assert(a@.skip(0) =~= a@ && b@.skip(0) =~= b@);
    while i < a.len() && i < b.len() && a[i] == b[i]
        invariant
            i <= a@.len(),
            i <= b@.len(),
            lex_lt(a@, b@) == lex_lt(a@.skip(i as int), b@.skip(i as int)),
        decreases a.len() - i,
    {
        assert(a@.skip(i as int).skip(1) =~= a@.skip(i + 1));
        assert(b@.skip(i as int).skip(1) =~= b@.skip(i + 1));
        i += 1;
    }
    if i == a.len() {
        i < b.len()
    } else if i == b.len() {
        false
    } else {
        a[i] < b[i]
    }
}

/// Whether `s` begins with `p`.
pub open spec fn starts_with(s: Seq<char>, p: Seq<char>) -> bool {
    p.len() <= s.len() && s.take(p.len() as int) == p
}

/// Whether `s` begins with `p`.
pub fn has_prefix(s: &Vec<char>, p: &Vec<char>) -> (r: bool)
    ensures
        r == starts_with(s@, p@),
{
    if p.len() > s.len() {
        return false;
    }
    let mut i: usize = 0;
    while i < p.len()
        invariant
            p@.len() <= s@.len(),
            i <= p@.len(),
            forall|k: int| 0 <= k < i ==> s@[k] == p@[k],
        decreases p.len() - i,
    {
        if s[i] != p[i] {
            assert(s@.take(p@.len() as int)[i as int] != p@[i as int]);
            return false;
        }
        i += 1;
    }
    assert(s@.take(p@.len() as int) =~= p@);
    true
}

/// Strictly increasing in the order `lex_lt`: sorted, nothing twice.
pub open spec fn strictly_sorted(v: Seq<Seq<char>>) -> bool {
    forall|i: int, j: int| 0 <= i < j < v.len() ==> lex_lt(v[i], v[j])
}

/// The views of a list of character vectors.
pub open spec fn words_view(v: Seq<Vec<char>>) -> Seq<Seq<char>> {
    v.map_values(|w: Vec<char>| w@)
}

/// Inserts `x` into the sorted list `v`, unless it is there already.
fn insert_sorted(v: &mut Vec<Vec<char>>, x: Vec<char>)
    requires
        strictly_sorted(words_view(old(v)@)),
    ensures
        strictly_sorted(words_view(final(v)@)),
        forall|s: Seq<char>|
            #![trigger words_view(final(v)@).contains(s)]
            words_view(final(v)@).contains(s) <==> (words_view(old(v)@).contains(s) || s == x@),
{
    let ghost old_w = words_view(v@);
    let mut i: usize = 0;
    while i < v.len() && lex_less(&v[i], &x)
        invariant
            i <= v@.len(),
            old_w == words_view(v@),
            strictly_sorted(old_w),
            forall|k: int| 0 <= k < i ==> lex_lt(old_w[k], x@),
        decreases v.len() - i,
    {
        i += 1;
    }
    if i < v.len() {
        proof {
            lemma_lex_order(old_w[i as int], x@);
        }
        if !lex_less(&x, &v[i]) {
            assert(old_w[i as int] == x@);
            assert forall|s: Seq<char>|
                words_view(v@).contains(s) <==> (old_w.contains(s) || s == x@) by {
                if s == x@ {
                    assert(old_w[i as int] == s);
                }
            }
            return;
        }
    }
    let ghost xv = x@;
    v.insert(i, x);
    let ghost new_w = words_view(v@);
    assert(new_w =~= old_w.insert(i as int, xv));
    assert forall|a: int, b: int| 0 <= a < b < new_w.len() implies lex_lt(new_w[a], new_w[b]) by {
        if b < i {
        } else if b == i {
        } else if a < i {
            assert(new_w[b] == old_w[b - 1]);
            if b - 1 >= i {
                if b - 1 > i {
                    lemma_lex_transitive(xv, old_w[i as int], old_w[b - 1]);
                }
                lemma_lex_transitive(old_w[a], xv, old_w[b - 1]);
            }
        } else if a == i {
            assert(new_w[b] == old_w[b - 1]);
            if b - 1 > i {
                lemma_lex_transitive(xv, old_w[i as int], old_w[b - 1]);
            }
        } else {
            assert(new_w[a] == old_w[a - 1] && new_w[b] == old_w[b - 1]);
        }
    }
    assert forall|s: Seq<char>| new_w.contains(s) <==> (old_w.contains(s) || s == xv) by {
        if new_w.contains(s) {
            let k = choose|k: int| 0 <= k < new_w.len() && new_w[k] == s;
            if k < i {
                assert(old_w[k] == s);
            } else if k > i {
                assert(old_w[k - 1] == s);
            }
        }
        if old_w.contains(s) {
            let k = choose|k: int| 0 <= k < old_w.len() && old_w[k] == s;
            if k < i {
                assert(new_w[k] == s);
            } else {
                assert(new_w[k + 1] == s);
            }
        }
        if s == xv {
            assert(new_w[i as int] == s);
        }
    }
}

/// The displays of a list of candidates.
pub open spec fn displays(v: Seq<Candidate>) -> Seq<Seq<char>> {
    v.map_values(|c: Candidate| c.display@)
}

/// A candidate for a command name: listed as the name, put into the line with a space after.
pub open spec fn is_name_candidate(c: Candidate) -> bool {
    c.replacement@ == c.display@ + seq![' ']
}

impl ShellHelper {
    /// The candidates for a first word beginning with `prefix`: the builtins and the names in
    /// `path_names` (the entries of the directories of `PATH`) that begin with it, sorted,
    /// each name once.
    pub fn find_candidates(&self, prefix: &str, path_names: &Vec<String>) -> (r: Vec<Candidate>)
        ensures
            strictly_sorted(displays(r@)),
            forall|i: int| 0 <= i < r@.len() ==> is_name_candidate(#[trigger] r@[i]),
            forall|s: Seq<char>|
                displays(r@).contains(s) <==> (starts_with(s, prefix@) && (
                self.builtin_names().contains(s) || strings_view(path_names@).contains(s))),
    {
        let p = crate::text::chars_of(prefix);
        let mut sorted: Vec<Vec<char>> = Vec::new();
        let ghost bn = self.builtin_names();
        let ghost pn = strings_view(path_names@);
        let mut i: usize = 0;
        while i < self.builtins.len()
            invariant
                i <= self.builtins@.len(),
                bn == self.builtin_names(),
                p@ == prefix@,
                strictly_sorted(words_view(sorted@)),
                forall|s: Seq<char>|
                    #![trigger words_view(sorted@).contains(s)]
                    words_view(sorted@).contains(s) <==> (starts_with(s, prefix@) && exists|k: int|
                        0 <= k < i && bn[k] == s),
            decreases self.builtins.len() - i,
        {
            let name = crate::text::chars_of(self.builtins[i]);
            assert(name@ == bn[i as int]);
            let ghost before = words_view(sorted@);
            let ghost nv = name@;
            if has_prefix(&name, &p) {
                insert_sorted(&mut sorted, name);
                assert forall|s: Seq<char>|
                    words_view(sorted@).contains(s) <==> (starts_with(s, prefix@) && exists|k: int|
                        0 <= k < i + 1 && bn[k] == s) by {
                    if exists|k: int| 0 <= k < i + 1 && bn[k] == s {
                        let k = choose|k: int| 0 <= k < i + 1 && bn[k] == s;
                        if k < i {
                            assert(exists|k: int| 0 <= k < i && bn[k] == s);
                        }
                    }
                    if words_view(sorted@).contains(s) && s != nv {
                        assert(before.contains(s));
                        let k = choose|k: int| 0 <= k < i && bn[k] == s;
                        assert(0 <= k < i + 1 && bn[k] == s);
                    }
                }
            } else {
                assert forall|s: Seq<char>|
                    words_view(sorted@).contains(s) <==> (starts_with(s, prefix@) && exists|k: int|
                        0 <= k < i + 1 && bn[k] == s) by {
                    if starts_with(s, prefix@) && exists|k: int| 0 <= k < i + 1 && bn[k] == s {
                        let k = choose|k: int| 0 <= k < i + 1 && bn[k] == s;
                        if k < i {
                            assert(exists|k: int| 0 <= k < i && bn[k] == s);
                        }
                    }
                    if words_view(sorted@).contains(s) {
                        let k = choose|k: int| 0 <= k < i && bn[k] == s;
                        assert(0 <= k < i + 1 && bn[k] == s);
                    }
                }
            }
            i += 1;
        }
        assert forall|s: Seq<char>|
            words_view(sorted@).contains(s) <==> (starts_with(s, prefix@) && (bn.contains(s)
                || exists|k: int| 0 <= k < 0 && pn[k] == s)) by {
            if bn.contains(s) {
                let k = choose|k: int| 0 <= k < bn.len() && bn[k] == s;
                assert(0 <= k < i && bn[k] == s);
            }
            if exists|k: int| 0 <= k < i && bn[k] == s {
                let k = choose|k: int| 0 <= k < i && bn[k] == s;
                assert(bn[k] == s);
            }
        }
        let mut j: usize = 0;
        while j < path_names.len()
            invariant
                j <= path_names@.len(),
                bn == self.builtin_names(),
                bn.len() == self.builtins@.len(),
                pn == strings_view(path_names@),
                p@ == prefix@,
                strictly_sorted(words_view(sorted@)),
                forall|s: Seq<char>|
                    #![trigger words_view(sorted@).contains(s)]
                    words_view(sorted@).contains(s) <==> (starts_with(s, prefix@) && (bn.contains(s)
                        || exists|k: int| 0 <= k < j && pn[k] == s)),
            decreases path_names.len() - j,
        {
            let name = crate::text::chars_of(path_names[j].as_str());
            assert(name@ == pn[j as int]);
            let ghost before = words_view(sorted@);
            let ghost nv = name@;
            if has_prefix(&name, &p) {
                insert_sorted(&mut sorted, name);
                assert forall|s: Seq<char>|
                    words_view(sorted@).contains(s) <==> (starts_with(s, prefix@) && (bn.contains(s)
                        || exists|k: int| 0 <= k < j + 1 && pn[k] == s)) by {
                    if exists|k: int| 0 <= k < j + 1 && pn[k] == s {
                        let k = choose|k: int| 0 <= k < j + 1 && pn[k] == s;
                        if k < j {
                            assert(exists|k: int| 0 <= k < j && pn[k] == s);
                        }
                    }
                    if words_view(sorted@).contains(s) && s != nv {
                        assert(before.contains(s));
                        if !bn.contains(s) {
                            let k = choose|k: int| 0 <= k < j && pn[k] == s;
                            assert(0 <= k < j + 1 && pn[k] == s);
                        }
                    }
                }
            } else {
                assert forall|s: Seq<char>|
                    words_view(sorted@).contains(s) <==> (starts_with(s, prefix@) && (bn.contains(s)
                        || exists|k: int| 0 <= k < j + 1 && pn[k] == s)) by {
                    if starts_with(s, prefix@) && exists|k: int| 0 <= k < j + 1 && pn[k] == s {
                        let k = choose|k: int| 0 <= k < j + 1 && pn[k] == s;
                        if k < j {
                            assert(exists|k: int| 0 <= k < j && pn[k] == s);
                        }
                    }
                    if words_view(sorted@).contains(s) && !bn.contains(s) {
                        let k = choose|k: int| 0 <= k < j && pn[k] == s;
                        assert(0 <= k < j + 1 && pn[k] == s);
                    }
                }
            }
            j += 1;
        }
        let mut result: Vec<Candidate> = Vec::new();
        let mut k: usize = 0;
        while k < sorted.len()
            invariant
                k <= sorted@.len(),
                displays(result@) == words_view(sorted@).take(k as int),
                forall|i: int| 0 <= i < result@.len() ==> is_name_candidate(#[trigger] result@[i]),
            decreases sorted.len() - k,
        {
            let mut display = String::new();
            crate::text::push_chars(&mut display, &sorted[k]);
            let mut replacement = String::new();
            crate::text::push_chars(&mut replacement, &sorted[k]);
            push_char(&mut replacement, ' ');
            let ghost before = displays(result@);
            let ghost old_result = result@;
            assert(display@ =~= sorted@[k as int]@);
            assert(replacement@ =~= sorted@[k as int]@ + seq![' ']);
            result.push(Candidate { display, replacement });
            assert(displays(result@) =~= before.push(words_view(sorted@)[k as int]));
            assert forall|i: int| 0 <= i < result@.len() implies is_name_candidate(
                #[trigger] result@[i],
            ) by {
                if i < result@.len() - 1 {
                    assert(result@[i] == old_result[i]);
                    assert(is_name_candidate(old_result[i]));
                }
            }
            assert(words_view(sorted@).take(k + 1) =~= words_view(sorted@).take(k as int).push(
                words_view(sorted@)[k as int],
            ));
            k += 1;
        }
        assert(words_view(sorted@).take(sorted.len() as int) =~= words_view(sorted@));
        proof {
            assert forall|s: Seq<char>| bn.contains(s) <==> self.builtin_names().contains(s) by {}
            assert forall|s: Seq<char>|
                pn.contains(s) <==> (exists|k: int| 0 <= k < path_names@.len() && pn[k] == s) by {}
        }
        result
    }
}

/// Where the word under the cursor starts in `s` (the text before the cursor): just after
/// the last space, or at 0.
pub open spec fn word_start(s: Seq<char>) -> nat
    decreases s.len(),
{
    if s.len() == 0 {
        0
    } else if s.last() == ' ' {
        s.len()
    } else {
        word_start(s.drop_last())
    }
}

/// The number of whitespace characters at the end of `s`.
pub open spec fn trailing_whitespace(s: Seq<char>) -> nat
    decreases s.len(),
{
    if s.len() > 0 && is_whitespace_char(s.last()) {
        1 + trailing_whitespace(s.drop_last())
    } else {
        0
    }
}

/// The number of non-whitespace characters at the end of `s`.
pub open spec fn trailing_word(s: Seq<char>) -> nat
    decreases s.len(),
{
    if s.len() > 0 && !is_whitespace_char(s.last()) {
        1 + trailing_word(s.drop_last())
    } else {
        0
    }
}

/// The last whitespace-separated word of `s`, or nothing when it has none.
pub open spec fn last_word(s: Seq<char>) -> Seq<char> {
    let u = s.take(s.len() - trailing_whitespace(s));
    u.skip(u.len() - trailing_word(u))
}

/// `s` without its leading whitespace.
pub open spec fn trim_start(s: Seq<char>) -> Seq<char> {
    s.skip(leading_whitespace(s) as int)
}

/// What completion needs to know of the text before the cursor.
pub struct CompletionRequest {
    /// Where the word under the cursor starts (a character position).
    pub start: usize,
    /// The word under the cursor, up to the cursor.
    pub prefix: String,
    /// Whether the cursor is in the first word of the line.
    pub is_first_word: bool,
    /// The first word of the line.
    pub cmd_name: String,
    /// The last word before the word under the cursor.
    pub prev_word: String,
}

proof fn lemma_word_start(s: Seq<char>)
    ensures
        word_start(s) <= s.len(),
    decreases s.len(),
{
    if s.len() > 0 {
        lemma_word_start(s.drop_last());
    }
}

pub proof fn lemma_trailing(s: Seq<char>)
    ensures
        trailing_whitespace(s) <= s.len(),
        trailing_word(s) <= s.len(),
    decreases s.len(),
{
    if s.len() > 0 {
        lemma_trailing(s.drop_last());
    }
}

/// Where the word under the cursor starts (see `word_start`).
fn find_word_start(b: &Vec<char>) -> (r: usize)
    ensures
        r == word_start(b@),
        r <= b@.len(),
{
    let n = b.len();
    proof {
        lemma_word_start(b@);
    }
    let mut start = n;
    assert(b@.take(n as int) =~= b@);
    while start > 0 && b[start - 1] != ' '
        invariant
            start <= n,
            n == b@.len(),
            word_start(b@) == word_start(b@.take(start as int)),
        decreases start,
    {
        assert(b@.take(start as int).drop_last() =~= b@.take(start - 1));
        start -= 1;
    }
    proof {
        if start > 0 {
            assert(b@.take(start as int).last() == ' ');
        }
        assert(b@.take(0) =~= Seq::<char>::empty());
    }
    start
}

/// The first word of the line: its start after leading whitespace, and its end at the first
/// space after that (or the end).
fn first_word(b: &Vec<char>) -> (r: (usize, usize))
    ensures
        r.0 <= r.1 <= b@.len(),
        b@.skip(r.0 as int) == trim_start(b@),
        r.1 - r.0 == leading_non(trim_start(b@), ' '),
        (r.1 == b@.len()) == !trim_start(b@).contains(' '),
{
    let n = b.len();
    let first = crate::parser::primitives::zero_or_more_whitespace(b, 0);
    assert(b@.skip(0) =~= b@);
    let ghost trimmed = trim_start(b@);
    proof {
        lemma_leading_whitespace(b@);
        lemma_leading_non(trimmed, ' ');
    }
    let mut k = first;
    while k < n && b[k] != ' '
        invariant
            first <= k <= n,
            n == b@.len(),
            trimmed == b@.skip(first as int),
            forall|m: int| first <= m < k ==> b@[m] != ' ',
        decreases n - k,
    {
        k += 1;
    }
    proof {
        assert forall|m: int| 0 <= m < k - first implies trimmed[m] != ' ' by {
            assert(trimmed[m] == b@[first + m]);
        }
        if k < n {
            assert(trimmed[k - first] == ' ');
        }
        let l = leading_non(trimmed, ' ') as int;
        if l < k - first {
            assert(trimmed[l] == ' ');
        } else if l > k - first {
            assert(trimmed[k - first] != ' ');
        }
        if k == n {
            assert forall|m: int| 0 <= m < trimmed.len() implies trimmed[m] != ' ' by {
                assert(trimmed[m] == b@[first + m]);
            }
        }
    }
    (first, k)
}

/// The bounds of the last whitespace-separated word of the first `start` characters.
fn last_word_bounds(b: &Vec<char>, start: usize) -> (r: (usize, usize))
    requires
        start <= b@.len(),
    ensures
        r.0 <= r.1 <= start,
        b@.subrange(r.0 as int, r.1 as int) == last_word(b@.take(start as int)),
{
    let ghost head = b@.take(start as int);
    proof {
        lemma_trailing(head);
    }
    let mut end = start;
    assert(b@.take(start as int) =~= head);
    while end > 0 && is_whitespace(b[end - 1])
        invariant
            end <= start <= b@.len(),
            head == b@.take(start as int),
            trailing_whitespace(head) == (start - end) + trailing_whitespace(b@.take(end as int)),
        decreases end,
    {
        assert(b@.take(end as int).drop_last() =~= b@.take(end - 1));
        end -= 1;
    }
    let ghost u = b@.take(end as int);
    proof {
        if end > 0 {
            assert(u.last() == b@[end - 1]);
        }
        lemma_trailing(u);
    }
    assert(head.take(head.len() - trailing_whitespace(head)) =~= u);
    let mut w = end;
    assert(b@.take(end as int) =~= u);
    while w > 0 && !is_whitespace(b[w - 1])
        invariant
            w <= end <= start <= b@.len(),
            u == b@.take(end as int),
            trailing_word(u) == (end - w) + trailing_word(b@.take(w as int)),
        decreases w,
    {
        assert(b@.take(w as int).drop_last() =~= b@.take(w - 1));
        w -= 1;
    }
    proof {
        if w > 0 {
            assert(b@.take(w as int).last() == b@[w - 1]);
        }
    }
    assert(b@.subrange(w as int, end as int) =~= u.skip(u.len() - trailing_word(u)));
    (w, end)
}

/// Reads the text before the cursor: where the word under the cursor starts, that word so far,
/// whether it is the first word of the line, the line's first word, and the word before the
/// one under the cursor.
pub fn completion_request(before_cursor: &str) -> (r: CompletionRequest)
    ensures
        r.start == word_start(before_cursor@),
        r.prefix@ == before_cursor@.skip(r.start as int),
        r.is_first_word == !trim_start(before_cursor@).contains(' '),
        r.cmd_name@ == trim_start(before_cursor@).take(
            leading_non(trim_start(before_cursor@), ' ') as int,
        ),
        r.prev_word@ == last_word(before_cursor@.take(r.start as int)),
{
    let b = chars_of(before_cursor);
    let n = b.len();
    let start = find_word_start(&b);
    let prefix = string_of(&b, start, n);
    assert(b@.subrange(start as int, n as int) =~= b@.skip(start as int));
    let (first, k) = first_word(&b);
    let cmd_name = string_of(&b, first, k);
    assert(b@.subrange(first as int, k as int) =~= b@.skip(first as int).take(k - first));
    let (w, end) = last_word_bounds(&b, start);
    let prev_word = string_of(&b, w, end);
    CompletionRequest { start, prefix, is_first_word: k == n, cmd_name, prev_word }
}

/// `s` without one carriage return at its end.
pub open spec fn strip_cr(s: Seq<char>) -> Seq<char> {
    if s.len() > 0 && s.last() == '\r' {
        s.drop_last()
    } else {
        s
    }
}

/// The lines of `s` as `str::lines` gives them: split at each `\n`, a `\r` before it dropped,
/// with no empty line after a final `\n`.
pub open spec fn lines_of(s: Seq<char>) -> Seq<Seq<char>>
    decreases s.len(),
{
    if s.len() == 0 {
        Seq::empty()
    } else {
        let k = leading_non(s, '\n');
        if k < s.len() {
            seq![strip_cr(s.take(k as int))] + lines_of(s.skip(k + 1int))
        } else {
            seq![s]
        }
    }
}

/// The candidates that a completion command printed, one per line of `stdout`: each listed as
/// the line and put into the line with a space after.
pub fn ext_candidates(stdout: &str) -> (r: Vec<Candidate>)
    ensures
        displays(r@) == lines_of(stdout@),
        forall|i: int| 0 <= i < r@.len() ==> is_name_candidate(#[trigger] r@[i]),
{
    let s = chars_of(stdout);
    let n = s.len();
    let mut result: Vec<Candidate> = Vec::new();
    let mut i: usize = 0;
    assert(s@.skip(0) =~= s@);
    while i < n
        invariant
            i <= n,
            n == s@.len(),
            lines_of(stdout@) == displays(result@) + lines_of(s@.skip(i as int)),
            s@ == stdout@,
            forall|m: int| 0 <= m < result@.len() ==> is_name_candidate(#[trigger] result@[m]),
        decreases n - i,
    {
        let ghost rest = s@.skip(i as int);
        proof {
            lemma_leading_non(rest, '\n');
        }
        let mut j = i;
        while j < n && s[j] != '\n'
            invariant
                i <= j <= n,
                n == s@.len(),
                rest == s@.skip(i as int),
                forall|m: int| i <= m < j ==> s@[m] != '\n',
            decreases n - j,
        {
            j += 1;
        }
        proof {
            let l = leading_non(rest, '\n') as int;
            if l < j - i {
                assert(rest[l] == s@[i + l]);
            } else if l > j - i {
                assert(rest[j - i] == s@[j as int]);
            }
        }
        let mut end = j;
        if j < n && j > i && s[j - 1] == '\r' {
            end = j - 1;
        }
        let line = string_of(&s, i, end);
        assert(line@ =~= if j < n {
            strip_cr(rest.take(j - i))
        } else {
            rest
        });
        let mut replacement = string_of(&s, i, end);
        push_char(&mut replacement, ' ');
        assert(replacement@ =~= line@ + seq![' ']);
        let ghost before = displays(result@);
        let ghost old_result = result@;
        result.push(Candidate { display: line, replacement });
        assert(displays(result@) =~= before.push(result@.last().display@));
        assert forall|m: int| 0 <= m < result@.len() implies is_name_candidate(
            #[trigger] result@[m],
        ) by {
            if m < old_result.len() {
                assert(result@[m] == old_result[m]);
            }
        }
        if j < n {
            assert(rest.skip(j - i + 1) =~= s@.skip(j + 1));
            assert(before + (seq![result@.last().display@] + lines_of(s@.skip(j + 1)))
                =~= displays(result@) + lines_of(s@.skip(j + 1)));
            i = j + 1;
        } else {
            assert(s@.skip(n as int) =~= Seq::<char>::empty());
            assert(before + seq![result@.last().display@] =~= displays(result@) + lines_of(
                s@.skip(n as int),
            ));
            i = n;
        }
    }
    assert(s@.skip(n as int) =~= Seq::<char>::empty());
    assert(displays(result@) + Seq::<Seq<char>>::empty() =~= displays(result@));
    result
}

/// A candidate from the file name completer: listed as the completed path, put into the line
/// with a space after it unless it is a directory (ends with `/`).
pub open spec fn file_candidate_spec(replacement: Seq<char>) -> (Seq<char>, Seq<char>) {
    (
        replacement,
        if replacement.len() > 0 && replacement.last() == '/' {
            replacement
        } else {
            replacement + seq![' ']
        },
    )
}

/// The candidate for a completed path (see `file_candidate_spec`).
pub fn file_candidate(replacement: String) -> (r: Candidate)
    ensures
        (r.display@, r.replacement@) == file_candidate_spec(replacement@),
{
    let chars = chars_of(replacement.as_str());
    let display = replacement.clone();
    let mut out = replacement;
    if !(chars.len() > 0 && chars[chars.len() - 1] == '/') {
        push_char(&mut out, ' ');
    }
    Candidate { display, replacement: out }
}

/// What `complete` was told is what it tells: after `complete -C <path> <command>`,
/// `complete -p <command>` prints that path; after `complete -r <command>`, it prints that
/// there is none.
pub proof fn lemma_register_then_print(
    m: Map<Seq<char>, Seq<char>>,
    path: Seq<char>,
    target: Seq<char>,
)
    ensures
        complete_outcome(seq!["-p"@, target], complete_outcome(seq!["-C"@, path, target], m).0).1
            == "complete -C '"@ + path + "' "@ + target + seq!['\n'],
        complete_outcome(seq!["-p"@, target], complete_outcome(seq!["-r"@, target], m).0).1
            == "complete: "@ + target + ": no completion specification"@ + seq!['\n'],
{
    reveal_strlit("-C");
    reveal_strlit("-p");
    reveal_strlit("-r");
    assert("-C"@ != "-p"@) by {
        assert("-C"@[1] != "-p"@[1]);
    }
    assert("-r"@ != "-C"@) by {
        assert("-r"@[1] != "-C"@[1]);
    }
    assert("-r"@ != "-p"@) by {
        assert("-r"@[1] != "-p"@[1]);
    }
}

} // verus!
